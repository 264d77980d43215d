//! Gas estimation for a function body, after the simplified Stylus cost
//! model: one unit per instruction, storage overhead per local, and memory
//! overhead that grows with the body's size.

use vstd::prelude::*;
use crate::analyzer::FunctionInfo;

verus! {

/// The estimated gas of a function: one unit per instruction, three per
/// local variable, and one per ten bytes of body.
pub open spec fn gas_of(f: FunctionInfo) -> int {
    f.instruction_count + f.local_count * 3 + f.body_size / 10
}

/// Whether the estimate of `f` can be held in a `u64`.
pub open spec fn gas_fits(f: FunctionInfo) -> bool {
    gas_of(f) <= u64::MAX
}

/// Rough gas estimation based on Stylus WASM opcode costs: ArbOS charges
/// about one gas per WASM instruction; locals and body size add overhead.
pub fn estimate_gas(func: &FunctionInfo) -> (gas: u64)
    requires
        gas_fits(*func),
    ensures
        gas == gas_of(*func),
{
    let base = func.instruction_count as u64;
    let locals_overhead = func.local_count as u64 * 3;
    let size_overhead = (func.body_size as u64) / 10;
    base + locals_overhead + size_overhead
}

/// The estimate reads only the instruction count, the local count and the
/// body size: two functions that agree on these, whatever their index and
/// name, get the same estimate.
pub proof fn lemma_gas_ignores_index_and_name(f1: FunctionInfo, f2: FunctionInfo)
    requires
        f1.instruction_count == f2.instruction_count,
        f1.local_count == f2.local_count,
        f1.body_size == f2.body_size,
    ensures
        gas_of(f1) == gas_of(f2),
        gas_fits(f1) <==> gas_fits(f2),
{
}

/// A function with no instructions, no locals and an empty body costs
/// nothing.
pub proof fn lemma_gas_of_nothing(f: FunctionInfo)
    requires
        f.instruction_count == 0,
        f.local_count == 0,
        f.body_size == 0,
    ensures
        gas_of(f) == 0,
{
}

/// Each instruction costs exactly one unit: one more instruction, all else
/// equal, adds one to the estimate.
pub proof fn lemma_gas_per_instruction(f1: FunctionInfo, f2: FunctionInfo)
    requires
        f2.instruction_count == f1.instruction_count + 1,
        f2.local_count == f1.local_count,
        f2.body_size == f1.body_size,
    ensures
        gas_of(f2) == gas_of(f1) + 1,
{
}

/// Each local costs exactly three units: one more local, all else equal,
/// adds three to the estimate.
pub proof fn lemma_gas_per_local(f1: FunctionInfo, f2: FunctionInfo)
    requires
        f2.local_count == f1.local_count + 1,
        f2.instruction_count == f1.instruction_count,
        f2.body_size == f1.body_size,
    ensures
        gas_of(f2) == gas_of(f1) + 3,
{
}

/// The body costs one unit per whole ten bytes: ten more bytes, all else
/// equal, add one to the estimate, and bodies that differ only within the
/// same ten bytes cost the same.
pub proof fn lemma_gas_per_ten_bytes(f1: FunctionInfo, f2: FunctionInfo)
    requires
        f2.instruction_count == f1.instruction_count,
        f2.local_count == f1.local_count,
    ensures
        f2.body_size == f1.body_size + 10 ==> gas_of(f2) == gas_of(f1) + 1,
        f1.body_size / 10 == f2.body_size / 10 ==> gas_of(f2) == gas_of(f1),
{
}

/// The estimate grows with each of its three inputs: a function that has at
/// least the instructions, locals and body bytes of another costs at least
/// as much, and at least one unit per instruction.
pub proof fn lemma_gas_monotone(f1: FunctionInfo, f2: FunctionInfo)
    requires
        f1.instruction_count <= f2.instruction_count,
        f1.local_count <= f2.local_count,
        f1.body_size <= f2.body_size,
    ensures
        gas_of(f1) <= gas_of(f2),
        gas_of(f2) >= f2.instruction_count + 3 * f2.local_count,
{
    assert(f1.body_size / 10 <= f2.body_size / 10) by (nonlinear_arith)
        requires
            f1.body_size <= f2.body_size,
    ;
}

} // verus!
