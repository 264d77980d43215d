//! Comparison of two builds of a contract, to catch size regressions.

use vstd::prelude::*;
use crate::analyzer::{code_size, FunctionInfo, WasmAnalysis};

verus! {

/// Which way the binary's size went from the old build to the new one.
#[derive(Debug, Clone, Copy, PartialEq, Eq, Structural)]
pub enum SizeTrend {
    Grew,
    Shrank,
    Unchanged,
}

/// How a new build differs from an old one: binary size, code size and
/// function count, each new minus old.
#[derive(Debug, Clone, Copy)]
pub struct Comparison {
    pub size_diff: i64,
    pub code_diff: i64,
    pub func_diff: i64,
    pub trend: SizeTrend,
}

/// `c` compares build `new` against build `old`.
pub open spec fn compares(c: Comparison, old: WasmAnalysis, new: WasmAnalysis) -> bool {
    &&& c.size_diff == new.file_size - old.file_size
    &&& c.code_diff == code_size(new.functions@) - code_size(old.functions@)
    &&& c.func_diff == new.functions@.len() - old.functions@.len()
    &&& c.trend == (if c.size_diff > 0 {
        SizeTrend::Grew
    } else if c.size_diff < 0 {
        SizeTrend::Shrank
    } else {
        SizeTrend::Unchanged
    })
}

/// The sizes of a build that a comparison reads fit in an `i64`.
pub open spec fn comparable(a: WasmAnalysis) -> bool {
    &&& a.file_size <= i64::MAX
    &&& code_size(a.functions@) <= i64::MAX
    &&& code_size(a.functions@) <= usize::MAX
    &&& a.functions@.len() <= i64::MAX
}

/// Compares build `new` against build `old`.
pub fn compare_analyses(old: &WasmAnalysis, new: &WasmAnalysis) -> (c: Comparison)
    requires
        comparable(*old),
        comparable(*new),
    ensures
        compares(c, *old, *new),
        c.size_diff == new.file_size - old.file_size,
        c.trend == SizeTrend::Grew <==> new.file_size > old.file_size,
        c.trend == SizeTrend::Shrank <==> new.file_size < old.file_size,
        c.trend == SizeTrend::Unchanged <==> new.file_size == old.file_size,
{
    let size_diff = new.file_size as i64 - old.file_size as i64;
    let code_diff = new.total_code_size() as i64 - old.total_code_size() as i64;
    let func_diff = new.total_functions() as i64 - old.total_functions() as i64;
    let trend = if size_diff > 0 {
        SizeTrend::Grew
    } else if size_diff < 0 {
        SizeTrend::Shrank
    } else {
        SizeTrend::Unchanged
    };
    Comparison { size_diff, code_diff, func_diff, trend }
}

/// Comparing the other way round negates every difference and turns growth
/// into shrinkage.
pub proof fn lemma_comparison_antisymmetric(
    c1: Comparison,
    c2: Comparison,
    a: WasmAnalysis,
    b: WasmAnalysis,
)
    requires
        compares(c1, a, b),
        compares(c2, b, a),
    ensures
        c1.size_diff == -c2.size_diff,
        c1.code_diff == -c2.code_diff,
        c1.func_diff == -c2.func_diff,
        c1.trend == SizeTrend::Grew <==> c2.trend == SizeTrend::Shrank,
        c1.trend == SizeTrend::Unchanged <==> c2.trend == SizeTrend::Unchanged,
{
}

/// A build compared with itself shows no change.
pub proof fn lemma_comparison_with_itself(c: Comparison, a: WasmAnalysis)
    requires
        compares(c, a, a),
    ensures
        c.size_diff == 0,
        c.code_diff == 0,
        c.func_diff == 0,
        c.trend == SizeTrend::Unchanged,
{
}

/// The verdict is read from the file sizes alone: a build grew exactly when
/// its binary is larger, shrank exactly when it is smaller, and is unchanged
/// exactly when both binaries have the same size, whatever the code did.
pub proof fn lemma_trend_follows_file_size(c: Comparison, old: WasmAnalysis, new: WasmAnalysis)
    requires
        compares(c, old, new),
    ensures
        c.size_diff == new.file_size - old.file_size,
        c.trend == SizeTrend::Grew <==> new.file_size > old.file_size,
        c.trend == SizeTrend::Shrank <==> new.file_size < old.file_size,
        c.trend == SizeTrend::Unchanged <==> new.file_size == old.file_size,
{
}

/// One more function in the new build, with the binary sizes unchanged,
/// raises the code difference by exactly its body size and the function
/// difference by one, and leaves the size difference and the verdict as they
/// were.
pub proof fn lemma_comparison_one_more_function(
    c1: Comparison,
    c2: Comparison,
    old: WasmAnalysis,
    new1: WasmAnalysis,
    new2: WasmAnalysis,
    f: FunctionInfo,
)
    requires
        compares(c1, old, new1),
        compares(c2, old, new2),
        new2.file_size == new1.file_size,
        new2.functions@ == new1.functions@.push(f),
    ensures
        c2.code_diff == c1.code_diff + f.body_size,
        c2.func_diff == c1.func_diff + 1,
        c2.size_diff == c1.size_diff,
        c2.trend == c1.trend,
{
    assert(new2.functions@.drop_last() =~= new1.functions@);
}

/// Builds with the same functions have no code or function difference,
/// whatever their binary sizes.
pub proof fn lemma_same_functions_same_code(c: Comparison, old: WasmAnalysis, new: WasmAnalysis)
    requires
        compares(c, old, new),
        new.functions@ == old.functions@,
    ensures
        c.code_diff == 0,
        c.func_diff == 0,
{
}

} // verus!
