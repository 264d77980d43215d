//! The analysis of a WebAssembly binary and the report made from it.

use vstd::prelude::*;
use vstd::string::StringExecFns;
use crate::gas::{estimate_gas, gas_fits, gas_of};
use crate::text::{decimal, digits_value, is_decimal_text, lemma_decimal_reads_back, push_decimal};
use crate::wasm::{
    custom_section, data_lengths, export_names, name_outcomes, name_subsections, name_views,
    has_wasm_header, import_entries, local_counts, memory_initials, module_regions,
    operator_entries, outcomes, table_entries, wasm_custom, wasm_data_lengths, wasm_exports,
    wasm_name_subsections, wasm_imports, wasm_locals, wasm_memories, wasm_operators, wasm_regions,
    wasm_tables, ImportType, ParseError, Region, RegionKind,
};

verus! {

/// What the analysis knows of one function of the module.
#[derive(Debug, Clone)]
pub struct FunctionInfo {
    pub index: u32,
    pub name: Option<String>,
    pub body_size: usize,
    pub local_count: u32,
    pub instruction_count: usize,
}

/// What the analysis of a WebAssembly binary found in it.
#[derive(Debug)]
pub struct WasmAnalysis {
    pub file_size: usize,
    pub functions: Vec<FunctionInfo>,
    pub imports: Vec<String>,
    pub exports: Vec<String>,
    pub memory_pages: Option<u32>,
    pub table_count: u32,
    pub custom_sections: Vec<(String, usize)>,
    pub data_segment_size: usize,
    pub schema_version: String,
    pub binary_size_bytes: usize,
}

/// Why a binary could not be analyzed.
#[derive(Debug, PartialEq, Eq)]
pub enum AnalyzeError {
    /// The binary is not well-formed WebAssembly: what is wrong and the
    /// byte offset where it was found.
    Malformed { message: String, offset: u64 },
    /// A count or a total does not fit the integer type that holds it.
    CountOverflow,
}

/// One item found while walking through a binary's sections, in the order
/// in which the sections hold them.
#[derive(Debug)]
pub enum WasmItem {
    /// An import of `name` from `module`; `is_function` where a function is
    /// imported.
    Import { module: String, name: String, is_function: bool },
    /// An export named `name`.
    Export { name: String },
    /// A memory of `initial_pages` pages at instantiation.
    Memory { initial_pages: u64 },
    /// A table.
    Table,
    /// A function body from the code section.
    Function { body_size: usize, local_count: u32, instruction_count: usize },
    /// A custom section and the size of its contents.
    CustomSection { name: String, size: usize },
    /// The name the `name` section gives the function of module index `index`.
    FunctionName { index: u32, name: String },
    /// A data segment and the size of its contents.
    DataSegment { size: usize },
    /// The header or the end of a module or component. Functions are
    /// numbered and named within the module that holds them.
    ModuleBoundary,
}

/// The views of a list of strings.
pub open spec fn texts(v: Seq<String>) -> Seq<Seq<char>> {
    v.map_values(|s: String| s@)
}

/// The views of a list of named sizes.
pub open spec fn named_sizes(v: Seq<(String, usize)>) -> Seq<(Seq<char>, usize)> {
    v.map_values(|e: (String, usize)| (e.0@, e.1))
}

/// The size, local count and instruction count of every function body of
/// `items`, in order.
pub open spec fn function_bodies(items: Seq<WasmItem>) -> Seq<(usize, u32, usize)>
    decreases items.len(),
{
    if items.len() == 0 {
        seq![]
    } else {
        let prev = function_bodies(items.drop_last());
        match items.last() {
            WasmItem::Function { body_size, local_count, instruction_count } => prev.push(
                (body_size, local_count, instruction_count),
            ),
            _ => prev,
        }
    }
}

/// The number of imported functions in `items`: they come first in the
/// module's function index space.
pub open spec fn function_import_count(items: Seq<WasmItem>) -> nat
    decreases items.len(),
{
    if items.len() == 0 {
        0
    } else {
        function_import_count(items.drop_last()) + match items.last() {
            WasmItem::Import { is_function, .. } => if is_function { 1nat } else { 0nat },
            _ => 0nat,
        }
    }
}

/// The name `items` give the function of module index `index`; where several
/// entries name it, the last one.
pub open spec fn name_for(items: Seq<WasmItem>, index: int) -> Option<String>
    decreases items.len(),
{
    if items.len() == 0 {
        None
    } else {
        match items.last() {
            WasmItem::FunctionName { index: i, name } => if i == index {
                Some(name)
            } else {
                name_for(items.drop_last(), index)
            },
            _ => name_for(items.drop_last(), index),
        }
    }
}

/// The function bodies of `items` numbered in the module's index space from
/// `first`, without names.
pub open spec fn unnamed_functions(items: Seq<WasmItem>, first: nat) -> Seq<FunctionInfo> {
    let bodies = function_bodies(items);
    Seq::new(
        bodies.len(),
        |i: int|
            FunctionInfo {
                index: (first + i) as u32,
                name: None,
                body_size: bodies[i].0,
                local_count: bodies[i].1,
                instruction_count: bodies[i].2,
            },
    )
}

/// The function of body `p` of `bodies`, numbered from `first`, named `name`.
pub open spec fn function_at(bodies: Seq<(usize, u32, usize)>, first: nat, p: int, name: Option<String>) -> FunctionInfo {
    FunctionInfo {
        index: (first + p) as u32,
        name,
        body_size: bodies[p].0,
        local_count: bodies[p].1,
        instruction_count: bodies[p].2,
    }
}

/// The functions of the items of one module in code-section order, each
/// with its index in the module (after the imported functions) and the name
/// the `name` section gives that index, if any.
pub open spec fn module_functions(items: Seq<WasmItem>) -> Seq<FunctionInfo> {
    let first = function_import_count(items);
    let bodies = function_bodies(items);
    Seq::new(
        bodies.len(),
        |i: int|
            FunctionInfo {
                index: (first + i) as u32,
                name: name_for(items, first + i),
                body_size: bodies[i].0,
                local_count: bodies[i].1,
                instruction_count: bodies[i].2,
            },
    )
}

/// The position of the last module boundary in `items`, or -1 where there is
/// none.
pub open spec fn last_boundary(items: Seq<WasmItem>) -> int
    decreases items.len(),
{
    if items.len() == 0 {
        -1
    } else if items.last() is ModuleBoundary {
        items.len() - 1
    } else {
        last_boundary(items.drop_last())
    }
}

/// The last module boundary lies inside `items`.
pub proof fn lemma_last_boundary_bounds(items: Seq<WasmItem>)
    ensures
        -1 <= last_boundary(items) < items.len(),
        last_boundary(items) >= 0 ==> items[last_boundary(items)] is ModuleBoundary,
    decreases items.len(),
{
    if items.len() > 0 && !(items.last() is ModuleBoundary) {
        lemma_last_boundary_bounds(items.drop_last());
    }
}

/// The functions of `items` in code-section order: those of each module,
/// module after module, each numbered and named within its own module.
pub open spec fn listed_functions(items: Seq<WasmItem>) -> Seq<FunctionInfo>
    decreases items.len(),
{
    let b = last_boundary(items);
    if b < 0 {
        module_functions(items)
    } else {
        proof {
            lemma_last_boundary_bounds(items);
        }
        listed_functions(items.take(b)) + module_functions(items.skip(b + 1))
    }
}

/// The items of one module give more functions, imported and defined, than
/// 32-bit indices can number.
pub open spec fn module_overflows(items: Seq<WasmItem>) -> bool {
    function_import_count(items) + function_bodies(items).len() > u32::MAX
}

/// Some module of `items` gives more functions than 32-bit indices can
/// number.
pub open spec fn any_module_overflows(items: Seq<WasmItem>) -> bool
    decreases items.len(),
{
    let b = last_boundary(items);
    if b < 0 {
        module_overflows(items)
    } else {
        proof {
            lemma_last_boundary_bounds(items);
        }
        any_module_overflows(items.take(b)) || module_overflows(items.skip(b + 1))
    }
}

/// The imports of `items`, each written `module.name`.
pub open spec fn imported_names(items: Seq<WasmItem>) -> Seq<Seq<char>>
    decreases items.len(),
{
    if items.len() == 0 {
        seq![]
    } else {
        let prev = imported_names(items.drop_last());
        match items.last() {
            WasmItem::Import { module, name, .. } => prev.push(module@ + "."@ + name@),
            _ => prev,
        }
    }
}

/// The export names of `items`.
pub open spec fn exported_names(items: Seq<WasmItem>) -> Seq<Seq<char>>
    decreases items.len(),
{
    if items.len() == 0 {
        seq![]
    } else {
        let prev = exported_names(items.drop_last());
        match items.last() {
            WasmItem::Export { name } => prev.push(name@),
            _ => prev,
        }
    }
}

/// The initial page count of the last memory of `items`, cut to 32 bits.
pub open spec fn memory_pages(items: Seq<WasmItem>) -> Option<u32>
    decreases items.len(),
{
    if items.len() == 0 {
        None
    } else {
        match items.last() {
            WasmItem::Memory { initial_pages } => Some(initial_pages as u32),
            _ => memory_pages(items.drop_last()),
        }
    }
}

/// The number of tables in `items`.
pub open spec fn table_count(items: Seq<WasmItem>) -> nat
    decreases items.len(),
{
    if items.len() == 0 {
        0
    } else {
        table_count(items.drop_last()) + if items.last() is Table { 1nat } else { 0nat }
    }
}

/// The custom sections of `items` with their sizes.
pub open spec fn custom_sections(items: Seq<WasmItem>) -> Seq<(Seq<char>, usize)>
    decreases items.len(),
{
    if items.len() == 0 {
        seq![]
    } else {
        let prev = custom_sections(items.drop_last());
        match items.last() {
            WasmItem::CustomSection { name, size } => prev.push((name@, size)),
            _ => prev,
        }
    }
}

/// The total size of the data segments of `items`.
pub open spec fn data_size(items: Seq<WasmItem>) -> nat
    decreases items.len(),
{
    if items.len() == 0 {
        0
    } else {
        data_size(items.drop_last()) + match items.last() {
            WasmItem::DataSegment { size } => size as nat,
            _ => 0nat,
        }
    }
}

/// What a binary's items give is what their parts give, in order: the
/// imports, exports, custom sections and function bodies of `a + b` are
/// those of `a` followed by those of `b`; its tables, data bytes and
/// imported functions are the sums of both; the last memory of `b`, where
/// it has one, stands for the whole, else that of `a`. So items appended to
/// a binary never change or remove an entry already kept.
pub proof fn lemma_items_concat(a: Seq<WasmItem>, b: Seq<WasmItem>)
    ensures
        imported_names(a + b) == imported_names(a) + imported_names(b),
        exported_names(a + b) == exported_names(a) + exported_names(b),
        custom_sections(a + b) == custom_sections(a) + custom_sections(b),
        function_bodies(a + b) == function_bodies(a) + function_bodies(b),
        table_count(a + b) == table_count(a) + table_count(b),
        data_size(a + b) == data_size(a) + data_size(b),
        function_import_count(a + b) == function_import_count(a) + function_import_count(b),
        memory_pages(a + b) == (if memory_pages(b) is Some { memory_pages(b) } else { memory_pages(a) }),
    decreases b.len(),
{
    if b.len() == 0 {
        assert(a + b =~= a);
        assert(imported_names(a) + imported_names(b) =~= imported_names(a));
        assert(exported_names(a) + exported_names(b) =~= exported_names(a));
        assert(custom_sections(a) + custom_sections(b) =~= custom_sections(a));
        assert(function_bodies(a) + function_bodies(b) =~= function_bodies(a));
    } else {
        let bp = b.drop_last();
        lemma_items_concat(a, bp);
        assert((a + b).drop_last() =~= a + bp);
        assert((a + b).last() == b.last());
        assert(imported_names(a + b) =~= imported_names(a) + imported_names(b));
        assert(exported_names(a + b) =~= exported_names(a) + exported_names(b));
        assert(custom_sections(a + b) =~= custom_sections(a) + custom_sections(b));
        assert(function_bodies(a + b) =~= function_bodies(a) + function_bodies(b));
    }
}

/// What one item gives: an import its `module.name` and, for a function,
/// one imported function; an export its name; a custom section one entry
/// with its name and size; a function body its size, locals and
/// instructions; a table one table; a data segment its size; a memory its
/// initial page count cut to 32 bits. Any other item gives none of these.
pub proof fn lemma_item_contribution(x: WasmItem)
    ensures
        imported_names(seq![x]) == (match x {
            WasmItem::Import { module, name, .. } => seq![module@ + "."@ + name@],
            _ => Seq::<Seq<char>>::empty(),
        }),
        function_import_count(seq![x]) == (if x matches WasmItem::Import { is_function: true, .. } { 1nat } else { 0nat }),
        exported_names(seq![x]) == (match x {
            WasmItem::Export { name } => seq![name@],
            _ => Seq::<Seq<char>>::empty(),
        }),
        custom_sections(seq![x]) == (match x {
            WasmItem::CustomSection { name, size } => seq![(name@, size)],
            _ => Seq::<(Seq<char>, usize)>::empty(),
        }),
        function_bodies(seq![x]) == (match x {
            WasmItem::Function { body_size, local_count, instruction_count } => seq![(body_size, local_count, instruction_count)],
            _ => Seq::<(usize, u32, usize)>::empty(),
        }),
        table_count(seq![x]) == (if x is Table { 1nat } else { 0nat }),
        data_size(seq![x]) == (match x {
            WasmItem::DataSegment { size } => size as nat,
            _ => 0nat,
        }),
        memory_pages(seq![x]) == (match x {
            WasmItem::Memory { initial_pages } => Some(initial_pages as u32),
            _ => None,
        }),
{
    let one = seq![x];
    assert(one.drop_last() =~= Seq::<WasmItem>::empty());
    assert(one.last() == x);
    assert(imported_names(Seq::<WasmItem>::empty()) =~= Seq::<Seq<char>>::empty());
    assert(exported_names(Seq::<WasmItem>::empty()) =~= Seq::<Seq<char>>::empty());
    assert(custom_sections(Seq::<WasmItem>::empty()) =~= Seq::<(Seq<char>, usize)>::empty());
    assert(function_bodies(Seq::<WasmItem>::empty()) =~= Seq::<(usize, u32, usize)>::empty());
    assert(function_import_count(Seq::<WasmItem>::empty()) == 0);
    assert(table_count(Seq::<WasmItem>::empty()) == 0);
    assert(data_size(Seq::<WasmItem>::empty()) == 0);
    assert(memory_pages(Seq::<WasmItem>::empty()) is None);
    match x {
        WasmItem::Import { module, name, .. } => {
            assert(imported_names(one) =~= seq![module@ + "."@ + name@]);
        },
        WasmItem::Export { name } => {
            assert(exported_names(one) =~= seq![name@]);
        },
        WasmItem::CustomSection { name, size } => {
            assert(custom_sections(one) =~= seq![(name@, size)]);
        },
        WasmItem::Function { body_size, local_count, instruction_count } => {
            assert(function_bodies(one) =~= seq![(body_size, local_count, instruction_count)]);
        },
        _ => {},
    }

}

/// The analysis of a binary is that of its parts put together: the
/// imports, exports and custom sections of the first part followed by those
/// of the second; the tables and data bytes of both added up; and the memory
/// of the second part where it has one, else that of the first.
pub proof fn lemma_summaries_add_up(
    whole: WasmAnalysis,
    first: WasmAnalysis,
    second: WasmAnalysis,
    a: Seq<WasmItem>,
    b: Seq<WasmItem>,
    n: usize,
    n1: usize,
    n2: usize,
)
    requires
        summarizes(whole, a + b, n),
        summarizes(first, a, n1),
        summarizes(second, b, n2),
    ensures
        texts(whole.imports@) == texts(first.imports@) + texts(second.imports@),
        texts(whole.exports@) == texts(first.exports@) + texts(second.exports@),
        named_sizes(whole.custom_sections@) == named_sizes(first.custom_sections@) + named_sizes(second.custom_sections@),
        whole.table_count == first.table_count + second.table_count,
        whole.data_segment_size == first.data_segment_size + second.data_segment_size,
        whole.memory_pages == (if second.memory_pages is Some { second.memory_pages } else { first.memory_pages }),
{
    lemma_items_concat(a, b);
}

/// The analysis of a binary of one custom section keeps exactly that
/// section, by its name and size; that of one table counts one table; that
/// of one data segment counts its bytes.
pub proof fn lemma_summary_of_one_item(an: WasmAnalysis, x: WasmItem, n: usize)
    requires
        summarizes(an, seq![x], n),
    ensures
        x matches WasmItem::CustomSection { name, size } ==> named_sizes(an.custom_sections@) == seq![(name@, size)],
        !(x is CustomSection) ==> an.custom_sections@.len() == 0,
        an.table_count == (if x is Table { 1u32 } else { 0u32 }),
        an.data_segment_size == (match x {
            WasmItem::DataSegment { size } => size,
            _ => 0usize,
        }),
{
    lemma_item_contribution(x);
    assert(named_sizes(an.custom_sections@).len() == an.custom_sections@.len());
}

/// Some count kept while summarizing `items` does not fit its type: the
/// function count (imported and defined) of a module or the table count in
/// 32 bits, or the data total in a `usize`.
pub open spec fn counts_overflow(items: Seq<WasmItem>) -> bool {
    ||| any_module_overflows(items)
    ||| table_count(items) > u32::MAX
    ||| data_size(items) > usize::MAX
}

/// `a` is the analysis of a binary of `file_size` bytes whose sections hold
/// `items`.
pub open spec fn summarizes(a: WasmAnalysis, items: Seq<WasmItem>, file_size: usize) -> bool {
    &&& a.file_size == file_size
    &&& a.binary_size_bytes == file_size
    &&& a.schema_version@ == "1.0.0"@
    &&& a.functions@ == listed_functions(items)
    &&& texts(a.imports@) == imported_names(items)
    &&& texts(a.exports@) == exported_names(items)
    &&& a.memory_pages == memory_pages(items)
    &&& a.table_count == table_count(items)
    &&& named_sizes(a.custom_sections@) == custom_sections(items)
    &&& a.data_segment_size == data_size(items)
}

/// The functions of a module are numbered in its function index space,
/// after the imported functions, in the order the code section holds them,
/// and each carries the name the module's `name` section gives its index.
pub proof fn lemma_functions_numbered_in_order(items: Seq<WasmItem>)
    requires
        !module_overflows(items),
    ensures
        forall|k: int| 0 <= k < module_functions(items).len() ==> {
            &&& (#[trigger] module_functions(items)[k]).index == function_import_count(items) + k
            &&& module_functions(items)[k].name == name_for(items, function_import_count(items) + k)
        },
{
}

/// Where `s` follows the last module boundary of `items`, that boundary
/// stands at `s - 1`.
proof fn lemma_last_boundary_at(items: Seq<WasmItem>, s: int)
    requires
        0 <= s <= items.len(),
        s == 0 || items[s - 1] is ModuleBoundary,
        forall|j: int| s <= j < items.len() ==> !(#[trigger] items[j] is ModuleBoundary),
    ensures
        last_boundary(items) == s - 1,
    decreases items.len(),
{
    if items.len() > s {
        lemma_last_boundary_at(items.drop_last(), s);
    }
}

/// A module boundary parts the functions of `items`: those of the modules
/// before it, then those of the module after it, numbered and named within
/// that module alone; and a module after it overflows its indices on its own.
pub proof fn lemma_listed_split(items: Seq<WasmItem>, s: int)
    requires
        0 <= s <= items.len(),
        s == 0 || items[s - 1] is ModuleBoundary,
        forall|j: int| s <= j < items.len() ==> !(#[trigger] items[j] is ModuleBoundary),
    ensures
        listed_functions(items) == listed_functions(items.take(s)) + module_functions(items.skip(s)),
        any_module_overflows(items) == (any_module_overflows(items.take(s)) || module_overflows(items.skip(s))),
{
    let none = Seq::<WasmItem>::empty();
    assert(module_functions(none) =~= Seq::<FunctionInfo>::empty());
    lemma_last_boundary_at(items, s);
    if s == 0 {
        assert(items.take(0) =~= none);
        assert(items.skip(0) =~= items);
    } else {
        let head = items.take(s);
        lemma_last_boundary_at(head, s);
        assert(head.take(s - 1) =~= items.take(s - 1));
        assert(head.skip(s) =~= none);
    }
}

/// The counts of a prefix of `items` are no larger than those of `items`.
proof fn lemma_counts_grow(items: Seq<WasmItem>, i: int)
    requires
        0 <= i <= items.len(),
    ensures
        function_bodies(items.take(i)).len() <= function_bodies(items).len(),
        function_import_count(items.take(i)) <= function_import_count(items),
        table_count(items.take(i)) <= table_count(items),
        data_size(items.take(i)) <= data_size(items),
    decreases items.len(),
{
    if i < items.len() {
        assert(items.take(i) =~= items.drop_last().take(i));
        lemma_counts_grow(items.drop_last(), i);
    } else {
        assert(items.take(i) =~= items);
    }
}

/// Closing a module adds no function and no overflow.
proof fn lemma_boundary_closes(items: Seq<WasmItem>)
    requires
        items.len() > 0,
        items.last() is ModuleBoundary,
    ensures
        listed_functions(items) == listed_functions(items.drop_last()),
        any_module_overflows(items) == any_module_overflows(items.drop_last()),
{
    let none = Seq::<WasmItem>::empty();
    assert(module_functions(none) =~= Seq::<FunctionInfo>::empty());
    assert(items.take(items.len() - 1) =~= items.drop_last());
    assert(items.skip(items.len() as int) =~= none);
}

/// The functions of the module whose items are `items[start..end]`, in
/// code-section order, numbered after its imported functions and named by
/// its `name` section; `None` where they are more than 32-bit indices can
/// number.
pub fn number_functions(items: &Vec<WasmItem>, start: usize, end: usize) -> (res: Option<Vec<FunctionInfo>>)
    requires
        start <= end <= items@.len(),
    ensures
        res is Some <==> !module_overflows(items@.subrange(start as int, end as int)),
        res matches Some(v) ==> v@ == module_functions(items@.subrange(start as int, end as int)),
{
    let ghost seg = items@.subrange(start as int, end as int);
    // the number of imported functions, where the defined ones start
    let mut first: u32 = 0;
    let mut i: usize = start;
    while i < end
        invariant
            seg == items@.subrange(start as int, end as int),
            start <= i <= end <= items@.len(),
            first == function_import_count(seg.take(i - start)),
        decreases end - i,
    {
        proof {
            assert(seg.take(i - start + 1).drop_last() =~= seg.take(i - start));
            assert(seg.take(i - start + 1).last() == items@[i as int]);
            lemma_counts_grow(seg, i - start + 1);
        }
        if let WasmItem::Import { is_function: true, .. } = &items[i] {
            if first == u32::MAX {
                return None;
            }
            first = first + 1;
        }
        i = i + 1;
    }
    proof {
        assert(seg.take(end - start) =~= seg);
    }
    let ghost k = first as nat;
    let mut functions: Vec<FunctionInfo> = Vec::new();
    let mut next_index: u32 = first;
    let mut i: usize = start;
    while i < end
        invariant
            seg == items@.subrange(start as int, end as int),
            start <= i <= end <= items@.len(),
            k == function_import_count(seg),
            functions@ == unnamed_functions(seg.take(i - start), k),
            next_index == k + functions@.len(),
        decreases end - i,
    {
        let ghost next = seg.take(i - start + 1);
        proof {
            assert(next.drop_last() =~= seg.take(i - start));
            assert(next.last() == items@[i as int]);
            lemma_counts_grow(seg, i - start + 1);
        }
        if let WasmItem::Function { body_size, local_count, instruction_count } = &items[i] {
            if next_index == u32::MAX {
                return None;
            }
            functions.push(
                FunctionInfo {
                    index: next_index,
                    name: None,
                    body_size: *body_size,
                    local_count: *local_count,
                    instruction_count: *instruction_count,
                },
            );
            next_index = next_index + 1;
        }
        proof {
            assert(functions@ =~= unnamed_functions(next, k));
        }
        i = i + 1;
    }
    proof {
        assert(seg.take(end - start) =~= seg);
    }
    // give each function the name the name section gives its index
    let ghost bodies = function_bodies(seg);
    let mut t: usize = start;
    while t < end
        invariant
            seg == items@.subrange(start as int, end as int),
            start <= t <= end <= items@.len(),
            k == function_import_count(seg),
            first == k,
            bodies == function_bodies(seg),
            k + bodies.len() <= u32::MAX,
            functions@.len() == bodies.len(),
            forall|p: int| 0 <= p < bodies.len() ==> #[trigger] functions@[p] == function_at(
                bodies,
                k,
                p,
                name_for(seg.take(t - start), k + p),
            ),
        decreases end - t,
    {
        let ghost prev = seg.take(t - start);
        let ghost cur = seg.take(t - start + 1);
        let ghost before = functions@;
        proof {
            assert(cur.drop_last() =~= prev);
            assert(cur.last() == items@[t as int]);
        }
        match &items[t] {
            WasmItem::FunctionName { index, name } => {
                if *index >= first && *index - first < functions.len() as u32 {
                    let pos = (*index - first) as usize;
                    let named = FunctionInfo {
                        index: functions[pos].index,
                        name: Some(name.clone()),
                        body_size: functions[pos].body_size,
                        local_count: functions[pos].local_count,
                        instruction_count: functions[pos].instruction_count,
                    };
                    functions.set(pos, named);
                    proof {
                        assert forall|p: int| 0 <= p < bodies.len() implies #[trigger] functions@[p]
                            == function_at(bodies, k, p, name_for(cur, k + p)) by {
                            assert(before[p] == function_at(bodies, k, p, name_for(prev, k + p)));
                        }
                    }
                } else {
                    proof {
                        assert forall|p: int| 0 <= p < bodies.len() implies #[trigger] functions@[p]
                            == function_at(bodies, k, p, name_for(cur, k + p)) by {
                            assert(before[p] == function_at(bodies, k, p, name_for(prev, k + p)));
                            assert(k + p != *index as int);
                        }
                    }
                }
            },
            _ => {
                proof {
                    assert forall|p: int| 0 <= p < bodies.len() implies #[trigger] functions@[p]
                        == function_at(bodies, k, p, name_for(cur, k + p)) by {
                        assert(before[p] == function_at(bodies, k, p, name_for(prev, k + p)));
                    }
                }
            },
        }
        t = t + 1;
    }
    proof {
        assert(seg.take(end - start) =~= seg);
        assert(functions@ =~= module_functions(seg));
    }
    Some(functions)
}

/// Builds the analysis of a binary of `file_size` bytes from the items its
/// sections hold, in order.
pub fn summarize(items: &Vec<WasmItem>, file_size: usize) -> (res: Result<WasmAnalysis, AnalyzeError>)
    ensures
        res is Ok <==> !counts_overflow(items@),
        res matches Ok(a) ==> summarizes(a, items@, file_size),
        res matches Err(e) ==> e is CountOverflow,
{
    let ghost all = items@;
    let mut functions: Vec<FunctionInfo> = Vec::new();
    let mut overflow = false;
    let mut module_start: usize = 0;
    let mut imports: Vec<String> = Vec::new();
    let mut exports: Vec<String> = Vec::new();
    let mut memory: Option<u32> = None;
    let mut tables: u32 = 0;
    let mut customs: Vec<(String, usize)> = Vec::new();
    let mut data_total: usize = 0;
    let mut i: usize = 0;
    while i < items.len()
        invariant
            all == items@,
            module_start <= i <= all.len(),
            module_start == 0 || all[module_start - 1] is ModuleBoundary,
            forall|j: int| module_start <= j < i ==> !(#[trigger] all[j] is ModuleBoundary),
            overflow == any_module_overflows(all.take(module_start as int)),
            !overflow ==> functions@ == listed_functions(all.take(module_start as int)),
            texts(imports@) == imported_names(all.take(i as int)),
            texts(exports@) == exported_names(all.take(i as int)),
            memory == memory_pages(all.take(i as int)),
            tables == table_count(all.take(i as int)),
            named_sizes(customs@) == custom_sections(all.take(i as int)),
            data_total == data_size(all.take(i as int)),
        decreases all.len() - i,
    {
        let ghost prefix = all.take(i as int);
        let ghost next = all.take(i + 1);
        proof {
            assert(next.drop_last() =~= prefix);
            lemma_counts_grow(all, i + 1);
        }
        match &items[i] {
            WasmItem::Import { module, name, .. } => {
                let mut full = module.clone();
                full.append(".");
                full.append(name.as_str());
                imports.push(full);
            },
            WasmItem::Export { name } => {
                exports.push(name.clone());
            },
            WasmItem::Memory { initial_pages } => {
                memory = Some(*initial_pages as u32);
            },
            WasmItem::Table => {
                if tables == u32::MAX {
                    return Err(AnalyzeError::CountOverflow);
                }
                tables = tables + 1;
            },
            WasmItem::CustomSection { name, size } => {
                customs.push((name.clone(), *size));
            },
            WasmItem::DataSegment { size } => {
                if *size > usize::MAX - data_total {
                    return Err(AnalyzeError::CountOverflow);
                }
                data_total = data_total + *size;
            },
            WasmItem::ModuleBoundary => {
                let ghost before = functions@;
                match number_functions(items, module_start, i) {
                    Some(mut found) => {
                        functions.append(&mut found);
                    },
                    None => {
                        overflow = true;
                    },
                }
                proof {
                    assert forall|j: int| module_start <= j < prefix.len() implies !(#[trigger] prefix[j] is ModuleBoundary) by {
                        assert(prefix[j] == all[j]);
                    }
                    lemma_listed_split(prefix, module_start as int);
                    assert(prefix.take(module_start as int) =~= all.take(module_start as int));
                    assert(prefix.skip(module_start as int) =~= all.subrange(module_start as int, i as int));
                    lemma_boundary_closes(next);
                }
                module_start = i + 1;
            },
            WasmItem::Function { .. } => {},
            WasmItem::FunctionName { .. } => {},
        }
        proof {
            assert(texts(imports@) =~= imported_names(next));
            assert(texts(exports@) =~= exported_names(next));
            assert(named_sizes(customs@) =~= custom_sections(next));
        }
        i = i + 1;
    }
    match number_functions(items, module_start, items.len()) {
        Some(mut found) => {
            functions.append(&mut found);
        },
        None => {
            overflow = true;
        },
    }
    proof {
        assert(all.take(i as int) =~= all);
        lemma_listed_split(all, module_start as int);
        assert(all.skip(module_start as int) =~= all.subrange(module_start as int, all.len() as int));
    }
    if overflow {
        return Err(AnalyzeError::CountOverflow);
    }
    Ok(
        WasmAnalysis {
            file_size,
            functions,
            imports,
            exports,
            memory_pages: memory,
            table_count: tables,
            custom_sections: customs,
            data_segment_size: data_total,
            schema_version: String::from_str("1.0.0"),
            binary_size_bytes: file_size,
        },
    )
}

/// The error of the library for an error of the parser: its message and
/// offset.
pub open spec fn parse_failure(e: ParseError) -> AnalyzeError {
    AnalyzeError::Malformed { message: e.message, offset: e.offset }
}

/// The error of the library for an error of the parser.
pub fn malformed(e: ParseError) -> (res: AnalyzeError)
    ensures
        res == parse_failure(e),
{
    AnalyzeError::Malformed { message: e.message, offset: e.offset }
}

/// The values of a list of parser outcomes where none is an error.
pub open spec fn all_values<T>(s: Seq<Option<T>>) -> Option<Seq<T>> {
    if forall|j: int| 0 <= j < s.len() ==> (#[trigger] s[j]) is Some {
        Some(s.map_values(|o: Option<T>| o->Some_0))
    } else {
        None
    }
}

/// The values of a list of parser outcomes up to its first error.
pub open spec fn leading_values<T>(s: Seq<Option<T>>) -> Seq<T>
    decreases s.len(),
{
    if s.len() == 0 {
        seq![]
    } else {
        let prev = leading_values(s.drop_last());
        if prev.len() == s.len() - 1 && s.last() is Some {
            prev.push(s.last()->Some_0)
        } else {
            prev
        }
    }
}

/// The sum of a list of 32-bit counts.
pub open spec fn count_total(counts: Seq<u32>) -> nat
    decreases counts.len(),
{
    if counts.len() == 0 {
        0
    } else {
        count_total(counts.drop_last()) + counts.last() as nat
    }
}

/// The first error of a list of parser results that holds one.
pub open spec fn first_error<T>(s: Seq<Result<T, ParseError>>) -> ParseError {
    s[choose|j: int| first_error_at(s, j)]->Err_0
}

/// The values of a list of parser results, or the library's error for its
/// first error.
pub open spec fn read_all<T>(s: Seq<Result<T, ParseError>>) -> Result<Seq<T>, AnalyzeError> {
    match all_values(outcomes(s)) {
        Some(v) => Ok(v),
        None => Err(parse_failure(first_error(s))),
    }
}

/// The function item of the code section entry whose body the parser placed
/// at `r`: the size of the body, the total of its local declarations and the
/// number of its operators. Else the error met first: the parser's, on the
/// locals; an overflow, where the locals do not total in 32 bits; the
/// parser's, on the operators.
pub open spec fn code_item(data: Seq<u8>, r: Region) -> Result<WasmItem, AnalyzeError> {
    match wasm_locals(data, r.start, r.end) {
        Err(e) => Err(parse_failure(e)),
        Ok(locals) => match read_all(locals) {
            Err(e) => Err(e),
            Ok(counts) => if count_total(counts) > u32::MAX {
                Err(AnalyzeError::CountOverflow)
            } else {
                match wasm_operators(data, r.start, r.end) {
                    Err(e) => Err(parse_failure(e)),
                    Ok(ops) => match read_all(ops) {
                        Err(e) => Err(e),
                        Ok(instructions) => Ok(
                            WasmItem::Function {
                                body_size: (r.end - r.start) as usize,
                                local_count: count_total(counts) as u32,
                                instruction_count: instructions.len() as usize,
                            },
                        ),
                    },
                }
            },
        },
    }
}

/// The entries of the function-name subsections of a `name` section, in
/// order, with an error (`None`) for each subsection that cannot be read.
pub open spec fn function_name_entries(subs: Seq<Option<Option<Seq<Option<(u32, String)>>>>>) -> Seq<Option<(u32, String)>>
    decreases subs.len(),
{
    if subs.len() == 0 {
        seq![]
    } else {
        let prev = function_name_entries(subs.drop_last());
        match subs.last() {
            None => prev.push(None),
            Some(None) => prev,
            Some(Some(entries)) => prev + entries,
        }
    }
}

/// The entries of the function-name subsections of a `name` section as the
/// parser yields them, in order, with the error of each subsection that
/// cannot be read in its place.
pub fn function_name_list(subs: Vec<Result<Option<Vec<Result<(u32, String), ParseError>>>, ParseError>>) -> (res: Vec<Result<(u32, String), ParseError>>)
    ensures
        outcomes(res@) == function_name_entries(name_outcomes(name_views(subs@))),
{
    let ghost all = subs@;
    let mut list: Vec<Result<(u32, String), ParseError>> = Vec::new();
    for sub in it: subs
        invariant
            it.seq() == all,
            outcomes(list@) == function_name_entries(name_outcomes(name_views(all.take(it.index() as int)))),
    {
        let ghost k = it.index() as int;
        let ghost before = list@;
        proof {
            assert(name_outcomes(name_views(all.take(k + 1))).drop_last() =~= name_outcomes(name_views(all.take(k))));
        }
        match sub {
            Ok(Some(mut entries)) => {
                let ghost added = entries@;
                list.append(&mut entries);
                assert(outcomes(list@) =~= outcomes(before) + outcomes(added));
            },
            Ok(None) => {},
            Err(e) => {
                list.push(Err(e));
                assert(outcomes(list@) =~= outcomes(before).push(None));
            },
        }
    }
    proof {
        assert(all.take(all.len() as int) =~= all);
    }
    list
}

/// An import of this type brings in a function.
pub open spec fn imports_function(t: ImportType) -> bool {
    t is Func || t is FuncExact
}

/// The item of an import: module, item name, and whether it is a function.
pub open spec fn import_item(e: (String, String, ImportType)) -> WasmItem {
    WasmItem::Import { module: e.0, name: e.1, is_function: imports_function(e.2) }
}

/// Whether an import of this type brings in a function.
pub fn is_function_import(t: ImportType) -> (res: bool)
    ensures
        res == imports_function(t),
{
    match t {
        ImportType::Func | ImportType::FuncExact => true,
        _ => false,
    }
}

/// The items of one payload that the parser placed at `r`, in order, or
/// the error met first in reading them.
pub open spec fn region_items(data: Seq<u8>, r: Region) -> Result<Seq<WasmItem>, AnalyzeError> {
    match r.kind {
        RegionKind::Imports => match read_all(wasm_imports(data, r.start, r.end)) {
            Ok(v) => Ok(v.map_values(|e: (String, String, ImportType)| import_item(e))),
            Err(e) => Err(e),
        },
        RegionKind::Exports => match read_all(wasm_exports(data, r.start, r.end)) {
            Ok(v) => Ok(v.map_values(|name: String| WasmItem::Export { name })),
            Err(e) => Err(e),
        },
        RegionKind::Memories => match read_all(wasm_memories(data, r.start, r.end)) {
            Ok(v) => Ok(v.map_values(|initial_pages: u64| WasmItem::Memory { initial_pages })),
            Err(e) => Err(e),
        },
        RegionKind::Tables => Ok(
            wasm_tables(data, r.start, r.end).map_values(|t: Result<(), ParseError>| WasmItem::Table),
        ),
        RegionKind::Data => match read_all(wasm_data_lengths(data, r.start, r.end)) {
            Ok(v) => Ok(v.map_values(|size: usize| WasmItem::DataSegment { size })),
            Err(e) => Err(e),
        },
        RegionKind::Code => match code_item(data, r) {
            Ok(item) => Ok(seq![item]),
            Err(e) => Err(e),
        },
        RegionKind::Custom => match wasm_custom(data, r.start, r.end) {
            Err(e) => Err(parse_failure(e)),
            Ok((name, size)) => match wasm_name_subsections(data, r.start, r.end) {
                Err(e) => Err(parse_failure(e)),
                Ok(known) => Ok(
                    seq![WasmItem::CustomSection { name, size }] + leading_values(
                        match known {
                            Some(subs) => function_name_entries(name_outcomes(subs)),
                            None => seq![],
                        },
                    ).map_values(|n: (u32, String)| WasmItem::FunctionName { index: n.0, name: n.1 }),
                ),
            },
        },
        RegionKind::Boundary => Ok(seq![WasmItem::ModuleBoundary]),
        RegionKind::Other => Ok(seq![]),
    }
}

/// The items of the payloads `regions` of `data`, in order, or the error met
/// first: the parser's, where its stream fails, or that of reading a payload.
pub open spec fn regions_items(data: Seq<u8>, regions: Seq<Result<Region, ParseError>>) -> Result<Seq<WasmItem>, AnalyzeError>
    decreases regions.len(),
{
    if regions.len() == 0 {
        Ok(seq![])
    } else {
        match regions_items(data, regions.drop_last()) {
            Ok(prev) => match regions.last() {
                Ok(r) => match region_items(data, r) {
                    Ok(v) => Ok(prev + v),
                    Err(e) => Err(e),
                },
                Err(e) => Err(parse_failure(e)),
            },
            Err(e) => Err(e),
        }
    }
}

/// The items of the binary `data`, as the parser reads them, in order, or
/// the error met first in reading them.
pub open spec fn module_items(data: Seq<u8>) -> Result<Seq<WasmItem>, AnalyzeError> {
    regions_items(data, wasm_regions(data))
}

/// Once the items of a prefix of the payloads cannot be read, those of any
/// longer prefix fail with the same error.
proof fn lemma_regions_items_fail(data: Seq<u8>, regions: Seq<Result<Region, ParseError>>, i: int, j: int)
    requires
        0 <= i <= j <= regions.len(),
        regions_items(data, regions.take(i)) is Err,
    ensures
        regions_items(data, regions.take(j)) == regions_items(data, regions.take(i)),
    decreases j - i,
{
    if j > i {
        lemma_regions_items_fail(data, regions, i, j - 1);
        assert(regions.take(j).drop_last() =~= regions.take(j - 1));
    }
}

/// The first error of a list is the one at the position of its first error.
proof fn lemma_first_error<T>(s: Seq<Result<T, ParseError>>, j: int)
    requires
        first_error_at(s, j),
    ensures
        first_error(s) == s[j]->Err_0,
{
    let c = choose|c: int| first_error_at(s, c);
    assert(first_error_at(s, c));
    if c < j {
        assert(s[c] is Ok);
    } else if j < c {
        assert(s[j] is Ok);
    }
}

/// Once a prefix of outcomes ends in an error, longer prefixes give no
/// further values.
proof fn lemma_leading_values_full<T>(s: Seq<Option<T>>, i: int, j: int)
    requires
        0 <= i < j <= s.len(),
        leading_values(s.take(i)).len() == i,
        s[i] is None,
    ensures
        leading_values(s.take(j)) == leading_values(s.take(i)),
    decreases j - i,
{
    if j > i + 1 {
        lemma_leading_values_full(s, i, j - 1);
        assert(s.take(j).drop_last() =~= s.take(j - 1));
        lemma_leading_values_len(s.take(j - 1));
    } else {
        assert(s.take(j).drop_last() =~= s.take(i));
    }
}

/// The leading values of a list are no more than its entries.
proof fn lemma_leading_values_len<T>(s: Seq<Option<T>>)
    ensures
        leading_values(s).len() <= s.len(),
    decreases s.len(),
{
    if s.len() > 0 {
        lemma_leading_values_len(s.drop_last());
    }
}

/// The first error of the list `s` stands at `j`.
pub open spec fn first_error_at<T>(s: Seq<Result<T, ParseError>>, j: int) -> bool {
    &&& 0 <= j < s.len()
    &&& s[j] is Err
    &&& forall|i: int| 0 <= i < j ==> (#[trigger] s[i]) is Ok
}

/// The values of a list the parser produced, or the library's error for
/// the first error in it.
pub fn oks_or_malformed<T>(entries: Vec<Result<T, ParseError>>) -> (res: Result<Vec<T>, AnalyzeError>)
    ensures
        res is Ok <==> all_values(outcomes(entries@)) is Some,
        res matches Ok(v) ==> v@ == all_values(outcomes(entries@))->Some_0,
        res matches Err(e) ==> e == parse_failure(first_error(entries@)),
{
    let ghost all = entries@;
    let mut values: Vec<T> = Vec::new();
    for entry in it: entries
        invariant
            it.seq() == all,
            it.index() <= all.len(),
            forall|j: int| 0 <= j < it.index() ==> (#[trigger] all[j]) is Ok,
            values@ == outcomes(all.take(it.index() as int)).map_values(|o: Option<T>| o->Some_0),
    {
        let ghost k = it.index() as int;
        match entry {
            Ok(v) => {
                values.push(v);
                proof {
                    assert(outcomes(all.take(k + 1)).map_values(|o: Option<T>| o->Some_0)
                        =~= outcomes(all.take(k)).map_values(|o: Option<T>| o->Some_0).push(v));
                }
            },
            Err(e) => {
                assert(outcomes(all)[k] is None);
                assert(first_error_at(all, k));
                proof {
                    lemma_first_error(all, k);
                }
                return Err(malformed(e));
            },
        }
    }
    proof {
        assert(all.take(all.len() as int) =~= all);
        assert forall|j: int| 0 <= j < outcomes(all).len() implies (#[trigger] outcomes(all)[j]) is Some by {
            assert(all[j] is Ok);
        }
    }
    Ok(values)
}

/// The values of a list the parser produced up to its first error.
pub fn leading_oks<T>(entries: Vec<Result<T, ParseError>>) -> (res: Vec<T>)
    ensures
        res@ == leading_values(outcomes(entries@)),
{
    let ghost all = outcomes(entries@);
    let mut values: Vec<T> = Vec::new();
    for entry in it: entries
        invariant
            all == outcomes(it.seq()),
            it.index() <= all.len(),
            values@.len() == it.index(),
            values@ == leading_values(all.take(it.index() as int)),
    {
        let ghost k = it.index() as int;
        proof {
            assert(all.take(k + 1).drop_last() =~= all.take(k));
        }
        match entry {
            Ok(v) => {
                values.push(v);
            },
            Err(_) => {
                proof {
                    lemma_leading_values_full(all, k, all.len() as int);
                    assert(all.take(all.len() as int) =~= all);
                }
                return values;
            },
        }
    }
    proof {
        assert(all.take(all.len() as int) =~= all);
    }
    values
}

/// The number of locals a function declares, from the counts of its local
/// declarations as the parser read them.
pub fn count_locals(entries: Vec<Result<u32, ParseError>>) -> (res: Result<u32, AnalyzeError>)
    ensures
        all_values(outcomes(entries@)) is None ==> res is Err && res->Err_0 == parse_failure(first_error(entries@)),
        all_values(outcomes(entries@)) matches Some(counts) ==> {
            &&& count_total(counts) <= u32::MAX ==> res == Ok::<u32, AnalyzeError>(count_total(counts) as u32)
            &&& count_total(counts) > u32::MAX ==> (res matches Err(e) && e is CountOverflow)
        },
{
    let ghost all = entries@;
    let counts = oks_or_malformed(entries)?;
    let ghost vals = counts@;
    let mut total: u32 = 0;
    let mut i: usize = 0;
    while i < counts.len()
        invariant
            all == entries@,
            all_values(outcomes(all)) == Some(vals),
            counts@ == vals,
            i <= counts@.len(),
            total == count_total(counts@.take(i as int)),
        decreases counts@.len() - i,
    {
        proof {
            assert(counts@.take(i + 1).drop_last() =~= counts@.take(i as int));
            lemma_count_total_prefix(counts@, i + 1);
            assert(count_total(counts@.take(i + 1)) == total + counts@[i as int]);
        }
        if counts[i] > u32::MAX - total {
            return Err(AnalyzeError::CountOverflow);
        }
        total = total + counts[i];
        i = i + 1;
    }
    assert(counts@.take(i as int) =~= counts@);
    Ok(total)
}

/// A prefix of a list of counts sums to no more than the whole list.
proof fn lemma_count_total_prefix(counts: Seq<u32>, i: int)
    requires
        0 <= i <= counts.len(),
    ensures
        count_total(counts.take(i)) <= count_total(counts),
    decreases counts.len(),
{
    if i < counts.len() {
        assert(counts.take(i) =~= counts.drop_last().take(i));
        lemma_count_total_prefix(counts.drop_last(), i);
    } else {
        assert(counts.take(i) =~= counts);
    }
}

/// The number of instructions of a function, from the operators the parser
/// read.
pub fn count_instructions(entries: Vec<Result<(), ParseError>>) -> (res: Result<usize, AnalyzeError>)
    ensures
        all_values(outcomes(entries@)) is None ==> res is Err && res->Err_0 == parse_failure(first_error(entries@)),
        all_values(outcomes(entries@)) matches Some(ops) ==> res == Ok::<usize, AnalyzeError>(ops.len() as usize),
{
    let ops = oks_or_malformed(entries)?;
    Ok(ops.len())
}

/// The function item of the code section entry whose body the parser placed
/// at `region` of `data`: the size of its body, the number of locals it
/// declares and the number of instructions it holds.
pub fn function_item(data: &[u8], region: Region) -> (res: Result<WasmItem, AnalyzeError>)
    requires
        region.kind == RegionKind::Code,
        region.start <= region.end <= data@.len(),
    ensures
        res == code_item(data@, region),
{
    let body_size = (region.end - region.start) as usize;
    let locals = match local_counts(data, region.start, region.end) {
        Ok(v) => v,
        Err(e) => return Err(malformed(e)),
    };
    let local_count = count_locals(locals)?;
    let ops = match operator_entries(data, region.start, region.end) {
        Ok(v) => v,
        Err(e) => return Err(malformed(e)),
    };
    let instruction_count = count_instructions(ops)?;
    Ok(WasmItem::Function { body_size, local_count, instruction_count })
}

/// Appends to `items` the items of the payload the parser placed at `region`
/// of `data`, in the order it holds them: one per import, export, memory or
/// data segment with its values; one per entry the table reader yields, an
/// unreadable one included; the measured function of a code section entry; a
/// custom section with its size, followed by the function names it gives if
/// it is the `name` section; a boundary at the header or the end of a module
/// or component. On an error nothing is appended.
pub fn collect_items(data: &[u8], region: Region, items: &mut Vec<WasmItem>) -> (res: Result<(), AnalyzeError>)
    requires
        region.start <= region.end <= data@.len(),
    ensures
        res is Ok <==> region_items(data@, region) is Ok,
        res is Ok ==> final(items)@ == old(items)@ + region_items(data@, region)->Ok_0,
        res is Err ==> final(items)@ == old(items)@,
        res matches Err(e) ==> region_items(data@, region) == Err::<Seq<WasmItem>, AnalyzeError>(e),
        res matches Err(e) ==> (e is Malformed || e is CountOverflow),
{
    let ghost start = items@;
    let ghost expected = region_items(data@, region);
    let mut found: Vec<WasmItem> = Vec::new();
    match region.kind {
        RegionKind::Imports => {
            let entries = oks_or_malformed(import_entries(data, region.start, region.end))?;
            let ghost vals = entries@;
            for entry in it: entries
                invariant
                    it.seq() == vals,
                    found@ == vals.take(it.index() as int).map_values(
                        |e: (String, String, ImportType)| import_item(e),
                    ),
            {
                let ghost k = it.index() as int;
                let (module, name, ty) = entry;
                found.push(WasmItem::Import { module, name, is_function: is_function_import(ty) });
                assert(found@ =~= vals.take(k + 1).map_values(
                    |e: (String, String, ImportType)| import_item(e),
                ));
            }
            assert(vals.take(vals.len() as int) =~= vals);
        },
        RegionKind::Exports => {
            let entries = oks_or_malformed(export_names(data, region.start, region.end))?;
            let ghost vals = entries@;
            for name in it: entries
                invariant
                    it.seq() == vals,
                    found@ == vals.take(it.index() as int).map_values(|name: String| WasmItem::Export { name }),
            {
                let ghost k = it.index() as int;
                found.push(WasmItem::Export { name });
                assert(found@ =~= vals.take(k + 1).map_values(|name: String| WasmItem::Export { name }));
            }
            assert(vals.take(vals.len() as int) =~= vals);
        },
        RegionKind::Memories => {
            let entries = oks_or_malformed(memory_initials(data, region.start, region.end))?;
            let ghost vals = entries@;
            for initial_pages in it: entries
                invariant
                    it.seq() == vals,
                    found@ == vals.take(it.index() as int).map_values(
                        |initial_pages: u64| WasmItem::Memory { initial_pages },
                    ),
            {
                let ghost k = it.index() as int;
                found.push(WasmItem::Memory { initial_pages });
                assert(found@ =~= vals.take(k + 1).map_values(
                    |initial_pages: u64| WasmItem::Memory { initial_pages },
                ));
            }
            assert(vals.take(vals.len() as int) =~= vals);
        },
        RegionKind::Tables => {
            let entries = table_entries(data, region.start, region.end);
            let ghost vals = outcomes(entries@);
            for _table in it: entries
                invariant
                    vals == outcomes(it.seq()),
                    found@ == vals.take(it.index() as int).map_values(|t: Option<()>| WasmItem::Table),
            {
                let ghost k = it.index() as int;
                found.push(WasmItem::Table);
                assert(found@ =~= vals.take(k + 1).map_values(|t: Option<()>| WasmItem::Table));
            }
            assert(vals.take(vals.len() as int) =~= vals);
        },
        RegionKind::Data => {
            let entries = oks_or_malformed(data_lengths(data, region.start, region.end))?;
            let ghost vals = entries@;
            for size in it: entries
                invariant
                    it.seq() == vals,
                    found@ == vals.take(it.index() as int).map_values(|size: usize| WasmItem::DataSegment { size }),
            {
                let ghost k = it.index() as int;
                found.push(WasmItem::DataSegment { size });
                assert(found@ =~= vals.take(k + 1).map_values(|size: usize| WasmItem::DataSegment { size }));
            }
            assert(vals.take(vals.len() as int) =~= vals);
        },
        RegionKind::Code => {
            let item = function_item(data, region)?;
            found.push(item);
        },
        RegionKind::Custom => {
            let (name, size) = match custom_section(data, region.start, region.end) {
                Ok(v) => v,
                Err(e) => return Err(malformed(e)),
            };
            let entries = match name_subsections(data, region.start, region.end) {
                Ok(Some(subs)) => function_name_list(subs),
                Ok(None) => Vec::new(),
                Err(e) => return Err(malformed(e)),
            };
            found.push(WasmItem::CustomSection { name, size });
            let names = leading_oks(entries);
            let ghost head = found@;
            let ghost vals = names@;
            for entry in it: names
                invariant
                    it.seq() == vals,
                    found@ == head + vals.take(it.index() as int).map_values(
                        |n: (u32, String)| WasmItem::FunctionName { index: n.0, name: n.1 },
                    ),
            {
                let ghost k = it.index() as int;
                let (index, name) = entry;
                found.push(WasmItem::FunctionName { index, name });
                assert(found@ =~= head + vals.take(k + 1).map_values(
                    |n: (u32, String)| WasmItem::FunctionName { index: n.0, name: n.1 },
                ));
            }
            assert(vals.take(vals.len() as int) =~= vals);
        },
        RegionKind::Boundary => {
            found.push(WasmItem::ModuleBoundary);
        },
        RegionKind::Other => {},
    }
    assert(found@ == expected->Ok_0);
    items.append(&mut found);
    Ok(())
}

/// Analyzes a WebAssembly binary: its functions with their sizes, locals,
/// instruction counts, indices and names, its imports, exports, memory,
/// tables, custom sections and data segments. Fails where the parser finds
/// the binary malformed, with the message and offset of the first error it
/// meets, or where a count does not fit its type.
pub fn analyze(data: &[u8]) -> (res: Result<WasmAnalysis, AnalyzeError>)
    ensures
        module_items(data@) matches Err(e) ==> res == Err::<WasmAnalysis, AnalyzeError>(e),
        module_items(data@) matches Ok(items) ==> {
            &&& counts_overflow(items) ==> (res matches Err(e) && e is CountOverflow)
            &&& !counts_overflow(items) ==> (res matches Ok(a) && summarizes(a, items, data@.len() as usize))
        },
        res matches Err(e) ==> (e is Malformed || e is CountOverflow),
        !has_wasm_header(data@) ==> (res matches Err(e) && e is Malformed),
{
    let mut items: Vec<WasmItem> = Vec::new();
    let regions = module_regions(data);
    let ghost stream = regions@;
    for entry in it: regions
        invariant
            stream == wasm_regions(data@),
            it.seq() == stream,
            forall|i: int| 0 <= i < stream.len() ==> (#[trigger] stream[i] matches Ok(r) ==> r.start <= r.end <= data@.len()),
            regions_items(data@, stream.take(it.index() as int)) == Ok::<Seq<WasmItem>, AnalyzeError>(items@),
            !has_wasm_header(data@) ==> it.index() == 0 && stream.len() == 1 && stream[0] is Err,
    {
        let ghost k = it.index() as int;
        proof {
            assert(stream.take(k + 1).drop_last() =~= stream.take(k));
            assert(stream.take(k + 1).last() == stream[k]);
        }
        match entry {
            Ok(region) => {
                match collect_items(data, region, &mut items) {
                    Ok(()) => {},
                    Err(e) => {
                        proof {
                            assert(regions_items(data@, stream.take(k + 1)) == Err::<Seq<WasmItem>, AnalyzeError>(e));
                            lemma_regions_items_fail(data@, stream, k + 1, stream.len() as int);
                            assert(stream.take(stream.len() as int) =~= stream);
                        }
                        return Err(e);
                    },
                }
            },
            Err(e) => {
                let err = malformed(e);
                proof {
                    assert(regions_items(data@, stream.take(k + 1)) == Err::<Seq<WasmItem>, AnalyzeError>(err));
                    lemma_regions_items_fail(data@, stream, k + 1, stream.len() as int);
                    assert(stream.take(stream.len() as int) =~= stream);
                }
                return Err(err);
            },
        }
    }
    proof {
        assert(stream.take(stream.len() as int) =~= stream);
    }
    summarize(&items, data.len())
}

/// The JSON report made from an analysis.
#[derive(Debug)]
pub struct AnalysisReport {
    pub schema_version: String,
    pub binary_size_bytes: usize,
    pub total_code_size: usize,
    pub total_functions: usize,
    pub functions: Vec<FunctionReport>,
    pub sections: Vec<SectionReport>,
}

/// One function in the report.
#[derive(Debug)]
pub struct FunctionReport {
    pub index: u32,
    pub name: String,
    pub body_size: usize,
    pub instruction_count: usize,
    pub estimated_gas: u64,
    pub suggestion: Option<String>,
}

/// One section in the report, with the bytes attributed to it.
#[derive(Debug)]
pub struct SectionReport {
    pub name: String,
    pub size_bytes: usize,
    pub kind: String,
}

/// The name a function is reported under: its own, or `func_N` after its
/// index when it has none.
pub open spec fn display_name(f: FunctionInfo) -> Seq<char> {
    match f.name {
        Some(n) => n@,
        None => "func_"@ + decimal(f.index as nat),
    }
}

/// An unnamed function is reported under `func_` followed by its index
/// written out in full in decimal: the text after the prefix is a
/// well-formed number that reads back as the index.
pub proof fn lemma_unnamed_function_name(r: FunctionReport, f: FunctionInfo)
    requires
        reports_function(r, f),
        f.name is None,
    ensures
        r.name@.len() > 5,
        r.name@.take(5) == "func_"@,
        is_decimal_text(r.name@.skip(5)),
        digits_value(r.name@.skip(5)) == f.index,
{
    reveal_strlit("func_");
    lemma_decimal_reads_back(f.index as nat);
    assert(r.name@.take(5) =~= "func_"@);
    assert(r.name@.skip(5) =~= decimal(f.index as nat));
}

/// Unnamed functions of different indices are reported under different
/// names.
pub proof fn lemma_unnamed_names_distinct(r1: FunctionReport, f1: FunctionInfo, r2: FunctionReport, f2: FunctionInfo)
    requires
        reports_function(r1, f1),
        reports_function(r2, f2),
        f1.name is None,
        f2.name is None,
        f1.index != f2.index,
    ensures
        r1.name@ != r2.name@,
{
    lemma_unnamed_function_name(r1, f1);
    lemma_unnamed_function_name(r2, f2);
}

/// The hint given for a function body of `size` bytes above the threshold.
pub open spec fn large_function_hint(size: usize) -> Seq<char> {
    "large function ("@ + decimal(size as nat) + " bytes), consider splitting"@
}

/// Whether a function is large enough to be worth splitting.
pub open spec fn is_large_function(f: FunctionInfo) -> bool {
    f.body_size > 1024
}

/// `r` is the report of function `f`.
pub open spec fn reports_function(r: FunctionReport, f: FunctionInfo) -> bool {
    &&& r.index == f.index
    &&& r.name@ == display_name(f)
    &&& r.body_size == f.body_size
    &&& r.instruction_count == f.instruction_count
    &&& r.estimated_gas == gas_of(f)
    &&& if is_large_function(f) {
        r.suggestion is Some && r.suggestion->0@ == large_function_hint(f.body_size)
    } else {
        r.suggestion is None
    }
}

/// `r` reports a section named `name` of `size` bytes and kind `kind`.
pub open spec fn reports_section(r: SectionReport, name: Seq<char>, size: nat, kind: Seq<char>) -> bool {
    &&& r.name@ == name
    &&& r.size_bytes == size
    &&& r.kind@ == kind
}

/// The report of one function.
fn report_function(f: &FunctionInfo) -> (r: FunctionReport)
    requires
        gas_fits(*f),
    ensures
        reports_function(r, *f),
{
    let name = match &f.name {
        Some(n) => n.clone(),
        None => {
            let mut s = String::from_str("func_");
            push_decimal(&mut s, f.index as u64);
            s
        },
    };
    let suggestion = if f.body_size > 1024 {
        let mut s = String::from_str("large function (");
        push_decimal(&mut s, f.body_size as u64);
        s.append(" bytes), consider splitting");
        Some(s)
    } else {
        None
    };
    FunctionReport {
        index: f.index,
        name,
        body_size: f.body_size,
        instruction_count: f.instruction_count,
        estimated_gas: estimate_gas(f),
        suggestion,
    }
}

/// The sum of the body sizes of `fs`.
pub open spec fn code_size(fs: Seq<FunctionInfo>) -> nat
    decreases fs.len(),
{
    if fs.len() == 0 {
        0
    } else {
        code_size(fs.drop_last()) + fs.last().body_size as nat
    }
}

/// A prefix of a list of functions holds no more code than the whole list.
proof fn lemma_code_size_prefix(fs: Seq<FunctionInfo>, i: int)
    requires
        0 <= i <= fs.len(),
    ensures
        code_size(fs.take(i)) <= code_size(fs),
    decreases fs.len(),
{
    if i < fs.len() {
        assert(fs.take(i) =~= fs.drop_last().take(i));
        lemma_code_size_prefix(fs.drop_last(), i);
    } else {
        assert(fs.take(i) =~= fs);
    }
}

/// The code of a list of functions is the sum of their body sizes: that of
/// two lists together is the sum of both, and a single function holds its
/// own body.
pub proof fn lemma_code_size_adds_up(a: Seq<FunctionInfo>, b: Seq<FunctionInfo>)
    ensures
        code_size(a + b) == code_size(a) + code_size(b),
        b.len() == 1 ==> code_size(b) == b[0].body_size,
    decreases b.len(),
{
    if b.len() == 0 {
        assert(a + b =~= a);
    } else {
        lemma_code_size_adds_up(a, b.drop_last());
        assert((a + b).drop_last() =~= a + b.drop_last());
        assert(b.drop_last().len() == 0 ==> code_size(b.drop_last()) == 0);
    }
}

/// Function `a` of `fs` comes before function `b` in the ranking by size:
/// larger bodies first, and among bodies of the same size the earlier
/// function first.
pub open spec fn ranks_before(fs: Seq<FunctionInfo>, a: int, b: int) -> bool {
    ||| fs[a].body_size > fs[b].body_size
    ||| (fs[a].body_size == fs[b].body_size && a < b)
}

/// `order` lists positions in `fs` ranked by body size, largest first, ties
/// kept in their original order.
pub open spec fn is_size_ranking(fs: Seq<FunctionInfo>, order: Seq<usize>) -> bool {
    &&& order.len() == fs.len()
    &&& forall|k: int| 0 <= k < order.len() ==> #[trigger] order[k] < fs.len()
    &&& forall|j: int, k: int|
        0 <= j < k < order.len() ==> ranks_before(fs, #[trigger] order[j] as int, #[trigger] order[k] as int)
}

/// A size ranking names every function exactly once.
pub proof fn lemma_size_ranking_is_permutation(fs: Seq<FunctionInfo>, order: Seq<usize>)
    requires
        is_size_ranking(fs, order),
    ensures
        forall|j: int, k: int| 0 <= j < order.len() && 0 <= k < order.len() && j != k
            ==> order[j] != order[k],
        forall|x: usize| x < fs.len() ==> #[trigger] order.contains(x),
{
    assert forall|j: int, k: int| 0 <= j < order.len() && 0 <= k < order.len() && j != k
        implies order[j] != order[k] by {
        if j < k {
            assert(ranks_before(fs, order[j] as int, order[k] as int));
        } else {
            assert(ranks_before(fs, order[k] as int, order[j] as int));
        }
    }
    let s = order.map_values(|x: usize| x as int);
    assert(s.no_duplicates());
    s.unique_seq_to_set();
    vstd::set_lib::lemma_int_range(0, fs.len() as int);
    let range = vstd::set_lib::set_int_range(0, fs.len() as int);
    assert(s.to_set().subset_of(range));
    vstd::set_lib::lemma_len_subset(s.to_set(), range);
    vstd::set_lib::lemma_subset_equality(s.to_set(), range);
    assert forall|x: usize| x < fs.len() implies #[trigger] order.contains(x) by {
        assert(range.contains(x as int));
        assert(s.to_set().contains(x as int));
        let k = choose|k: int| 0 <= k < s.len() && s[k] == x as int;
        assert(order[k] == x);
    }
}

/// There is only one size ranking of a list of functions.
pub proof fn lemma_size_ranking_unique(fs: Seq<FunctionInfo>, o1: Seq<usize>, o2: Seq<usize>)
    requires
        is_size_ranking(fs, o1),
        is_size_ranking(fs, o2),
    ensures
        o1 == o2,
{
    lemma_size_ranking_is_permutation(fs, o1);
    lemma_size_ranking_is_permutation(fs, o2);
    if o1 != o2 {
        assert(!(o1 =~= o2));
        let i = choose|i: int| 0 <= i < o1.len() && o1[i] != o2[i];
        // the first position where the two rankings differ
        lemma_first_difference(o1, o2, i);
        let k = choose|k: int| 0 <= k <= i && o1[k] != o2[k] && forall|m: int| 0 <= m < k ==> o1[m] == o2[m];
        let a = o1[k] as int;
        let b = o2[k] as int;
        assert(o2.contains(o1[k]));
        assert(o1.contains(o2[k]));
        let ka = choose|m: int| 0 <= m < o2.len() && o2[m] == a;
        let kb = choose|m: int| 0 <= m < o1.len() && o1[m] == b;
        if ka < k {
            assert(o1[ka] == o2[ka]);
        }
        if kb < k {
            assert(o1[kb] == o2[kb]);
        }
        assert(ka > k);
        assert(kb > k);
        assert(ranks_before(fs, o1[k] as int, o1[kb] as int));
        assert(ranks_before(fs, o2[k] as int, o2[ka] as int));
    }
}

proof fn lemma_first_difference(o1: Seq<usize>, o2: Seq<usize>, i: int)
    requires
        0 <= i < o1.len(),
        i < o2.len(),
        o1[i] != o2[i],
    ensures
        exists|k: int| 0 <= k <= i && o1[k] != o2[k] && forall|m: int| 0 <= m < k ==> o1[m] == o2[m],
    decreases i,
{
    if exists|m: int| 0 <= m < i && o1[m] != o2[m] {
        let m = choose|m: int| 0 <= m < i && o1[m] != o2[m];
        lemma_first_difference(o1, o2, m);
    } else {
        assert(forall|m: int| 0 <= m < i ==> o1[m] == o2[m]);
    }
}


impl WasmAnalysis {
    /// The sum of all function body sizes.
    pub fn total_code_size(&self) -> (total: usize)
        requires
            code_size(self.functions@) <= usize::MAX,
        ensures
            total == code_size(self.functions@),
    {
        let mut total: usize = 0;
        let mut i: usize = 0;
        while i < self.functions.len()
            invariant
                i <= self.functions@.len(),
                code_size(self.functions@) <= usize::MAX,
                total == code_size(self.functions@.take(i as int)),
            decreases self.functions@.len() - i,
        {
            proof {
                assert(self.functions@.take(i + 1).drop_last() =~= self.functions@.take(i as int));
                lemma_code_size_prefix(self.functions@, i + 1);
            }
            total = total + self.functions[i].body_size;
            i = i + 1;
        }
        assert(self.functions@.take(i as int) =~= self.functions@);
        total
    }

    /// The number of functions.
    pub fn total_functions(&self) -> (n: usize)
        ensures
            n == self.functions@.len(),
    {
        self.functions.len()
    }

    /// The report of this analysis: every function, largest body first, and
    /// the code, data and custom sections with their sizes.
    pub fn to_report(&self) -> (report: AnalysisReport)
        requires
            code_size(self.functions@) <= usize::MAX,
            forall|i: int| 0 <= i < self.functions@.len() ==> gas_fits(#[trigger] self.functions@[i]),
        ensures
            report.schema_version@ == self.schema_version@,
            report.binary_size_bytes == self.binary_size_bytes,
            report.total_code_size == code_size(self.functions@),
            report.total_functions == self.functions@.len(),
            report.functions@.len() == self.functions@.len(),
            exists|order: Seq<usize>| {
                &&& is_size_ranking(self.functions@, order)
                &&& forall|k: int| 0 <= k < order.len() ==>
                    reports_function(#[trigger] report.functions@[k], self.functions@[order[k] as int])
            },
            report.sections@.len() == self.custom_sections@.len() + 2,
            reports_section(report.sections@[0], "code"@, code_size(self.functions@), "code"@),
            reports_section(report.sections@[1], "data"@, self.data_segment_size as nat, "data"@),
            forall|i: int| 0 <= i < self.custom_sections@.len() ==> reports_section(
                #[trigger] report.sections@[i + 2],
                self.custom_sections@[i].0@,
                self.custom_sections@[i].1 as nat,
                "custom"@,
            ),
    {
        let order = self.functions_by_size();
        let mut functions: Vec<FunctionReport> = Vec::new();
        let mut k: usize = 0;
        while k < order.len()
            invariant
                is_size_ranking(self.functions@, order@),
                forall|i: int| 0 <= i < self.functions@.len() ==> gas_fits(#[trigger] self.functions@[i]),
                k <= order@.len(),
                functions@.len() == k,
                forall|m: int| 0 <= m < k ==>
                    reports_function(#[trigger] functions@[m], self.functions@[order@[m] as int]),
            decreases order@.len() - k,
        {
            let f = &self.functions[order[k]];
            let r = report_function(f);
            functions.push(r);
            k = k + 1;
        }
        let total_code_size = self.total_code_size();
        let mut sections: Vec<SectionReport> = Vec::new();
        sections.push(SectionReport {
            name: String::from_str("code"),
            size_bytes: total_code_size,
            kind: String::from_str("code"),
        });
        sections.push(SectionReport {
            name: String::from_str("data"),
            size_bytes: self.data_segment_size,
            kind: String::from_str("data"),
        });
        let mut i: usize = 0;
        while i < self.custom_sections.len()
            invariant
                i <= self.custom_sections@.len(),
                sections@.len() == i + 2,
                reports_section(sections@[0], "code"@, code_size(self.functions@), "code"@),
                reports_section(sections@[1], "data"@, self.data_segment_size as nat, "data"@),
                forall|m: int| 0 <= m < i ==> reports_section(
                    #[trigger] sections@[m + 2],
                    self.custom_sections@[m].0@,
                    self.custom_sections@[m].1 as nat,
                    "custom"@,
                ),
            decreases self.custom_sections@.len() - i,
        {
            let entry = &self.custom_sections[i];
            sections.push(SectionReport {
                name: entry.0.clone(),
                size_bytes: entry.1,
                kind: String::from_str("custom"),
            });
            i = i + 1;
        }
        AnalysisReport {
            schema_version: self.schema_version.clone(),
            binary_size_bytes: self.binary_size_bytes,
            total_code_size,
            total_functions: self.total_functions(),
            functions,
            sections,
        }
    }

    /// The positions of the first `n` functions of the ranking by size (all
    /// of them when there are fewer).
    pub fn top_functions(&self, n: usize) -> (top: Vec<usize>)
        ensures
            exists|order: Seq<usize>| {
                &&& #[trigger] is_size_ranking(self.functions@, order)
                &&& top@ == order.take(if n < order.len() { n as int } else { order.len() as int })
            },
    {
        let mut order = self.functions_by_size();
        let ghost full = order@;
        if n < order.len() {
            order.truncate(n);
        }
        assert(order@ =~= full.take(if n < full.len() { n as int } else { full.len() as int }));
        order
    }

    /// The positions of the functions ranked by body size, largest first;
    /// functions of the same size keep their order.
    pub fn functions_by_size(&self) -> (order: Vec<usize>)
        ensures
            is_size_ranking(self.functions@, order@),
    {
        let ghost fs = self.functions@;
        let n = self.functions.len();
        let mut order: Vec<usize> = Vec::new();
        let mut i: usize = 0;
        while i < n
            invariant
                fs == self.functions@,
                n == fs.len(),
                i <= n,
                order@.len() == i,
                forall|k: int| 0 <= k < order@.len() ==> #[trigger] order@[k] < i,
                forall|j: int, k: int|
                    0 <= j < k < order@.len() ==> ranks_before(fs, #[trigger] order@[j] as int, #[trigger] order@[k] as int),
            decreases n - i,
        {
            let size = self.functions[i].body_size;
            let mut pos: usize = 0;
            while pos < order.len() && self.functions[order[pos]].body_size >= size
                invariant
                    fs == self.functions@,
                    n == fs.len(),
                    i < n,
                    size == fs[i as int].body_size,
                    pos <= order@.len(),
                    order@.len() == i,
                    forall|k: int| 0 <= k < order@.len() ==> #[trigger] order@[k] < i,
                    forall|k: int| 0 <= k < pos ==> fs[#[trigger] order@[k] as int].body_size >= size,
                decreases order@.len() - pos,
            {
                pos = pos + 1;
            }
            let ghost old_order = order@;
            proof {
                assert forall|k: int| pos <= k < old_order.len() implies fs[#[trigger] old_order[k] as int].body_size < size by {
                    if k > pos {
                        assert(ranks_before(fs, old_order[pos as int] as int, old_order[k] as int));
                    }
                }
            }
            order.insert(pos, i);
            proof {
                assert(order@ =~= old_order.insert(pos as int, i));
                assert forall|k: int| 0 <= k < order@.len() implies #[trigger] order@[k] < i + 1 by {
                    if k > pos {
                        assert(order@[k] == old_order[k - 1]);
                    }
                }
                assert forall|j: int, k: int| 0 <= j < k < order@.len() implies ranks_before(fs, #[trigger] order@[j] as int, #[trigger] order@[k] as int) by {
                    if k < pos {
                    } else if k == pos {
                        assert(order@[j] == old_order[j]);
                    } else if j < pos {
                        assert(order@[k] == old_order[k - 1]);
                        assert(ranks_before(fs, old_order[j] as int, old_order[k - 1] as int));
                    } else if j == pos {
                        assert(order@[k] == old_order[k - 1]);
                        assert(fs[old_order[k - 1] as int].body_size < size);
                    } else {
                        assert(order@[j] == old_order[j - 1]);
                        assert(order@[k] == old_order[k - 1]);
                        assert(ranks_before(fs, old_order[j - 1] as int, old_order[k - 1] as int));
                    }
                }
            }
            i = i + 1;
        }
        order
    }
}

} // verus!
