//! The calls into `wasmparser` that the analysis makes, each behind a
//! trusted item. The walk over the module's payloads yields, for each payload
//! the analysis reads, the byte range the parser gave it; each section is
//! then read again from those bytes. Every result is named as a function of
//! the bytes and offsets it is read from, so the analysis is tied to the
//! binary; a parser error is kept as its message and offset.

use vstd::prelude::*;
use vstd::string::StringExecFns;
use core::ops::Range;
use wasmparser::{
    BinaryReader, CustomSectionReader, DataSectionReader, ExportSectionReader, FunctionBody,
    ImportSectionReader, KnownCustom, MemorySectionReader, Name, Parser, TableSectionReader,
    TypeRef,
};
use wasmparser::Payload::{
    CodeSectionEntry, CustomSection, DataSection, End, ExportSection, ImportSection, MemorySection,
    TableSection, Version,
};
use self::ImportType::{Func, FuncExact, Global, Memory, Table, Tag};
use self::RegionKind::{Boundary, Code, Custom, Data, Exports, Imports, Memories, Other, Tables};

verus! {

/// An error of the parser: its message and the byte offset where it was
/// found.
#[derive(Debug, Clone, PartialEq, Eq)]
pub struct ParseError {
    pub message: String,
    pub offset: u64,
}

/// The kinds of payload the analysis reads.
#[derive(Debug, Clone, Copy, PartialEq, Eq, Structural)]
pub enum RegionKind {
    Imports,
    Exports,
    Memories,
    Tables,
    Code,
    Custom,
    Data,
    /// The header or the end of a module or component.
    Boundary,
    Other,
}

/// The type of an imported item, as `TypeRef` gives it.
#[derive(Debug, Clone, Copy, PartialEq, Eq, Structural)]
pub enum ImportType {
    Func,
    FuncExact,
    Table,
    Memory,
    Global,
    Tag,
}

/// A payload of the module: its kind and the range of bytes the parser gave
/// it (the contents of a section, or the body of a code section entry).
/// Payloads of kind `Boundary` or `Other` carry the empty range at zero.
#[derive(Debug, Clone, Copy, PartialEq, Eq, Structural)]
pub struct Region {
    pub kind: RegionKind,
    pub start: u64,
    pub end: u64,
}

/// The error of the parser with this message and offset.
pub fn parse_error(message: &str, offset: u64) -> (res: ParseError)
    ensures
        res.message@ == message@,
        res.offset == offset,
{
    ParseError { message: String::from_str(message), offset }
}

/// The region of kind `kind` over `range`.
pub fn region(kind: RegionKind, range: Range<u64>) -> (res: Region)
    ensures
        res == (Region { kind, start: range.start, end: range.end }),
{
    Region { kind, start: range.start, end: range.end }
}

/// A list of parser results, each value kept and each error marked `None`.
pub open spec fn outcomes<T>(results: Seq<Result<T, ParseError>>) -> Seq<Option<T>> {
    results.map_values(|r: Result<T, ParseError>| match r {
        Ok(v) => Some(v),
        Err(_) => None,
    })
}

/// A list read by the parser, by its view.
pub open spec fn seq_result<T>(r: Result<Vec<T>, ParseError>) -> Result<Seq<T>, ParseError> {
    match r {
        Ok(v) => Ok(v@),
        Err(e) => Err(e),
    }
}

/// `data` begins with the 8-byte header of a WebAssembly binary: the magic
/// number `\0asm` and then version 1 of a module or version 13, layer 1, of a
/// component, both little-endian.
pub open spec fn has_wasm_header(data: Seq<u8>) -> bool {
    &&& data.len() >= 8
    &&& data[0] == 0x00 && data[1] == 0x61 && data[2] == 0x73 && data[3] == 0x6d
    &&& {
        ||| (data[4] == 0x01 && data[5] == 0x00 && data[6] == 0x00 && data[7] == 0x00)
        ||| (data[4] == 0x0d && data[5] == 0x00 && data[6] == 0x01 && data[7] == 0x00)
    }
}

/// The payloads `Parser::new(0).parse_all(data)` yields, as regions.
pub uninterp spec fn wasm_regions(data: Seq<u8>) -> Seq<Result<Region, ParseError>>;

/// The entries of the import section read from `data[start..end]`: module,
/// item name, and the type of the imported item.
pub uninterp spec fn wasm_imports(data: Seq<u8>, start: u64, end: u64) -> Seq<Result<(String, String, ImportType), ParseError>>;

/// The export names of the export section read from `data[start..end]`.
pub uninterp spec fn wasm_exports(data: Seq<u8>, start: u64, end: u64) -> Seq<Result<String, ParseError>>;

/// The initial page counts of the memory section read from `data[start..end]`.
pub uninterp spec fn wasm_memories(data: Seq<u8>, start: u64, end: u64) -> Seq<Result<u64, ParseError>>;

/// The tables of the table section read from `data[start..end]`.
pub uninterp spec fn wasm_tables(data: Seq<u8>, start: u64, end: u64) -> Seq<Result<(), ParseError>>;

/// The segment lengths of the data section read from `data[start..end]`.
pub uninterp spec fn wasm_data_lengths(data: Seq<u8>, start: u64, end: u64) -> Seq<Result<usize, ParseError>>;

/// The local declaration counts of the function body at `data[start..end]`,
/// or the error where its locals cannot be reached.
pub uninterp spec fn wasm_locals(data: Seq<u8>, start: u64, end: u64) -> Result<Seq<Result<u32, ParseError>>, ParseError>;

/// The operators of the function body at `data[start..end]`, or the error
/// where they cannot be reached.
pub uninterp spec fn wasm_operators(data: Seq<u8>, start: u64, end: u64) -> Result<Seq<Result<(), ParseError>>, ParseError>;

/// The name and content length of the custom section at `data[start..end]`.
pub uninterp spec fn wasm_custom(data: Seq<u8>, start: u64, end: u64) -> Result<(String, usize), ParseError>;

/// What the custom section at `data[start..end]` holds as a `name` section:
/// the error where it cannot be read; `None` where it is another section;
/// else one entry per subsection, in order: the error of a subsection that
/// cannot be read, `None` for one that names other things than functions,
/// and for a function-name subsection its entries, index and name.
pub uninterp spec fn wasm_name_subsections(data: Seq<u8>, start: u64, end: u64) -> Result<Option<Seq<Result<Option<Seq<Result<(u32, String), ParseError>>>, ParseError>>>, ParseError>;

/// The subsections of a `name` section as the parser yields them, each
/// function-name subsection by its view.
pub open spec fn name_views(subs: Seq<Result<Option<Vec<Result<(u32, String), ParseError>>>, ParseError>>) -> Seq<Result<Option<Seq<Result<(u32, String), ParseError>>>, ParseError>> {
    subs.map_values(|r: Result<Option<Vec<Result<(u32, String), ParseError>>>, ParseError>| match r {
        Ok(Some(v)) => Ok(Some(v@)),
        Ok(None) => Ok(None),
        Err(e) => Err(e),
    })
}

/// The subsections of a `name` section, each error marked `None`, each
/// function-name subsection by its outcomes.
pub open spec fn name_outcomes(subs: Seq<Result<Option<Seq<Result<(u32, String), ParseError>>>, ParseError>>) -> Seq<Option<Option<Seq<Option<(u32, String)>>>>> {
    subs.map_values(|r: Result<Option<Seq<Result<(u32, String), ParseError>>>, ParseError>| match r {
        Ok(Some(v)) => Some(Some(outcomes(v))),
        Ok(None) => Some(None),
        Err(_) => None,
    })
}

/// Every payload that `Parser::new(0).parse_all(data)` yields, in order,
/// nested modules and components included, as its kind and the range the
/// parser gave it, and every error as its message and offset; the stream
/// stops after its first error. Stated: the result is named by the bytes;
/// every range lies inside `data`; and without the header the parser's first
/// step fails and the stream is that one error.
#[verifier::external_body]
pub(crate) fn module_regions(data: &[u8]) -> (res: Vec<Result<Region, ParseError>>)
    ensures
        res@ == wasm_regions(data@),
        forall|i: int| 0 <= i < res@.len() ==> (#[trigger] res@[i] matches Ok(r) ==> r.start <= r.end <= data@.len()),
        !has_wasm_header(data@) ==> res@.len() == 1 && res@[0] is Err,
{
    Parser::new(0).parse_all(data).map(|p| p.map(|p| match p {
        ImportSection(r) => region(Imports, r.range()),
        ExportSection(r) => region(Exports, r.range()),
        MemorySection(r) => region(Memories, r.range()),
        TableSection(r) => region(Tables, r.range()),
        CodeSectionEntry(b) => region(Code, b.range()),
        CustomSection(r) => region(Custom, r.range()),
        DataSection(r) => region(Data, r.range()),
        Version { .. } | End(_) => region(Boundary, 0..0),
        _ => region(Other, 0..0),
    }).map_err(|e| parse_error(e.message(), e.offset()))).collect()
}

/// Every import of the import section at `data[start..end]`, as
/// `SectionLimited::into_imports` yields them: module, item name, and the
/// variant of its `TypeRef`; every error as its message and offset.
#[verifier::external_body]
pub(crate) fn import_entries(data: &[u8], start: u64, end: u64) -> (res: Vec<Result<(String, String, ImportType), ParseError>>)
    requires
        start <= end <= data@.len(),
    ensures
        res@ == wasm_imports(data@, start, end),
{
    match ImportSectionReader::new(BinaryReader::new(&data[start as usize..end as usize], start)) {
        Ok(r) => r.into_imports().map(|i| i.map(|i| (i.module.to_string(), i.name.to_string(), match i.ty {
            TypeRef::Func(_) => Func,
            TypeRef::FuncExact(_) => FuncExact,
            TypeRef::Table(_) => Table,
            TypeRef::Memory(_) => Memory,
            TypeRef::Global(_) => Global,
            TypeRef::Tag(_) => Tag,
        })).map_err(|e| parse_error(e.message(), e.offset()))).collect(),
        Err(e) => vec![Err(parse_error(e.message(), e.offset()))],
    }
}

/// The name of every export of the export section at `data[start..end]`;
/// every error as its message and offset.
#[verifier::external_body]
pub(crate) fn export_names(data: &[u8], start: u64, end: u64) -> (res: Vec<Result<String, ParseError>>)
    requires
        start <= end <= data@.len(),
    ensures
        res@ == wasm_exports(data@, start, end),
{
    match ExportSectionReader::new(BinaryReader::new(&data[start as usize..end as usize], start)) {
        Ok(r) => r.into_iter().map(|x| x.map(|x| x.name.to_string()).map_err(|e| parse_error(e.message(), e.offset()))).collect(),
        Err(e) => vec![Err(parse_error(e.message(), e.offset()))],
    }
}

/// The `initial` page count of every memory of the memory section at
/// `data[start..end]`; every error as its message and offset.
#[verifier::external_body]
pub(crate) fn memory_initials(data: &[u8], start: u64, end: u64) -> (res: Vec<Result<u64, ParseError>>)
    requires
        start <= end <= data@.len(),
    ensures
        res@ == wasm_memories(data@, start, end),
{
    match MemorySectionReader::new(BinaryReader::new(&data[start as usize..end as usize], start)) {
        Ok(r) => r.into_iter().map(|x| x.map(|x| x.initial).map_err(|e| parse_error(e.message(), e.offset()))).collect(),
        Err(e) => vec![Err(parse_error(e.message(), e.offset()))],
    }
}

/// One entry per table of the table section at `data[start..end]`; every
/// error as its message and offset.
#[verifier::external_body]
pub(crate) fn table_entries(data: &[u8], start: u64, end: u64) -> (res: Vec<Result<(), ParseError>>)
    requires
        start <= end <= data@.len(),
    ensures
        res@ == wasm_tables(data@, start, end),
{
    match TableSectionReader::new(BinaryReader::new(&data[start as usize..end as usize], start)) {
        Ok(r) => r.into_iter().map(|x| x.map(|_| ()).map_err(|e| parse_error(e.message(), e.offset()))).collect(),
        Err(e) => vec![Err(parse_error(e.message(), e.offset()))],
    }
}

/// The length of the bytes of every segment of the data section at
/// `data[start..end]`; every error as its message and offset.
#[verifier::external_body]
pub(crate) fn data_lengths(data: &[u8], start: u64, end: u64) -> (res: Vec<Result<usize, ParseError>>)
    requires
        start <= end <= data@.len(),
    ensures
        res@ == wasm_data_lengths(data@, start, end),
{
    match DataSectionReader::new(BinaryReader::new(&data[start as usize..end as usize], start)) {
        Ok(r) => r.into_iter().map(|x| x.map(|x| x.data.len()).map_err(|e| parse_error(e.message(), e.offset()))).collect(),
        Err(e) => vec![Err(parse_error(e.message(), e.offset()))],
    }
}

/// The count of every local declaration of the function body at
/// `data[start..end]`, through `FunctionBody::get_locals_reader`; every error
/// as its message and offset.
#[verifier::external_body]
pub(crate) fn local_counts(data: &[u8], start: u64, end: u64) -> (res: Result<Vec<Result<u32, ParseError>>, ParseError>)
    requires
        start <= end <= data@.len(),
    ensures
        seq_result(res) == wasm_locals(data@, start, end),
{
    match FunctionBody::new(BinaryReader::new(&data[start as usize..end as usize], start)).get_locals_reader() {
        Ok(r) => Ok(r.into_iter().map(|x| x.map(|(count, _)| count).map_err(|e| parse_error(e.message(), e.offset()))).collect()),
        Err(e) => Err(parse_error(e.message(), e.offset())),
    }
}

/// One entry per operator of the function body at `data[start..end]`,
/// through `FunctionBody::get_operators_reader`; every error as its message
/// and offset.
#[verifier::external_body]
pub(crate) fn operator_entries(data: &[u8], start: u64, end: u64) -> (res: Result<Vec<Result<(), ParseError>>, ParseError>)
    requires
        start <= end <= data@.len(),
    ensures
        seq_result(res) == wasm_operators(data@, start, end),
{
    match FunctionBody::new(BinaryReader::new(&data[start as usize..end as usize], start)).get_operators_reader() {
        Ok(r) => Ok(r.into_iter().map(|x| x.map(|_| ()).map_err(|e| parse_error(e.message(), e.offset()))).collect()),
        Err(e) => Err(parse_error(e.message(), e.offset())),
    }
}

/// `CustomSectionReader::name` and the length of `CustomSectionReader::data`
/// of the custom section at `data[start..end]`, or the error as its message
/// and offset.
#[verifier::external_body]
pub(crate) fn custom_section(data: &[u8], start: u64, end: u64) -> (res: Result<(String, usize), ParseError>)
    requires
        start <= end <= data@.len(),
    ensures
        res == wasm_custom(data@, start, end),
{
    match CustomSectionReader::new(BinaryReader::new(&data[start as usize..end as usize], start)) {
        Ok(c) => Ok((c.name().to_string(), c.data().len())),
        Err(e) => Err(parse_error(e.message(), e.offset())),
    }
}

/// `CustomSectionReader::as_known` on the custom section at
/// `data[start..end]`: where it is `KnownCustom::Name`, every subsection the
/// `NameSectionReader` yields, with the entries of each `Name::Function`
/// subsection, index and name; `None` for any other known section; every
/// error as its message and offset.
#[verifier::external_body]
pub(crate) fn name_subsections(data: &[u8], start: u64, end: u64) -> (res: Result<Option<Vec<Result<Option<Vec<Result<(u32, String), ParseError>>>, ParseError>>>, ParseError>)
    requires
        start <= end <= data@.len(),
    ensures
        match res {
            Ok(Some(subs)) => wasm_name_subsections(data@, start, end) == Ok::<_, ParseError>(Some(name_views(subs@))),
            Ok(None) => wasm_name_subsections(data@, start, end) == Ok::<_, ParseError>(None::<Seq<Result<Option<Seq<Result<(u32, String), ParseError>>>, ParseError>>>),
            Err(e) => wasm_name_subsections(data@, start, end) == Err::<Option<Seq<Result<Option<Seq<Result<(u32, String), ParseError>>>, ParseError>>>, ParseError>(e),
        },
{
    let known = CustomSectionReader::new(BinaryReader::new(&data[start as usize..end as usize], start)).map_err(|e| parse_error(e.message(), e.offset()))?.as_known();
    let KnownCustom::Name(names) = known else { return Ok(None) };
    Ok(Some(names.map(|x| x.map(|sub| match sub {
        Name::Function(m) => Some(m.map(|n| n.map(|n| (n.index, n.name.to_string())).map_err(|e| parse_error(e.message(), e.offset()))).collect()),
        _ => None,
    }).map_err(|e| parse_error(e.message(), e.offset()))).collect()))
}

} // verus!
