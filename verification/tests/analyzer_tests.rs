use stylus_profiler::analyzer::{
    analyze, collect_items, count_instructions, count_locals, function_item, function_name_list,
    is_function_import,
    leading_oks, malformed, number_functions, oks_or_malformed, summarize, AnalyzeError, FunctionInfo,
    WasmAnalysis, WasmItem,
};
use stylus_profiler::wasm::{parse_error, region, ImportType, ParseError, Region, RegionKind};

fn minimal_exported_wasm() -> Vec<u8> {
    vec![
        0x00, 0x61, 0x73, 0x6d, 0x01, 0x00, 0x00, 0x00, // header
        0x01, 0x04, 0x01, 0x60, 0x00, 0x00, // type section: () -> ()
        0x03, 0x02, 0x01, 0x00, // function section: one function
        0x07, 0x07, 0x01, 0x03, b'r', b'u', b'n', 0x00, 0x00, // export run()
        0x0a, 0x04, 0x01, 0x02, 0x00, 0x0b, // code section: empty body
    ]
}

/// A module with an import, a table, a memory, an export, one function with
/// two locals, a data segment and a custom section.
fn richer_wasm() -> Vec<u8> {
    vec![
        0x00, 0x61, 0x73, 0x6d, 0x01, 0x00, 0x00, 0x00, // header
        0x01, 0x04, 0x01, 0x60, 0x00, 0x00, // type section
        0x02, 0x09, 0x01, 0x03, b'e', b'n', b'v', 0x01, b'f', 0x00, 0x00, // import env.f
        0x03, 0x02, 0x01, 0x00, // function section
        0x04, 0x04, 0x01, 0x70, 0x00, 0x01, // table section: one funcref table
        0x05, 0x03, 0x01, 0x00, 0x02, // memory section: 2 pages
        0x07, 0x07, 0x01, 0x03, b'r', b'u', b'n', 0x00, 0x01, // export run
        0x0a, 0x06, 0x01, 0x04, 0x01, 0x02, 0x7f, 0x0b, // code: 2 i32 locals, end
        0x0b, 0x09, 0x01, 0x00, 0x41, 0x00, 0x0b, 0x03, b'a', b'b', b'c', // data "abc"
        0x00, 0x07, 0x04, b'n', b'o', b't', b'e', b'x', b'y', // custom "note"
    ]
}

#[test]
fn test_valid_wasm() -> Result<(), AnalyzeError> {
    // Minimal valid WASM module header
    let analysis = analyze(b"\x00asm\x01\x00\x00\x00")?;
    assert_eq!(analysis.binary_size_bytes, 8);
    assert_eq!(analysis.total_functions(), 0);
    assert_eq!(analysis.total_code_size(), 0);
    Ok(())
}

#[test]
fn analyzes_valid_wasm_with_exported_function() -> Result<(), AnalyzeError> {
    let bytes = minimal_exported_wasm();

    let analysis = analyze(&bytes)?;

    assert_eq!(analysis.file_size, bytes.len());
    assert_eq!(analysis.binary_size_bytes, bytes.len());
    assert_eq!(analysis.total_functions(), 1);
    assert_eq!(analysis.exports, vec!["run"]);
    assert_eq!(analysis.functions[0].index, 0);
    assert!(analysis.functions[0].body_size > 0);
    assert!(analysis.functions[0].instruction_count > 0);
    Ok(())
}

#[test]
fn test_empty_binary_handling() {
    // Empty file
    let result = analyze(&[]);
    assert!(result.is_err());
}

#[test]
fn test_malformed_wasm_rejection() {
    let result = analyze(b"not a wasm file");
    assert!(result.is_err());
}

#[test]
fn malformed_input_is_reported_with_message() {
    match analyze(b"not a wasm file") {
        Err(AnalyzeError::Malformed { message, .. }) => assert!(!message.is_empty()),
        other => panic!("expected a parse error, got {:?}", other),
    }
}

#[test]
fn truncated_module_is_rejected() {
    let mut bytes = minimal_exported_wasm();
    bytes.pop();
    assert!(analyze(&bytes).is_err());
}

#[test]
fn minimal_function_is_measured_exactly() {
    let analysis = analyze(&minimal_exported_wasm()).unwrap();
    let f = &analysis.functions[0];
    assert_eq!(f.body_size, 2);
    assert_eq!(f.local_count, 0);
    assert_eq!(f.instruction_count, 1);
    assert!(f.name.is_none());
    assert_eq!(analysis.schema_version, "1.0.0");
    assert!(analysis.imports.is_empty());
    assert_eq!(analysis.memory_pages, None);
}

#[test]
fn reads_every_section_kind() {
    let bytes = richer_wasm();
    let analysis = analyze(&bytes).unwrap();
    assert_eq!(analysis.file_size, bytes.len());
    assert_eq!(analysis.imports, vec!["env.f"]);
    assert_eq!(analysis.exports, vec!["run"]);
    assert_eq!(analysis.memory_pages, Some(2));
    assert_eq!(analysis.table_count, 1);
    assert_eq!(analysis.functions.len(), 1);
    // the imported function env.f takes index 0
    assert_eq!(analysis.functions[0].index, 1);
    assert_eq!(analysis.functions[0].body_size, 4);
    assert_eq!(analysis.functions[0].local_count, 2);
    assert_eq!(analysis.functions[0].instruction_count, 1);
    assert_eq!(analysis.data_segment_size, 3);
    assert_eq!(analysis.custom_sections, vec![("note".to_string(), 2usize)]);
}

fn func_item(body_size: usize) -> WasmItem {
    WasmItem::Function { body_size, local_count: 1, instruction_count: 2 }
}

#[test]
fn summarize_numbers_functions_and_joins_import_names() {
    let items = vec![
        WasmItem::Import { module: "env".to_string(), name: "log".to_string(), is_function: false },
        func_item(10),
        WasmItem::Memory { initial_pages: 1 },
        func_item(20),
        WasmItem::Memory { initial_pages: 5 },
        WasmItem::Table,
        WasmItem::Table,
        WasmItem::DataSegment { size: 7 },
        WasmItem::DataSegment { size: 8 },
        WasmItem::Export { name: "main".to_string() },
        WasmItem::CustomSection { name: "name".to_string(), size: 99 },
    ];
    let a: WasmAnalysis = summarize(&items, 123).unwrap();
    assert_eq!(a.file_size, 123);
    assert_eq!(a.binary_size_bytes, 123);
    assert_eq!(a.schema_version, "1.0.0");
    assert_eq!(a.imports, vec!["env.log"]);
    assert_eq!(a.exports, vec!["main"]);
    assert_eq!(a.memory_pages, Some(5));
    assert_eq!(a.table_count, 2);
    assert_eq!(a.data_segment_size, 15);
    assert_eq!(a.custom_sections, vec![("name".to_string(), 99usize)]);
    let indexes: Vec<u32> = a.functions.iter().map(|f| f.index).collect();
    assert_eq!(indexes, vec![0, 1]);
    assert_eq!(a.functions[1].body_size, 20);
}

#[test]
fn summarize_truncates_memory_pages_to_32_bits() {
    let items = vec![WasmItem::Memory { initial_pages: (1u64 << 32) + 3 }];
    let a = summarize(&items, 0).unwrap();
    assert_eq!(a.memory_pages, Some(3));
}

#[test]
fn summarize_refuses_data_total_overflow() {
    let items = vec![WasmItem::DataSegment { size: usize::MAX }, WasmItem::DataSegment { size: 1 }];
    assert!(matches!(summarize(&items, 0), Err(AnalyzeError::CountOverflow)));
}

#[test]
fn total_code_size_sums_bodies() {
    let f = |index: u32, body_size: usize| FunctionInfo {
        index,
        name: None,
        body_size,
        local_count: 0,
        instruction_count: 0,
    };
    let items = vec![func_item(3), func_item(4), func_item(5)];
    let mut a = summarize(&items, 0).unwrap();
    assert_eq!(a.total_code_size(), 12);
    a.functions.push(f(3, 100));
    assert_eq!(a.total_code_size(), 112);
    assert_eq!(a.total_functions(), 4);
}

#[test]
fn binaries_without_the_header_are_malformed() {
    for bytes in [
        &b""[..],
        &b"\x00asm"[..],
        &b"\x00asm\x01\x00\x00"[..],
        &b"\x00asm\x02\x00\x00\x00"[..],
        &b"\x00ASM\x01\x00\x00\x00"[..],
    ] {
        assert!(matches!(analyze(bytes), Err(AnalyzeError::Malformed { .. })), "{:?}", bytes);
    }
}

#[test]
fn empty_component_is_accepted() {
    let a = analyze(b"\x00asm\x0d\x00\x01\x00").unwrap();
    assert_eq!(a.file_size, 8);
    assert!(a.functions.is_empty());
}

/// The minimal module followed by a `name` section naming function 0 `run`.
fn named_wasm() -> Vec<u8> {
    let mut bytes = minimal_exported_wasm();
    bytes.extend_from_slice(&[
        0x00, 0x0d, 0x04, b'n', b'a', b'm', b'e', // custom section "name"
        0x01, 0x06, 0x01, 0x00, 0x03, b'r', b'u', b'n', // function names: 0 -> run
    ]);
    bytes
}

#[test]
fn names_come_from_the_name_section() {
    let analysis = analyze(&named_wasm()).unwrap();
    assert_eq!(analysis.functions[0].name.as_deref(), Some("run"));
    assert_eq!(analysis.custom_sections, vec![("name".to_string(), 8usize)]);
    let report = analysis.to_report();
    assert_eq!(report.functions[0].name, "run");
}

#[test]
fn names_follow_the_module_index_space() {
    let mut bytes = richer_wasm();
    bytes.extend_from_slice(&[
        0x00, 0x11, 0x04, b'n', b'a', b'm', b'e', // custom section "name"
        0x01, 0x0a, 0x02, // function names, two entries
        0x00, 0x01, b'f', // 0 -> f (the import)
        0x01, 0x04, b'm', b'a', b'i', b'n', // 1 -> main
    ]);
    let analysis = analyze(&bytes).unwrap();
    assert_eq!(analysis.functions.len(), 1);
    assert_eq!(analysis.functions[0].index, 1);
    assert_eq!(analysis.functions[0].name.as_deref(), Some("main"));
}

#[test]
fn a_broken_name_section_leaves_functions_unnamed() {
    let mut bytes = minimal_exported_wasm();
    bytes.extend_from_slice(&[
        0x00, 0x07, 0x04, b'n', b'a', b'm', b'e', // custom section "name"
        0x01, 0x05, // function names subsection claiming 5 bytes, of which none follow
    ]);
    let analysis = analyze(&bytes).unwrap();
    assert_eq!(analysis.functions[0].name, None);
}

#[test]
fn summarize_numbers_after_imported_functions_and_names_them() {
    let items = vec![
        WasmItem::Import { module: "env".to_string(), name: "a".to_string(), is_function: true },
        WasmItem::Import { module: "env".to_string(), name: "mem".to_string(), is_function: false },
        WasmItem::Import { module: "env".to_string(), name: "b".to_string(), is_function: true },
        func_item(10),
        func_item(20),
        WasmItem::FunctionName { index: 0, name: "a".to_string() },
        WasmItem::FunctionName { index: 3, name: "second".to_string() },
        WasmItem::FunctionName { index: 3, name: "renamed".to_string() },
        WasmItem::FunctionName { index: 9, name: "nobody".to_string() },
    ];
    let a = summarize(&items, 0).unwrap();
    assert_eq!(a.imports, vec!["env.a", "env.mem", "env.b"]);
    let indexes: Vec<u32> = a.functions.iter().map(|f| f.index).collect();
    assert_eq!(indexes, vec![2, 3]);
    assert_eq!(a.functions[0].name, None);
    assert_eq!(a.functions[1].name.as_deref(), Some("renamed"));
}

/// A component holding `modules` as its core modules, in order.
fn component_of(modules: &[Vec<u8>]) -> Vec<u8> {
    let mut bytes = b"\x00asm\x0d\x00\x01\x00".to_vec();
    for m in modules {
        assert!(m.len() < 128);
        bytes.push(0x01); // core module section
        bytes.push(m.len() as u8);
        bytes.extend_from_slice(m);
    }
    bytes
}

#[test]
fn nested_modules_number_and_name_their_own_functions() {
    let a = analyze(&component_of(&[richer_wasm(), named_wasm()])).unwrap();
    assert_eq!(a.functions.len(), 2);
    // after env.f, the one imported function of its own module
    assert_eq!(a.functions[0].index, 1);
    assert_eq!(a.functions[0].name, None);
    // the second module imports nothing; its name section names its index 0
    assert_eq!(a.functions[1].index, 0);
    assert_eq!(a.functions[1].name.as_deref(), Some("run"));
    assert_eq!(a.imports, vec!["env.f"]);
    assert_eq!(a.exports, vec!["run", "run"]);
    assert_eq!(a.table_count, 1);
}

#[test]
fn a_name_section_names_only_its_own_module() {
    let a = analyze(&component_of(&[named_wasm(), minimal_exported_wasm()])).unwrap();
    let indexes: Vec<u32> = a.functions.iter().map(|f| f.index).collect();
    assert_eq!(indexes, vec![0, 0]);
    assert_eq!(a.functions[0].name.as_deref(), Some("run"));
    assert_eq!(a.functions[1].name, None);
}

#[test]
fn summarize_numbers_each_module_on_its_own() {
    let items = vec![
        WasmItem::ModuleBoundary,
        WasmItem::Import { module: "env".to_string(), name: "f".to_string(), is_function: true },
        func_item(10),
        WasmItem::FunctionName { index: 1, name: "x".to_string() },
        WasmItem::ModuleBoundary,
        WasmItem::ModuleBoundary,
        func_item(20),
        WasmItem::FunctionName { index: 0, name: "y".to_string() },
        WasmItem::FunctionName { index: 1, name: "z".to_string() },
        WasmItem::ModuleBoundary,
    ];
    let a = summarize(&items, 0).unwrap();
    let indexes: Vec<u32> = a.functions.iter().map(|f| f.index).collect();
    assert_eq!(indexes, vec![1, 0]);
    assert_eq!(a.functions[0].name.as_deref(), Some("x"));
    assert_eq!(a.functions[1].name.as_deref(), Some("y"));
    assert_eq!(a.functions[1].body_size, 20);
}

#[test]
fn number_functions_reads_one_module() {
    let items = vec![
        func_item(1),
        WasmItem::ModuleBoundary,
        WasmItem::Import { module: "m".to_string(), name: "g".to_string(), is_function: true },
        WasmItem::Import { module: "m".to_string(), name: "t".to_string(), is_function: false },
        func_item(7),
        WasmItem::FunctionName { index: 1, name: "seven".to_string() },
    ];
    let v = number_functions(&items, 2, 6).unwrap();
    assert_eq!(v.len(), 1);
    assert_eq!(v[0].index, 1);
    assert_eq!(v[0].body_size, 7);
    assert_eq!(v[0].name.as_deref(), Some("seven"));
    assert!(number_functions(&items, 2, 2).unwrap().is_empty());
}

#[test]
fn a_malformed_table_entry_is_still_counted() {
    let mut bytes = richer_wasm();
    // the table section now claims two tables, of which only the first is there
    let at = bytes.windows(6).position(|w| w == [0x04, 0x04, 0x01, 0x70, 0x00, 0x01]).unwrap();
    bytes[at + 2] = 0x02;
    let a = analyze(&bytes).unwrap();
    assert_eq!(a.table_count, 2);
}

fn reader_error() -> ParseError {
    ParseError { message: "bad byte".to_string(), offset: 7 }
}

#[test]
fn parser_outcomes_are_kept_or_refused() {
    assert_eq!(oks_or_malformed::<u32>(vec![Ok(1), Ok(2)]).unwrap(), vec![1, 2]);
    let later = ParseError { message: "later".to_string(), offset: 9 };
    match oks_or_malformed::<u32>(vec![Ok(1), Err(reader_error()), Ok(2), Err(later)]) {
        Err(AnalyzeError::Malformed { message, offset }) => {
            assert_eq!(message, "bad byte");
            assert_eq!(offset, 7);
        },
        other => panic!("expected a malformed error, got {:?}", other),
    }
    assert_eq!(leading_oks::<u32>(vec![Ok(4), Ok(5), Err(reader_error()), Ok(6)]), vec![4, 5]);
    assert!(leading_oks::<u32>(vec![Err(reader_error())]).is_empty());
}

#[test]
fn local_and_instruction_counts() {
    assert_eq!(count_locals(vec![Ok(2), Ok(3)]).unwrap(), 5);
    assert_eq!(count_locals(vec![]).unwrap(), 0);
    assert!(matches!(count_locals(vec![Ok(u32::MAX), Ok(1)]), Err(AnalyzeError::CountOverflow)));
    assert!(matches!(count_locals(vec![Ok(1), Err(reader_error())]), Err(AnalyzeError::Malformed { .. })));
    assert_eq!(count_instructions(vec![Ok(()), Ok(()), Ok(())]).unwrap(), 3);
    assert!(matches!(count_instructions(vec![Ok(()), Err(reader_error())]), Err(AnalyzeError::Malformed { .. })));
}

#[test]
fn function_imports_are_told_by_their_type() {
    assert!(is_function_import(ImportType::Func));
    assert!(is_function_import(ImportType::FuncExact));
    for t in [ImportType::Table, ImportType::Memory, ImportType::Global, ImportType::Tag] {
        assert!(!is_function_import(t));
    }
}

#[test]
fn a_code_region_is_measured() {
    let bytes = richer_wasm();
    // the body of the one function: 2 i32 locals, then `end`
    let at = bytes.windows(4).position(|w| w == [0x01, 0x02, 0x7f, 0x0b]).unwrap() as u64;
    let region = Region { kind: RegionKind::Code, start: at, end: at + 4 };
    match function_item(&bytes, region).unwrap() {
        WasmItem::Function { body_size, local_count, instruction_count } => {
            assert_eq!((body_size, local_count, instruction_count), (4, 2, 1));
        },
        other => panic!("expected a function, got {:?}", other),
    }
    let mut items = vec![WasmItem::ModuleBoundary];
    collect_items(&bytes, region, &mut items).unwrap();
    assert_eq!(items.len(), 2);
    let boundary = Region { kind: RegionKind::Boundary, start: 0, end: 0 };
    collect_items(&bytes, boundary, &mut items).unwrap();
    assert!(matches!(items[2], WasmItem::ModuleBoundary));
}

#[test]
fn function_names_are_gathered_from_their_subsections() {
    let subs = vec![
        Ok(Some(vec![Ok((0, "a".to_string())), Ok((2, "b".to_string()))])),
        Ok(None),
        Err(reader_error()),
        Ok(Some(vec![Ok((5, "c".to_string()))])),
    ];
    let list = function_name_list(subs);
    assert_eq!(list.len(), 4);
    assert_eq!(list[1].as_ref().unwrap(), &(2, "b".to_string()));
    assert!(list[2].is_err());
    assert_eq!(list[3].as_ref().unwrap(), &(5, "c".to_string()));
    let names = leading_oks(list);
    assert_eq!(names, vec![(0, "a".to_string()), (2, "b".to_string())]);
}

#[test]
fn a_parser_error_keeps_its_message_and_offset() {
    assert_eq!(
        malformed(parse_error("names out of order", 42)),
        AnalyzeError::Malformed { message: "names out of order".to_string(), offset: 42 },
    );
    assert_eq!(parse_error("x", 1), ParseError { message: "x".to_string(), offset: 1 });
    let r = region(RegionKind::Data, 3..9);
    assert_eq!((r.kind, r.start, r.end), (RegionKind::Data, 3, 9));
}

#[test]
fn a_truncated_binary_reports_where_it_ends() {
    // the export section claims 7 bytes but the binary ends after 3 of them
    let bytes = minimal_exported_wasm();
    let cut = &bytes[..21];
    match analyze(cut) {
        Err(AnalyzeError::Malformed { message, offset }) => {
            assert!(!message.is_empty());
            assert!(offset <= cut.len() as u64);
        },
        other => panic!("expected a parse error, got {:?}", other),
    }
}

#[test]
fn too_many_locals_is_reported_by_the_parser() {
    let mut bytes = minimal_exported_wasm();
    // the code section now holds one body declaring two runs of 0xffffffff i32 locals
    let code_at = bytes.len() - 6;
    bytes.truncate(code_at);
    let body = [0x02, 0xff, 0xff, 0xff, 0xff, 0x0f, 0x7f, 0xff, 0xff, 0xff, 0xff, 0x0f, 0x7f, 0x0b];
    bytes.extend_from_slice(&[0x0a, (body.len() + 2) as u8, 0x01, body.len() as u8]);
    bytes.extend_from_slice(&body);
    match analyze(&bytes) {
        Err(AnalyzeError::Malformed { message, .. }) => assert_eq!(message, "too many locals"),
        other => panic!("expected a parse error, got {:?}", other),
    }
}
