use stylus_profiler::analyzer::{analyze, FunctionInfo, WasmAnalysis};

fn function(index: u32, name: Option<&str>, body_size: usize) -> FunctionInfo {
    FunctionInfo {
        index,
        name: name.map(|n| n.to_string()),
        body_size,
        local_count: 1,
        instruction_count: 10,
    }
}

fn sample() -> WasmAnalysis {
    WasmAnalysis {
        file_size: 5000,
        functions: vec![
            function(0, None, 100),
            function(1, Some("transfer"), 2048),
            function(2, None, 100),
            function(3, Some("approve"), 1025),
            function(4, None, 1024),
        ],
        imports: vec![],
        exports: vec![],
        memory_pages: None,
        table_count: 0,
        custom_sections: vec![("name".to_string(), 300), ("producers".to_string(), 40)],
        data_segment_size: 64,
        schema_version: "1.0.0".to_string(),
        binary_size_bytes: 5000,
    }
}

#[test]
fn ranking_puts_largest_first_and_keeps_ties_in_order() {
    let a = sample();
    assert_eq!(a.functions_by_size(), vec![1, 3, 4, 0, 2]);
}

#[test]
fn ranking_of_no_functions_is_empty() {
    let mut a = sample();
    a.functions.clear();
    assert!(a.functions_by_size().is_empty());
}

#[test]
fn report_lists_functions_by_size_with_names_gas_and_hints() {
    let report = sample().to_report();
    assert_eq!(report.schema_version, "1.0.0");
    assert_eq!(report.binary_size_bytes, 5000);
    assert_eq!(report.total_code_size, 100 + 2048 + 100 + 1025 + 1024);
    assert_eq!(report.total_functions, 5);
    let names: Vec<&str> = report.functions.iter().map(|f| f.name.as_str()).collect();
    assert_eq!(names, vec!["transfer", "approve", "func_4", "func_0", "func_2"]);
    let first = &report.functions[0];
    assert_eq!(first.index, 1);
    assert_eq!(first.body_size, 2048);
    assert_eq!(first.instruction_count, 10);
    assert_eq!(first.estimated_gas, 10 + 3 + 204);
    assert_eq!(
        first.suggestion.as_deref(),
        Some("large function (2048 bytes), consider splitting")
    );
    assert_eq!(
        report.functions[1].suggestion.as_deref(),
        Some("large function (1025 bytes), consider splitting")
    );
    // exactly 1024 bytes is not large
    assert_eq!(report.functions[2].suggestion, None);
    assert_eq!(report.functions[3].suggestion, None);
}

#[test]
fn report_sections_are_code_data_then_custom() {
    let report = sample().to_report();
    let sections: Vec<(&str, usize, &str)> = report
        .sections
        .iter()
        .map(|s| (s.name.as_str(), s.size_bytes, s.kind.as_str()))
        .collect();
    assert_eq!(
        sections,
        vec![
            ("code", 4297, "code"),
            ("data", 64, "data"),
            ("name", 300, "custom"),
            ("producers", 40, "custom"),
        ]
    );
}

#[test]
fn report_of_analyzed_module() {
    let bytes = vec![
        0x00, 0x61, 0x73, 0x6d, 0x01, 0x00, 0x00, 0x00, 0x01, 0x04, 0x01, 0x60, 0x00, 0x00,
        0x03, 0x02, 0x01, 0x00, 0x07, 0x07, 0x01, 0x03, b'r', b'u', b'n', 0x00, 0x00, 0x0a,
        0x04, 0x01, 0x02, 0x00, 0x0b,
    ];
    let report = analyze(&bytes).unwrap().to_report();
    assert_eq!(report.total_functions, 1);
    assert_eq!(report.total_code_size, 2);
    assert_eq!(report.functions[0].name, "func_0");
    assert_eq!(report.functions[0].estimated_gas, 1);
    assert_eq!(report.sections.len(), 2);
}

#[test]
fn top_functions_are_a_prefix_of_the_ranking() {
    let a = sample();
    assert_eq!(a.top_functions(2), vec![1, 3]);
    assert_eq!(a.top_functions(0), Vec::<usize>::new());
    assert_eq!(a.top_functions(99), vec![1, 3, 4, 0, 2]);
}
