use stylus_profiler::analyzer::{FunctionInfo, WasmAnalysis};
use stylus_profiler::compare::{compare_analyses, SizeTrend};
use stylus_profiler::display::{optimization_hints, Hint};

fn analysis(file_size: usize, bodies: &[usize]) -> WasmAnalysis {
    WasmAnalysis {
        file_size,
        functions: bodies
            .iter()
            .enumerate()
            .map(|(i, b)| FunctionInfo {
                index: i as u32,
                name: None,
                body_size: *b,
                local_count: 0,
                instruction_count: 0,
            })
            .collect(),
        imports: vec![],
        exports: vec![],
        memory_pages: None,
        table_count: 0,
        custom_sections: vec![],
        data_segment_size: 0,
        schema_version: "1.0.0".to_string(),
        binary_size_bytes: file_size,
    }
}

#[test]
fn comparison_reports_growth() {
    let old = analysis(1000, &[100, 200]);
    let new = analysis(1500, &[100, 200, 400]);
    let c = compare_analyses(&old, &new);
    assert_eq!(c.size_diff, 500);
    assert_eq!(c.code_diff, 400);
    assert_eq!(c.func_diff, 1);
    assert_eq!(c.trend, SizeTrend::Grew);
}

#[test]
fn comparison_is_antisymmetric() {
    let old = analysis(1000, &[100, 200]);
    let new = analysis(1500, &[100, 200, 400]);
    let back = compare_analyses(&new, &old);
    assert_eq!(back.size_diff, -500);
    assert_eq!(back.code_diff, -400);
    assert_eq!(back.func_diff, -1);
    assert_eq!(back.trend, SizeTrend::Shrank);
}

#[test]
fn comparison_with_itself_is_unchanged() {
    let a = analysis(777, &[1, 2, 3]);
    let c = compare_analyses(&a, &a);
    assert_eq!((c.size_diff, c.code_diff, c.func_diff), (0, 0, 0));
    assert_eq!(c.trend, SizeTrend::Unchanged);
}

#[test]
fn no_hints_for_a_small_clean_binary() {
    assert!(optimization_hints(&analysis(1024, &[10])).is_empty());
}

#[test]
fn hints_in_order() {
    let mut a = analysis(100 * 1024, &vec![1; 201]);
    a.custom_sections = vec![
        ("name".to_string(), 5000),
        ("small".to_string(), 1024),
        (".debug_info".to_string(), 2000),
    ];
    a.data_segment_size = 4097;
    a.imports = (0..31).map(|i| format!("env.f{}", i)).collect();
    let hints = optimization_hints(&a);
    assert_eq!(hints.len(), 6);
    assert!(matches!(&hints[0], Hint::StripCustomSection { name, size: 5000 } if name == "name"));
    assert!(matches!(&hints[1], Hint::StripCustomSection { name, size: 2000 } if name == ".debug_info"));
    assert!(matches!(hints[2], Hint::LazyLoadData { size: 4097 }));
    assert!(matches!(hints[3], Hint::InlineHelpers { functions: 201 }));
    assert!(matches!(hints[4], Hint::ReviewImports { imports: 31 }));
    assert!(matches!(hints[5], Hint::OverCompressedLimit));
}

#[test]
fn hint_thresholds_are_strict() {
    let mut a = analysis(96 * 1024 + 3, &vec![1; 200]);
    a.custom_sections = vec![("name".to_string(), 1024)];
    a.data_segment_size = 4096;
    a.imports = (0..30).map(|i| format!("env.f{}", i)).collect();
    assert!(optimization_hints(&a).is_empty());
}
