use stylus_profiler::analyzer::FunctionInfo;
use stylus_profiler::gas::estimate_gas;

#[test]
fn estimates_instruction_local_and_size_costs() {
    let func = FunctionInfo {
        index: 0,
        name: Some("hot_path".to_string()),
        body_size: 250,
        local_count: 4,
        instruction_count: 30,
    };

    assert_eq!(estimate_gas(&func), 30 + (4 * 3) + 25);
}

#[test]
fn size_overhead_rounds_down() {
    let func = FunctionInfo {
        index: 3,
        name: None,
        body_size: 19,
        local_count: 0,
        instruction_count: 7,
    };
    assert_eq!(estimate_gas(&func), 8);
}

#[test]
fn empty_function_costs_nothing() {
    let func = FunctionInfo { index: 0, name: None, body_size: 9, local_count: 0, instruction_count: 0 };
    assert_eq!(estimate_gas(&func), 0);
}

#[test]
fn estimate_ignores_index_and_name() {
    let a = FunctionInfo { index: 0, name: None, body_size: 123, local_count: 2, instruction_count: 9 };
    let b = FunctionInfo { index: 77, name: Some("x".to_string()), body_size: 123, local_count: 2, instruction_count: 9 };
    assert_eq!(estimate_gas(&a), estimate_gas(&b));
}
