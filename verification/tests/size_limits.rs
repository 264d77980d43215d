use stylus_profiler::size::{check_limits, compressed_overage, MAX_COMPRESSED_WASM, MAX_UNCOMPRESSED_WASM};

#[test]
fn test_normal_contract() {
    let check = check_limits(10 * 1024); // 10KB
    assert!(check.uncompressed_ok);
    assert!(check.compressed_ok);
}

#[test]
fn test_oversized_uncompressed_contract() {
    let check = check_limits(130 * 1024); // 130KB (>128KB)
    assert!(!check.uncompressed_ok);
}

#[test]
fn test_oversized_compressed_contract() {
    // If file is 100KB, estimated compressed is 25KB (>24KB)
    let check = check_limits(100 * 1024);
    assert!(check.uncompressed_ok);
    assert!(!check.compressed_ok);
}

#[test]
fn flags_contracts_over_compressed_limit() {
    let oversized = (MAX_COMPRESSED_WASM * 4) + 4;

    let check = check_limits(oversized);

    assert_eq!(check.uncompressed_size, oversized);
    assert!(check.uncompressed_ok);
    assert_eq!(check.estimated_compressed, MAX_COMPRESSED_WASM + 1);
    assert!(!check.compressed_ok);
    assert_eq!(check.headroom_compressed, 0);
}

#[test]
fn reports_headroom_for_small_contracts() {
    let check = check_limits(1024);

    assert!(check.uncompressed_ok);
    assert!(check.compressed_ok);
    assert_eq!(check.headroom_uncompressed, MAX_UNCOMPRESSED_WASM - 1024);
    assert_eq!(check.headroom_compressed, MAX_COMPRESSED_WASM - 256);
}

#[test]
fn limits_are_inclusive_at_the_boundary() {
    let at_limit = check_limits(MAX_UNCOMPRESSED_WASM);
    assert!(at_limit.uncompressed_ok);
    assert_eq!(at_limit.headroom_uncompressed, 0);
    let over = check_limits(MAX_UNCOMPRESSED_WASM + 1);
    assert!(!over.uncompressed_ok);
    assert_eq!(over.headroom_uncompressed, 0);

    // 4 * 24 KB + 3 still rounds down to exactly 24 KB compressed
    let compressed_at_limit = check_limits(MAX_COMPRESSED_WASM * 4 + 3);
    assert_eq!(compressed_at_limit.estimated_compressed, MAX_COMPRESSED_WASM);
    assert!(compressed_at_limit.compressed_ok);
    assert_eq!(compressed_at_limit.headroom_compressed, 0);
}

#[test]
fn empty_binary_has_full_headroom() {
    let check = check_limits(0);
    assert_eq!(check.estimated_compressed, 0);
    assert_eq!(check.headroom_uncompressed, 131072);
    assert_eq!(check.headroom_compressed, 24576);
}

#[test]
fn compressed_ok_implies_uncompressed_ok_on_samples() {
    for size in [0usize, 1, 4095, 98307, 98308, 131072, 131073, 1 << 20] {
        let check = check_limits(size);
        if check.compressed_ok {
            assert!(check.uncompressed_ok);
        }
    }
}

#[test]
fn overage_is_how_far_the_estimate_exceeds_the_limit() {
    assert_eq!(compressed_overage(1024), 0);
    assert_eq!(compressed_overage(MAX_COMPRESSED_WASM * 4 + 3), 0);
    assert_eq!(compressed_overage(MAX_COMPRESSED_WASM * 4 + 4), 1);
    assert_eq!(compressed_overage(100 * 1024), 1024);
}
