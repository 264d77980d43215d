//! Stylus contract size limits and the check of a binary against them.

use vstd::prelude::*;

verus! {

/// Largest uncompressed WASM binary Stylus accepts (128 KB, as of ArbOS 32).
pub const MAX_UNCOMPRESSED_WASM: usize = 128 * 1024;

/// Largest brotli-compressed WASM binary Stylus accepts (24 KB).
pub const MAX_COMPRESSED_WASM: usize = 24 * 1024;

/// How a binary of a given size stands against the Stylus limits.
pub struct SizeLimitCheck {
    pub uncompressed_size: usize,
    pub estimated_compressed: usize,
    pub uncompressed_ok: bool,
    pub compressed_ok: bool,
    pub headroom_uncompressed: usize,
    pub headroom_compressed: usize,
}

/// The compressed size assumed for a binary: brotli typically achieves 3-5x
/// on WASM, so a conservative 4x is taken.
pub open spec fn estimated_compressed_size(file_size: nat) -> nat {
    file_size / 4
}

/// Whether `check` is the verdict on a binary of `file_size` bytes.
pub open spec fn is_limit_check(check: SizeLimitCheck, file_size: usize) -> bool {
    let est = estimated_compressed_size(file_size as nat);
    &&& check.uncompressed_size == file_size
    &&& check.estimated_compressed == est
    &&& check.uncompressed_ok == (file_size <= MAX_UNCOMPRESSED_WASM)
    &&& check.compressed_ok == (est <= MAX_COMPRESSED_WASM)
    &&& check.headroom_uncompressed == (if check.uncompressed_ok {
        MAX_UNCOMPRESSED_WASM - file_size
    } else {
        0
    })
    &&& check.headroom_compressed == (if check.compressed_ok {
        MAX_COMPRESSED_WASM - est
    } else {
        0
    })
}

/// Checks a binary of `file_size` bytes against both Stylus size limits.
pub fn check_limits(file_size: usize) -> (check: SizeLimitCheck)
    ensures
        is_limit_check(check, file_size),
{
    let uncompressed_ok = file_size <= MAX_UNCOMPRESSED_WASM;
    let estimated_compressed = file_size / 4;
    let compressed_ok = estimated_compressed <= MAX_COMPRESSED_WASM;
    SizeLimitCheck {
        uncompressed_size: file_size,
        estimated_compressed: estimated_compressed,
        uncompressed_ok,
        compressed_ok,
        headroom_uncompressed: if uncompressed_ok {
            MAX_UNCOMPRESSED_WASM - file_size
        } else {
            0
        },
        headroom_compressed: if compressed_ok {
            MAX_COMPRESSED_WASM - estimated_compressed
        } else {
            0
        },
    }
}

/// By how much the estimated compressed size of a binary of `file_size`
/// bytes goes over the compressed limit; zero when it is within it.
pub fn compressed_overage(file_size: usize) -> (over: usize)
    ensures
        over == (if estimated_compressed_size(file_size as nat) > MAX_COMPRESSED_WASM {
            estimated_compressed_size(file_size as nat) - MAX_COMPRESSED_WASM
        } else {
            0
        }),
{
    let check = check_limits(file_size);
    if check.compressed_ok {
        0
    } else {
        check.estimated_compressed - MAX_COMPRESSED_WASM
    }
}

/// A binary within the compressed limit is within the uncompressed one too:
/// four times the compressed limit is below the uncompressed limit.
pub proof fn lemma_compressed_ok_implies_uncompressed_ok(check: SizeLimitCheck, file_size: usize)
    requires
        is_limit_check(check, file_size),
        check.compressed_ok,
    ensures
        check.uncompressed_ok,
{
}

/// Whatever the size, the headroom and the size it is measured from never
/// exceed the limit, and they add up to it exactly when the size is within it.
pub proof fn lemma_headroom_accounts_for_limit(check: SizeLimitCheck, file_size: usize)
    requires
        is_limit_check(check, file_size),
    ensures
        check.uncompressed_ok ==> check.uncompressed_size + check.headroom_uncompressed
            == MAX_UNCOMPRESSED_WASM,
        check.compressed_ok ==> check.estimated_compressed + check.headroom_compressed
            == MAX_COMPRESSED_WASM,
        !check.uncompressed_ok ==> check.headroom_uncompressed == 0,
        !check.compressed_ok ==> check.headroom_compressed == 0,
{
}

} // verus!
