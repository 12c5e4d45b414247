//! The throughput benchmark's arithmetic: the amount to hash and the hashing
//! loop that each thread runs.

use vstd::prelude::*;
use crate::crc::{crc32_of, Crc32};
use crate::size::size_of_text;

verus! {

/// The amount a benchmark hashes when its size argument is no size: 4 GiB.
pub open spec fn default_bench_size() -> u64 {
    4_294_967_296u64
}

/// The number of bytes to hash for the `--bench` argument: the size it
/// denotes, or 4 GiB when it denotes none.
pub fn bench_size(arg: &str) -> (n: u64)
    ensures
        n == match size_of_text(arg@) {
            Some(s) => s,
            None => default_bench_size(),
        },
{
    match crate::size::parse_size(arg) {
        Some(s) => s,
        None => 4 * 1024 * 1024 * 1024,
    }
}

/// `b` written `n` times in a row.
pub open spec fn repeated(b: Seq<u8>, n: nat) -> Seq<u8>
    decreases n,
{
    if n == 0 {
        Seq::empty()
    } else {
        repeated(b, (n - 1) as nat) + b
    }
}

/// Hashes `buffer` over and over until at least `target` bytes have been
/// hashed. Returns how many were, which is the least multiple of the buffer's
/// length that is at least `target`, and the checksum of the bytes hashed.
pub fn bench_pass(buffer: &[u8], target: u64) -> (r: (u64, u32))
    requires
        buffer@.len() > 0,
        target + buffer@.len() - 1 <= u64::MAX,
    ensures
        r.0 >= target,
        r.0 < target + buffer@.len(),
        (r.0 as int) % (buffer@.len() as int) == 0,
        r.1 == crc32_of(repeated(buffer@, ((r.0 as int) / (buffer@.len() as int)) as nat)),
{
    let len = buffer.len() as u64;
    let mut crc = Crc32::new();
    let mut processed: u64 = 0;
    let ghost mut rounds: nat = 0;
    while processed < target
        invariant
            len == buffer@.len(),
            len > 0,
            target + len - 1 <= u64::MAX,
            processed < target + len,
            processed == rounds * len,
            crc@ == repeated(buffer@, rounds),
            crc@.len() == processed,
        decreases target + len - processed,
    {
        crc.update(buffer);
        proof {
            assert((rounds + 1) * len == rounds * len + len) by (nonlinear_arith);
            rounds = rounds + 1;
        }
        processed = processed + len;
    }
    assert((rounds * len) % (len as int) == 0 && (rounds * len) / (len as int) == rounds)
        by (nonlinear_arith)
        requires
            len > 0,
    ;
    (processed, crc.finalize())
}

} // verus!
