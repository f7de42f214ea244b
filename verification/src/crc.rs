//! A mathematical model of the incremental CRC32 computation, and the one
//! trusted entry point into the `crc32fast` crate that performs it.

use vstd::prelude::*;

verus! {

/// One step of the CRC32 state update over a single byte, exactly as the
/// `crc32fast` hasher performs it. The concrete value is deliberately left
/// unspecified: nothing in this library depends on the polynomial itself,
/// only on the checksum being a pure, byte-by-byte function of the state.
pub uninterp spec fn crc32_step(state: u32, byte: u8) -> u32;

/// The CRC32 state reached by continuing a computation from `state` over
/// `data`, folding `crc32_step` over the bytes in order.
pub open spec fn crc32_extend(state: u32, data: Seq<u8>) -> u32
    decreases data.len(),
{
    if data.len() == 0 {
        state
    } else {
        crc32_extend(crc32_step(state, data[0]), data.skip(1))
    }
}

/// Relies on `crc32fast::Hasher::{new_with_initial, update, finalize}`:
/// continuing a CRC32 computation from a prior state over further bytes is
/// a pure function of the state and the bytes, applied one byte at a time.
#[verifier::external_body]
pub(crate) fn crc32_continue_pair(state: u32, b0: u8, b1: u8) -> (r: u32)
    ensures
        r == crc32_extend(state, seq![b0, b1]),
        r == crc32_step(crc32_step(state, b0), b1),
{
    let mut hasher = crc32fast::Hasher::new_with_initial(state);
    hasher.update(&[b0, b1]);
    hasher.finalize()
}

/// Continuation law: extending a CRC32 computation over concatenated data
/// gives the same state as extending over the first part and then continuing
/// over the second. A receiver that re-hashes a whole message followed by a
/// trailer therefore reproduces the checksum the solver computed by
/// continuing from the message's accumulator.
pub proof fn lemma_crc32_extend_concat(state: u32, first: Seq<u8>, second: Seq<u8>)
    ensures
        crc32_extend(state, first + second) == crc32_extend(crc32_extend(state, first), second),
    decreases first.len(),
{
    if first.len() == 0 {
        assert(first + second =~= second);
    } else {
        assert((first + second).skip(1) =~= first.skip(1) + second);
        lemma_crc32_extend_concat(crc32_step(state, first[0]), first.skip(1), second);
    }
}

} // verus!
