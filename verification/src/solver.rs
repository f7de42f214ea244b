//! The trailer solver: the search for a second trailer byte that keeps every
//! byte lane of the continued CRC32 clear of the framing sentinels.

use vstd::prelude::*;
use crate::crc::crc32_extend;
use crate::crc::crc32_continue_pair;

verus! {

/// A byte-lane value (already masked to 8 bits) avoids both framing
/// sentinels `0x00` and `0xFF`.
pub open spec fn lane_free(lane: u32) -> bool {
    1 <= lane && lane <= 254
}

/// Every one of the four byte lanes of `crc` avoids the framing sentinels.
pub open spec fn all_lanes_free(crc: u32) -> bool {
    &&& lane_free(crc & 0xFF)
    &&& lane_free((crc >> 8) & 0xFF)
    &&& lane_free((crc >> 16) & 0xFF)
    &&& lane_free((crc >> 24) & 0xFF)
}

/// Whether every byte lane of `crc` avoids the framing sentinels.
pub fn lanes_clear(crc: u32) -> (r: bool)
    ensures
        r == all_lanes_free(crc),
{
    let l0: u32 = crc & 0xFF;
    let l1: u32 = (crc >> 8) & 0xFF;
    let l2: u32 = (crc >> 16) & 0xFF;
    let l3: u32 = (crc >> 24) & 0xFF;
    1 <= l0 && l0 <= 254 && 1 <= l1 && l1 <= 254 && 1 <= l2 && l2 <= 254 && 1 <= l3 && l3 <= 254
}

/// The fixed first trailer byte: a framing marker for the start of the
/// trailer, chosen a priori and itself clear of both sentinels.
pub const TRAILER_FIRST: u8 = 0x06;

/// Candidate second byte `b` is acceptable for accumulator `a`: continuing
/// the CRC32 over the two trailer bytes leaves every byte lane sentinel-free.
pub open spec fn candidate_ok(a: u32, b: u8) -> bool {
    all_lanes_free(crc32_extend(a, seq![TRAILER_FIRST, b]))
}

/// The least acceptable candidate at or above `lo`, searching the domain
/// `lo..=254` in ascending order; `None` when the whole domain is exhausted.
pub open spec fn first_good(a: u32, lo: u8) -> Option<u8>
    decreases 255 - lo,
{
    if lo > 254 {
        None
    } else if candidate_ok(a, lo) {
        Some(lo)
    } else {
        first_good(a, (lo + 1) as u8)
    }
}

/// What the solver returns for accumulator `a`, as a pure mathematical value:
/// the fixed marker byte, the least acceptable second byte, and the CRC32
/// continued over the pair; `None` when no candidate in `1..=254` works.
pub open spec fn solve_spec(a: u32) -> Option<(Seq<u8>, u32)> {
    match first_good(a, 1) {
        Some(b) => Some((seq![TRAILER_FIRST, b], crc32_extend(a, seq![TRAILER_FIRST, b]))),
        None => None,
    }
}

/// The solver's concrete result, seen as the mathematical value it stands for.
pub open spec fn trailer_view(r: Option<([u8; 2], u32)>) -> Option<(Seq<u8>, u32)> {
    match r {
        Some(p) => Some((p.0@, p.1)),
        None => None,
    }
}

/// A found candidate is acceptable, lies in the searched domain, and nothing
/// below it is acceptable.
pub proof fn lemma_first_good_some(a: u32, lo: u8, b: u8)
    requires
        first_good(a, lo) == Some(b),
    ensures
        lo <= b <= 254,
        candidate_ok(a, b),
        forall|c: u8| lo <= c < b ==> !candidate_ok(a, c),
    decreases 255 - lo,
{
    if lo <= 254 && !candidate_ok(a, lo) {
        lemma_first_good_some(a, (lo + 1) as u8, b);
    }
}

/// An acceptable candidate with nothing acceptable below it is the one the
/// search finds.
pub proof fn lemma_first_good_from(a: u32, lo: u8, b: u8)
    requires
        lo <= b <= 254,
        candidate_ok(a, b),
        forall|c: u8| lo <= c < b ==> !candidate_ok(a, c),
    ensures
        first_good(a, lo) == Some(b),
    decreases b - lo,
{
    if lo < b {
        lemma_first_good_from(a, (lo + 1) as u8, b);
    }
}

/// When no candidate at or above `lo` is acceptable, the search exhausts.
pub proof fn lemma_first_good_none(a: u32, lo: u8)
    requires
        forall|c: u8| lo <= c <= 254 ==> !candidate_ok(a, c),
    ensures
        first_good(a, lo) is None,
    decreases 255 - lo,
{
    if lo <= 254 {
        lemma_first_good_none(a, (lo + 1) as u8);
    }
}

/// Sentinel exclusion: whenever the search succeeds, neither trailer byte nor
/// any byte lane of the resulting checksum equals `0x00` or `0xFF`.
pub proof fn lemma_sentinel_exclusion(a: u32)
    ensures
        match solve_spec(a) {
            Some(p) => {
                &&& p.0.len() == 2
                &&& 1 <= p.0[0] <= 254
                &&& 1 <= p.0[1] <= 254
                &&& all_lanes_free(p.1)
            },
            None => true,
        },
{
    if let Some(b) = first_good(a, 1) {
        lemma_first_good_some(a, 1, b);
    }
}

/// Correctness of continuation: when the accumulator is the CRC32 state
/// reached over a message, the checksum the solver pairs with its trailer is
/// exactly the CRC32 state reached over the message followed by that trailer,
/// so an independent full-message computation reproduces it.
pub proof fn lemma_solve_continuation(init: u32, msg: Seq<u8>)
    ensures
        match solve_spec(crc32_extend(init, msg)) {
            Some(p) => p.1 == crc32_extend(init, msg + p.0),
            None => true,
        },
{
    if let Some(b) = first_good(crc32_extend(init, msg), 1) {
        crate::crc::lemma_crc32_extend_concat(init, msg, seq![TRAILER_FIRST, b]);
    }
}

/// Given the CRC32 accumulator over the encoded payload so far, find a
/// two-byte trailer whose first byte is the fixed marker and whose second
/// byte is the least candidate in `1..=254` for which every byte lane of the
/// continued CRC32 avoids the sentinels `0x00` and `0xFF`. Returns the
/// trailer together with the continued checksum, or `None` when the whole
/// candidate domain is exhausted — a condition never observed for any
/// 32-bit accumulator, but reported rather than assumed away.
pub fn solve(accumulator: u32) -> (r: Option<([u8; 2], u32)>)
    ensures
        trailer_view(r) == solve_spec(accumulator),
        match r {
            Some(p) => {
                &&& p.0@.len() == 2
                &&& p.0@[0] == TRAILER_FIRST
                &&& 1 <= p.0@[1] <= 254
                &&& candidate_ok(accumulator, p.0@[1])
                &&& forall|c: u8| 1 <= c < p.0@[1] ==> !candidate_ok(accumulator, c)
                &&& p.1 == crc32_extend(accumulator, p.0@)
                &&& all_lanes_free(p.1)
            },
            None => forall|c: u8| 1 <= c <= 254 ==> !candidate_ok(accumulator, c),
        },
{
    let mut b: u8 = 1;
    while b <= 254
        invariant
            1 <= b <= 255,
            forall|c: u8| 1 <= c < b ==> !candidate_ok(accumulator, c),
        decreases 255 - b,
    {
        let crc = crc32_continue_pair(accumulator, TRAILER_FIRST, b);
        if lanes_clear(crc) {
            let trailer: [u8; 2] = [TRAILER_FIRST, b];
            proof {
                assert(trailer@ =~= seq![TRAILER_FIRST, b]);
                lemma_first_good_from(accumulator, 1, b);
            }
            return Some((trailer, crc));
        }
        b = b + 1;
    }
    proof {
        lemma_first_good_none(accumulator, 1);
    }
    None
}

} // verus!
