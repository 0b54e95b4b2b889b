//! Wraparound-aware sequence-number arithmetic.
//!
//! Sequence numbers live in `[0, max_sequence]` and wrap back to 0 after
//! `max_sequence`. Every ordering decision in the library goes through
//! [`spec_more_recent`], never through the raw integer order.

use vstd::prelude::*;

verus! {

/// `s1` is the more recent of the two under forward wraparound: either it is
/// numerically larger by at most half the sequence space, or it is
/// numerically smaller because it has already wrapped past `max_sequence`.
pub open spec fn spec_more_recent(s1: u32, s2: u32, max_sequence: u32) -> bool {
    (s1 > s2 && s1 - s2 <= max_sequence / 2) || (s2 > s1 && s2 - s1 > max_sequence / 2)
}

/// Wraparound-aware "more recent than" comparison of two sequence numbers.
pub fn sequence_more_recent(s1: &u32, s2: &u32, max_sequence: &u32) -> (r: bool)
    ensures
        r == spec_more_recent(*s1, *s2, *max_sequence),
{
    (*s1 > *s2 && *s1 - *s2 <= *max_sequence / 2)
        || (*s2 > *s1 && *s2 - *s1 > *max_sequence / 2)
}

/// Recency is a strict ordering of any two distinct sequence numbers: exactly
/// one of the two directions holds, and no number is more recent than itself.
pub proof fn lemma_more_recent_total(a: u32, b: u32, max_sequence: u32)
    ensures
        a != b ==> (spec_more_recent(a, b, max_sequence) != spec_more_recent(
            b,
            a,
            max_sequence,
        )),
        !spec_more_recent(a, a, max_sequence),
{
}

/// How many ack-window slots behind `ack` the number `sequence` sits: 0 for
/// the packet immediately preceding `ack`, counting up as `sequence` gets
/// older, and wrapping through `max_sequence` when `sequence` is numerically
/// larger than `ack`.
pub open spec fn spec_bit_index(sequence: u32, ack: u32, max_sequence: u32) -> int {
    if sequence > ack {
        ack + max_sequence - sequence
    } else {
        ack - 1 - sequence
    }
}

/// Ack-window slot of `sequence` relative to `ack`. The caller must already
/// know that `sequence` is strictly older than `ack`; handing a newer (or the
/// same) sequence number in is a bookkeeping error.
pub fn bit_index_for_sequence(sequence: u32, ack: u32, max_sequence: u32) -> (r: u32)
    requires
        sequence != ack,
        !spec_more_recent(sequence, ack, max_sequence),
        sequence <= max_sequence,
        ack <= max_sequence,
    ensures
        r == spec_bit_index(sequence, ack, max_sequence),
{
    if sequence > ack {
        ack + (max_sequence - sequence)
    } else {
        ack - 1 - sequence
    }
}

} // verus!
