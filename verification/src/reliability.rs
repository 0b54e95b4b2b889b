//! The reliability bookkeeping engine: local and remote sequence tracking,
//! the four sliding-window queues (sent, pending-ack, received, acked),
//! ack-bitmask generation and processing, RTT smoothing, timed eviction and
//! bandwidth statistics.
//!
//! Time is measured in integer milliseconds. Ages accumulate with
//! saturating addition; RTT smoothing moves one tenth of the gap between
//! the newly acked record's age and the current estimate, rounding the
//! moved tenth toward zero.

use crate::queue::{
    adjacent_sorted, distinct_sequences, has_sequence, lemma_pairwise_implies_adjacent,
    lemma_spec_insert_sorted_props, lemma_suffix_props, pairwise_sorted, seqs_below,
    spec_insert_sorted, times_descending, PacketData, PacketQueue,
};
use crate::sequence::{
    bit_index_for_sequence, sequence_more_recent, spec_bit_index, spec_more_recent,
};
use vstd::prelude::*;

verus! {

/// The sequence number that follows `local` in a space wrapping at `max`.
pub open spec fn spec_next_sequence(local: u32, max: u32) -> u32 {
    if local >= max {
        0
    } else {
        (local + 1) as u32
    }
}

/// Addition that sticks at the largest representable age.
pub open spec fn spec_sat_add(a: u32, b: u32) -> u32 {
    if a + b <= u32::MAX {
        (a + b) as u32
    } else {
        u32::MAX
    }
}

/// One tick of RTT smoothing: move one tenth of the distance from the
/// current estimate toward the newly measured age, rounding toward zero.
pub open spec fn spec_rtt_step(rtt: u32, time: u32) -> u32 {
    if time >= rtt {
        (rtt + (time - rtt) / 10) as u32
    } else {
        (rtt - (rtt - time) / 10) as u32
    }
}

/// RTT after smoothing over the ages of `s`, oldest position first.
pub open spec fn spec_rtt_after(rtt: u32, s: Seq<PacketData>) -> u32
    decreases s.len(),
{
    if s.len() == 0 {
        rtt
    } else {
        spec_rtt_step(spec_rtt_after(rtt, s.drop_last()), s.last().time)
    }
}

/// Whether an ack number plus bitmask acknowledges the record: either it is
/// the acked sequence itself, or it sits at most 31 slots behind it and its
/// bit is set.
pub open spec fn spec_acked_by(p: PacketData, ack: u32, ack_bits: u32, max_sequence: u32) -> bool {
    p.sequence == ack || (!spec_more_recent(p.sequence, ack, max_sequence) && ({
        let idx = spec_bit_index(p.sequence, ack, max_sequence);
        0 <= idx <= 31 && (1u32 & (ack_bits >> (idx as u32))) != 0
    }))
}

/// The records of `s` that `ack`/`ack_bits` acknowledges, in queue order.
pub open spec fn acked_records(
    s: Seq<PacketData>,
    ack: u32,
    ack_bits: u32,
    max_sequence: u32,
) -> Seq<PacketData>
    decreases s.len(),
{
    if s.len() == 0 {
        Seq::empty()
    } else {
        let rest = acked_records(s.drop_last(), ack, ack_bits, max_sequence);
        if spec_acked_by(s.last(), ack, ack_bits, max_sequence) {
            rest.push(s.last())
        } else {
            rest
        }
    }
}

/// The records of `s` that the ack leaves pending, in queue order.
pub open spec fn unacked_records(
    s: Seq<PacketData>,
    ack: u32,
    ack_bits: u32,
    max_sequence: u32,
) -> Seq<PacketData>
    decreases s.len(),
{
    if s.len() == 0 {
        Seq::empty()
    } else {
        let rest = unacked_records(s.drop_last(), ack, ack_bits, max_sequence);
        if spec_acked_by(s.last(), ack, ack_bits, max_sequence) {
            rest
        } else {
            rest.push(s.last())
        }
    }
}

/// The sequence numbers of `s`, in order.
pub open spec fn sequences_of(s: Seq<PacketData>) -> Seq<u32>
    decreases s.len(),
{
    if s.len() == 0 {
        Seq::empty()
    } else {
        sequences_of(s.drop_last()).push(s.last().sequence)
    }
}

/// The acked queue after sorted-inserting each of `items` in order.
pub open spec fn insert_all(q: Seq<PacketData>, items: Seq<PacketData>, max_sequence: u32) -> Seq<
    PacketData,
>
    decreases items.len(),
{
    if items.len() == 0 {
        q
    } else {
        spec_insert_sorted(insert_all(q, items.drop_last(), max_sequence), items.last(), max_sequence)
    }
}

/// The ack bitmask the received queue produces for `ack`: walking from the
/// front, stopping at the first record that is `ack` or newer, and setting
/// the window bit of every older record that is at most 31 slots back.
pub open spec fn spec_ack_bits_scan(
    s: Seq<PacketData>,
    ack: u32,
    max_sequence: u32,
    k: int,
    acc: u32,
) -> u32
    decreases s.len() - k,
{
    if k < 0 || k >= s.len() {
        acc
    } else if s[k].sequence == ack || spec_more_recent(s[k].sequence, ack, max_sequence) {
        acc
    } else {
        let idx = spec_bit_index(s[k].sequence, ack, max_sequence);
        let acc2 = if 0 <= idx <= 31 {
            acc | (1u32 << (idx as u32))
        } else {
            acc
        };
        spec_ack_bits_scan(s, ack, max_sequence, k + 1, acc2)
    }
}

/// The ack bitmask generated from a received queue.
pub open spec fn spec_generate_ack_bits(s: Seq<PacketData>, ack: u32, max_sequence: u32) -> u32 {
    spec_ack_bits_scan(s, ack, max_sequence, 0, 0)
}

/// Total payload bytes recorded in `s`.
pub open spec fn sum_sizes(s: Seq<PacketData>) -> int
    decreases s.len(),
{
    if s.len() == 0 {
        0
    } else {
        sum_sizes(s.drop_last()) + s.last().size
    }
}

/// Total payload bytes of the records of `s` at least `min_time` old.
pub open spec fn sum_sizes_at_least(s: Seq<PacketData>, min_time: u32) -> int
    decreases s.len(),
{
    if s.len() == 0 {
        0
    } else {
        sum_sizes_at_least(s.drop_last(), min_time) + (if s.last().time >= min_time {
            s.last().size as int
        } else {
            0
        })
    }
}

/// The queue with every age advanced by `delta`, saturating.
pub open spec fn spec_aged(s: Seq<PacketData>, delta: u32) -> Seq<PacketData> {
    Seq::new(
        s.len(),
        |i: int| PacketData { time: spec_sat_add(s[i].time, delta), ..s[i] },
    )
}

/// Index of the first record, from `k` on, no older than the eviction
/// threshold; `s.len()` when every record has expired.
pub open spec fn fresh_index_from(s: Seq<PacketData>, threshold: u32, k: int) -> int
    decreases s.len() - k,
{
    if k < 0 || k >= s.len() {
        s.len() as int
    } else if s[k].time > threshold {
        fresh_index_from(s, threshold, k + 1)
    } else {
        k
    }
}

/// How many leading records an age-based eviction at `threshold` drops.
pub open spec fn fresh_index(s: Seq<PacketData>, threshold: u32) -> int {
    fresh_index_from(s, threshold, 0)
}

/// Index of the first record, from `k` on, more recent than the minimum
/// kept sequence; `s.len()` when every record falls outside the window.
pub open spec fn recent_index_from(s: Seq<PacketData>, min_seq: u32, max_sequence: u32, k: int) -> int
    decreases s.len() - k,
{
    if k < 0 || k >= s.len() {
        s.len() as int
    } else if !spec_more_recent(s[k].sequence, min_seq, max_sequence) {
        recent_index_from(s, min_seq, max_sequence, k + 1)
    } else {
        k
    }
}

/// How many leading records the received-window eviction drops.
pub open spec fn recent_index(s: Seq<PacketData>, min_seq: u32, max_sequence: u32) -> int {
    recent_index_from(s, min_seq, max_sequence, 0)
}

proof fn lemma_fresh_index_from_bounds(s: Seq<PacketData>, threshold: u32, k: int)
    requires
        0 <= k <= s.len(),
    ensures
        k <= fresh_index_from(s, threshold, k) <= s.len(),
    decreases s.len() - k,
{
    if k < s.len() && s[k].time > threshold {
        lemma_fresh_index_from_bounds(s, threshold, k + 1);
    }
}

/// An age-based eviction drops between none and all of the records.
pub proof fn lemma_fresh_index_bounds(s: Seq<PacketData>, threshold: u32)
    ensures
        0 <= fresh_index(s, threshold) <= s.len(),
{
    lemma_fresh_index_from_bounds(s, threshold, 0);
}

proof fn lemma_recent_index_from_bounds(s: Seq<PacketData>, min_seq: u32, max_sequence: u32, k: int)
    requires
        0 <= k <= s.len(),
    ensures
        k <= recent_index_from(s, min_seq, max_sequence, k) <= s.len(),
    decreases s.len() - k,
{
    if k < s.len() && !spec_more_recent(s[k].sequence, min_seq, max_sequence) {
        lemma_recent_index_from_bounds(s, min_seq, max_sequence, k + 1);
    }
}

/// The received-window eviction drops between none and all of the records.
pub proof fn lemma_recent_index_bounds(s: Seq<PacketData>, min_seq: u32, max_sequence: u32)
    ensures
        0 <= recent_index(s, min_seq, max_sequence) <= s.len(),
{
    lemma_recent_index_from_bounds(s, min_seq, max_sequence, 0);
}

/// The oldest sequence number the received queue keeps, 34 packets behind
/// the latest one, wrapping through `max_sequence`.
pub open spec fn spec_received_min(latest: u32, max_sequence: u32) -> u32 {
    if latest >= 34 {
        (latest - 34) as u32
    } else {
        (max_sequence - (34 - latest)) as u32
    }
}

/// Payload sizes sum over concatenation, and never negatively.
pub proof fn lemma_sum_concat(a: Seq<PacketData>, b: Seq<PacketData>)
    ensures
        sum_sizes(a + b) == sum_sizes(a) + sum_sizes(b),
        sum_sizes(a) >= 0,
        sum_sizes(b) >= 0,
    decreases b.len(),
{
    lemma_sum_nonneg(a);
    lemma_sum_nonneg(b);
    if b.len() == 0 {
        assert(a + b =~= a);
    } else {
        lemma_sum_concat(a, b.drop_last());
        assert((a + b).drop_last() =~= a + b.drop_last());
        assert((a + b).last() == b.last());
    }
}

pub proof fn lemma_sum_nonneg(s: Seq<PacketData>)
    ensures
        sum_sizes(s) >= 0,
    decreases s.len(),
{
    if s.len() > 0 {
        lemma_sum_nonneg(s.drop_last());
    }
}

/// The age-restricted byte total never exceeds the full byte total.
pub proof fn lemma_sum_at_least_bound(s: Seq<PacketData>, min_time: u32)
    ensures
        0 <= sum_sizes_at_least(s, min_time) <= sum_sizes(s),
    decreases s.len(),
{
    if s.len() > 0 {
        lemma_sum_at_least_bound(s.drop_last(), min_time);
    }
}

/// Aging keeps length, sequence numbers, sizes and every ordering
/// property; ages stay descending because everything ages alike.
pub proof fn lemma_aged_props(s: Seq<PacketData>, delta: u32, max_sequence: u32)
    ensures
        spec_aged(s, delta).len() == s.len(),
        forall|i: int|
            0 <= i < s.len() ==> (#[trigger] spec_aged(s, delta)[i]).sequence == s[i].sequence
                && spec_aged(s, delta)[i].size == s[i].size,
        adjacent_sorted(s, max_sequence) ==> adjacent_sorted(spec_aged(s, delta), max_sequence),
        pairwise_sorted(s, max_sequence) ==> pairwise_sorted(spec_aged(s, delta), max_sequence),
        seqs_below(s, max_sequence) ==> seqs_below(spec_aged(s, delta), max_sequence),
        distinct_sequences(s) ==> distinct_sequences(spec_aged(s, delta)),
        times_descending(s) ==> times_descending(spec_aged(s, delta)),
        sum_sizes(spec_aged(s, delta)) == sum_sizes(s),
    decreases s.len(),
{
    let a = spec_aged(s, delta);
    if adjacent_sorted(s, max_sequence) {
        assert forall|i: int| #![trigger a[i]] 0 <= i < a.len() - 1 implies (a[i + 1].sequence
            == a[i].sequence || spec_more_recent(a[i + 1].sequence, a[i].sequence, max_sequence)) by {
            assert(a[i].sequence == s[i].sequence);
            assert(a[i + 1].sequence == s[i + 1].sequence);
        }
    }
    if s.len() > 0 {
        lemma_aged_props(s.drop_last(), delta, max_sequence);
        assert(a.drop_last() =~= spec_aged(s.drop_last(), delta));
        assert(a.last().size == s.last().size);
    }
}

/// An ack splits a queue into its acked and still-pending records.
pub proof fn lemma_partition_len(s: Seq<PacketData>, ack: u32, ack_bits: u32, max_sequence: u32)
    ensures
        acked_records(s, ack, ack_bits, max_sequence).len() + unacked_records(
            s,
            ack,
            ack_bits,
            max_sequence,
        ).len() == s.len(),
    decreases s.len(),
{
    if s.len() > 0 {
        lemma_partition_len(s.drop_last(), ack, ack_bits, max_sequence);
    }
}

/// The still-pending records are records of the original queue, in the
/// original order: total recency order, descending ages and the sequence
/// bound all survive, and none of them is acknowledged.
pub proof fn lemma_unacked_preserves(
    s: Seq<PacketData>,
    ack: u32,
    ack_bits: u32,
    max_sequence: u32,
)
    ensures
        pairwise_sorted(s, max_sequence) ==> pairwise_sorted(
            unacked_records(s, ack, ack_bits, max_sequence),
            max_sequence,
        ),
        times_descending(s) ==> times_descending(unacked_records(s, ack, ack_bits, max_sequence)),
        seqs_below(s, max_sequence) ==> seqs_below(
            unacked_records(s, ack, ack_bits, max_sequence),
            max_sequence,
        ),
        forall|j: int|
            0 <= j < unacked_records(s, ack, ack_bits, max_sequence).len() ==> !spec_acked_by(
                #[trigger] unacked_records(s, ack, ack_bits, max_sequence)[j],
                ack,
                ack_bits,
                max_sequence,
            ),
        forall|j: int|
            0 <= j < unacked_records(s, ack, ack_bits, max_sequence).len() ==> exists|i: int|
                0 <= i < s.len() && s[i] == #[trigger] unacked_records(
                    s,
                    ack,
                    ack_bits,
                    max_sequence,
                )[j],
    decreases s.len(),
{
    if s.len() > 0 {
        let t = s.drop_last();
        lemma_unacked_preserves(t, ack, ack_bits, max_sequence);
        let u = unacked_records(t, ack, ack_bits, max_sequence);
        let r = unacked_records(s, ack, ack_bits, max_sequence);
        assert(forall|i: int| 0 <= i < t.len() ==> t[i] == s[i]);
        assert forall|j: int| 0 <= j < r.len() implies exists|i: int|
            0 <= i < s.len() && s[i] == #[trigger] r[j] by {
            if j < u.len() {
                let i0 = choose|i: int| 0 <= i < t.len() && t[i] == u[j];
                assert(s[i0] == r[j]);
            } else {
                assert(s[s.len() - 1] == r[j]);
            }
        }
        if !spec_acked_by(s.last(), ack, ack_bits, max_sequence) {
            if pairwise_sorted(s, max_sequence) {
                assert forall|i: int, j: int| 0 <= i < j < r.len() implies spec_more_recent(
                    r[j].sequence,
                    r[i].sequence,
                    max_sequence,
                ) by {
                    if j < u.len() {
                        assert(pairwise_sorted(t, max_sequence));
                    } else {
                        let i0 = choose|i0: int| 0 <= i0 < t.len() && t[i0] == u[i];
                        assert(spec_more_recent(s[s.len() - 1].sequence, s[i0].sequence, max_sequence));
                    }
                }
            }
            if times_descending(s) {
                assert forall|i: int, j: int| 0 <= i < j < r.len() implies r[i].time
                    >= r[j].time by {
                    if j < u.len() {
                        assert(times_descending(t));
                    } else {
                        let i0 = choose|i0: int| 0 <= i0 < t.len() && t[i0] == u[i];
                        assert(s[i0].time >= s[s.len() - 1].time);
                    }
                }
            }
        }
    }
}

proof fn lemma_scan_keeps_bit(
    s: Seq<PacketData>,
    ack: u32,
    max_sequence: u32,
    k: int,
    acc: u32,
    bit: u32,
)
    requires
        bit < 32,
        (1u32 & (acc >> bit)) != 0,
    ensures
        (1u32 & (spec_ack_bits_scan(s, ack, max_sequence, k, acc) >> bit)) != 0,
    decreases s.len() - k,
{
    assert(forall|a: u32, x: u32, b: u32|
        b < 32 && (1u32 & (a >> b)) != 0 ==> (1u32 & ((a | x) >> b)) != 0) by (bit_vector);
    if 0 <= k < s.len() && !(s[k].sequence == ack || spec_more_recent(
        s[k].sequence,
        ack,
        max_sequence,
    )) {
        let idx = spec_bit_index(s[k].sequence, ack, max_sequence);
        let acc2 = if 0 <= idx <= 31 {
            acc | (1u32 << (idx as u32))
        } else {
            acc
        };
        lemma_scan_keeps_bit(s, ack, max_sequence, k + 1, acc2, bit);
    }
}

proof fn lemma_scan_reaches(
    s: Seq<PacketData>,
    ack: u32,
    max_sequence: u32,
    k: int,
    acc: u32,
    i: int,
)
    requires
        0 <= k <= i < s.len(),
        pairwise_sorted(s, max_sequence),
        forall|j: int|
            0 <= j < s.len() ==> !spec_more_recent(
                #[trigger] s[j].sequence,
                ack,
                max_sequence,
            ),
        s[i].sequence != ack,
        0 <= spec_bit_index(s[i].sequence, ack, max_sequence) <= 31,
    ensures
        (1u32 & (spec_ack_bits_scan(s, ack, max_sequence, k, acc) >> (spec_bit_index(
            s[i].sequence,
            ack,
            max_sequence,
        ) as u32))) != 0,
    decreases i - k,
{
    let idx = spec_bit_index(s[i].sequence, ack, max_sequence);
    if k < i {
        assert(spec_more_recent(s[i].sequence, s[k].sequence, max_sequence));
        assert(s[k].sequence != ack);
        let idx_k = spec_bit_index(s[k].sequence, ack, max_sequence);
        let acc2 = if 0 <= idx_k <= 31 {
            acc | (1u32 << (idx_k as u32))
        } else {
            acc
        };
        lemma_scan_reaches(s, ack, max_sequence, k + 1, acc2, i);
    } else {
        let acc2 = acc | (1u32 << (idx as u32));
        assert(forall|a: u32, b: u32| b < 32 ==> (1u32 & ((a | (1u32 << b)) >> b)) != 0)
            by (bit_vector);
        lemma_scan_keeps_bit(s, ack, max_sequence, k + 1, acc2, idx as u32);
    }
}

proof fn lemma_acked_records_complete(
    s: Seq<PacketData>,
    ack: u32,
    ack_bits: u32,
    max_sequence: u32,
    j: int,
)
    requires
        0 <= j < s.len(),
        spec_acked_by(s[j], ack, ack_bits, max_sequence),
    ensures
        exists|k: int|
            0 <= k < acked_records(s, ack, ack_bits, max_sequence).len() && #[trigger] acked_records(
                s,
                ack,
                ack_bits,
                max_sequence,
            )[k] == s[j],
    decreases s.len(),
{
    let r = acked_records(s, ack, ack_bits, max_sequence);
    if j == s.len() - 1 {
        assert(r[r.len() - 1] == s[j]);
    } else {
        let t = s.drop_last();
        assert(t[j] == s[j]);
        lemma_acked_records_complete(t, ack, ack_bits, max_sequence, j);
        let k = choose|k: int|
            0 <= k < acked_records(t, ack, ack_bits, max_sequence).len() && acked_records(
                t,
                ack,
                ack_bits,
                max_sequence,
            )[k] == t[j];
        assert(r[k] == s[j]);
    }
}

/// Ack round-trip: take a peer whose received queue holds the sequence
/// number `received[i].sequence` and whose remote sequence `ack` is at
/// least as recent as everything received. If that number is `ack` itself
/// or sits within the 32-slot backward window, then the bitmask the peer
/// generates, fed back through ack processing, acknowledges the matching
/// record `pending[j]` of the sender's pending queue: it lands in the
/// acked records (whose sequences become the per-tick ack list).
pub proof fn lemma_ack_round_trip(
    received: Seq<PacketData>,
    pending: Seq<PacketData>,
    i: int,
    j: int,
    ack: u32,
    max_sequence: u32,
)
    requires
        pairwise_sorted(received, max_sequence),
        forall|k: int|
            0 <= k < received.len() ==> !spec_more_recent(
                #[trigger] received[k].sequence,
                ack,
                max_sequence,
            ),
        0 <= i < received.len(),
        0 <= j < pending.len(),
        pending[j].sequence == received[i].sequence,
        received[i].sequence == ack || (0 <= spec_bit_index(
            received[i].sequence,
            ack,
            max_sequence,
        ) <= 31),
    ensures
        spec_acked_by(
            pending[j],
            ack,
            spec_generate_ack_bits(received, ack, max_sequence),
            max_sequence,
        ),
        exists|k: int|
            0 <= k < acked_records(
                pending,
                ack,
                spec_generate_ack_bits(received, ack, max_sequence),
                max_sequence,
            ).len() && #[trigger] acked_records(
                pending,
                ack,
                spec_generate_ack_bits(received, ack, max_sequence),
                max_sequence,
            )[k] == pending[j],
{
    let bits = spec_generate_ack_bits(received, ack, max_sequence);
    if received[i].sequence != ack {
        lemma_scan_reaches(received, ack, max_sequence, 0, 0, i);
    }
    lemma_acked_records_complete(pending, ack, bits, max_sequence, j);
}

proof fn lemma_fresh_index_from_char(s: Seq<PacketData>, threshold: u32, k: int)
    requires
        0 <= k <= s.len(),
    ensures
        forall|j: int|
            k <= j < fresh_index_from(s, threshold, k) ==> #[trigger] s[j].time > threshold,
        fresh_index_from(s, threshold, k) < s.len() ==> s[fresh_index_from(
            s,
            threshold,
            k,
        )].time <= threshold,
    decreases s.len() - k,
{
    if k < s.len() && s[k].time > threshold {
        lemma_fresh_index_from_char(s, threshold, k + 1);
    }
}

/// Loss accounting: in a queue whose ages never increase toward the back,
/// the eviction threshold splits the queue exactly at `fresh_index` — a
/// record is dropped (and, for the pending queue, counted as lost exactly
/// once) precisely when its age exceeds the threshold.
pub proof fn lemma_expired_iff_dropped(s: Seq<PacketData>, threshold: u32)
    requires
        times_descending(s),
    ensures
        forall|j: int|
            0 <= j < s.len() ==> ((#[trigger] s[j].time > threshold) <==> j < fresh_index(
                s,
                threshold,
            )),
{
    lemma_fresh_index_from_bounds(s, threshold, 0);
    lemma_fresh_index_from_char(s, threshold, 0);
    let fi = fresh_index(s, threshold);
    assert forall|j: int| 0 <= j < s.len() implies ((#[trigger] s[j].time > threshold) <==> j
        < fi) by {
        if j >= fi {
            assert(fi < s.len());
            assert(s[fi].time <= threshold);
            if j > fi {
                assert(s[fi].time >= s[j].time);
            }
        }
    }
}

/// The reliability system: one per connection, mutated only by that
/// connection's send/receive/update calls.
pub struct ReliableSystem {
    pub max_sequence: u32,
    pub local_sequence: u32,
    pub remote_sequence: u32,
    pub sent_packets: u32,
    pub recv_packets: u32,
    pub lost_packets: u32,
    pub acked_packets: u32,
    pub sent_bandwidth: u64,
    pub acked_bandwidth: u64,
    pub rtt: u32,
    pub rtt_maximum: u32,
    pub acks: Vec<u32>,
    pub sent_queue: PacketQueue,
    pub pending_ack_queue: PacketQueue,
    pub received_queue: PacketQueue,
    pub acked_queue: PacketQueue,
}

impl ReliableSystem {
    /// The system's well-formedness invariant.
    ///
    /// The sent and pending queues grow only at the back, so their ages
    /// never increase toward the back; the pending queue stays totally
    /// ordered by recency (it loses arbitrary records to acks, which only a
    /// total order survives); the received and acked queues stay in
    /// adjacent wraparound order with distinct sequence numbers; and no
    /// sequence number is both pending and acked.
    pub open spec fn wf(&self) -> bool {
        &&& self.max_sequence >= 34
        &&& self.local_sequence <= self.max_sequence
        &&& self.remote_sequence <= self.max_sequence
        &&& 1 <= self.rtt_maximum <= 0x7FFF_FFFF
        &&& seqs_below(self.sent_queue@, self.max_sequence)
        &&& adjacent_sorted(self.sent_queue@, self.max_sequence)
        &&& distinct_sequences(self.sent_queue@)
        &&& times_descending(self.sent_queue@)
        &&& (self.sent_queue@.len() > 0 ==> spec_more_recent(
            self.local_sequence,
            self.sent_queue@.last().sequence,
            self.max_sequence,
        ))
        &&& seqs_below(self.pending_ack_queue@, self.max_sequence)
        &&& pairwise_sorted(self.pending_ack_queue@, self.max_sequence)
        &&& times_descending(self.pending_ack_queue@)
        &&& seqs_below(self.received_queue@, self.max_sequence)
        &&& adjacent_sorted(self.received_queue@, self.max_sequence)
        &&& distinct_sequences(self.received_queue@)
        &&& seqs_below(self.acked_queue@, self.max_sequence)
        &&& adjacent_sorted(self.acked_queue@, self.max_sequence)
        &&& distinct_sequences(self.acked_queue@)
        &&& (forall|i: int|
            0 <= i < self.pending_ack_queue@.len() ==> !has_sequence(
                self.acked_queue@,
                #[trigger] self.pending_ack_queue@[i].sequence,
            ))
    }

    /// The freshness condition for recording a send: the next outgoing
    /// sequence number must be strictly more recent than everything still
    /// in flight or already acked. This is the sliding-window assumption:
    /// live bookkeeping never spans more than half the sequence space.
    pub open spec fn ready_to_send(&self) -> bool {
        &&& !has_sequence(self.sent_queue@, self.local_sequence)
        &&& (forall|i: int|
            0 <= i < self.pending_ack_queue@.len() ==> spec_more_recent(
                self.local_sequence,
                #[trigger] self.pending_ack_queue@[i].sequence,
                self.max_sequence,
            ))
        &&& !has_sequence(self.acked_queue@, self.local_sequence)
    }

    /// A fresh system for a sequence space wrapping at `max_sequence`.
    pub fn new(max_sequence: u32) -> (r: ReliableSystem)
        requires
            max_sequence >= 34,
        ensures
            r.wf(),
            r.max_sequence == max_sequence,
            r.local_sequence == 0,
            r.remote_sequence == 0,
            r.sent_packets == 0,
            r.recv_packets == 0,
            r.lost_packets == 0,
            r.acked_packets == 0,
            r.sent_bandwidth == 0,
            r.acked_bandwidth == 0,
            r.rtt == 0,
            r.rtt_maximum == 1000,
            r.acks@ == Seq::<u32>::empty(),
            r.sent_queue@ == Seq::<PacketData>::empty(),
            r.pending_ack_queue@ == Seq::<PacketData>::empty(),
            r.received_queue@ == Seq::<PacketData>::empty(),
            r.acked_queue@ == Seq::<PacketData>::empty(),
    {
        let mut reliability_system = ReliableSystem {
            max_sequence,
            local_sequence: 0,
            remote_sequence: 0,
            sent_packets: 0,
            recv_packets: 0,
            lost_packets: 0,
            acked_packets: 0,
            sent_bandwidth: 0,
            acked_bandwidth: 0,
            rtt: 0,
            rtt_maximum: 1000,
            acks: Vec::new(),
            sent_queue: PacketQueue::new(),
            pending_ack_queue: PacketQueue::new(),
            received_queue: PacketQueue::new(),
            acked_queue: PacketQueue::new(),
        };
        reliability_system.reset();
        reliability_system
    }

    /// Return every session field to its initial value; the sequence space
    /// stays as configured. The queues are cleared, not replaced.
    pub fn reset(&mut self)
        requires
            old(self).max_sequence >= 34,
        ensures
            final(self).wf(),
            final(self).max_sequence == old(self).max_sequence,
            final(self).local_sequence == 0,
            final(self).remote_sequence == 0,
            final(self).sent_packets == 0,
            final(self).recv_packets == 0,
            final(self).lost_packets == 0,
            final(self).acked_packets == 0,
            final(self).sent_bandwidth == 0,
            final(self).acked_bandwidth == 0,
            final(self).rtt == 0,
            final(self).rtt_maximum == 1000,
            final(self).acks@ == old(self).acks@,
            final(self).sent_queue@ == Seq::<PacketData>::empty(),
            final(self).pending_ack_queue@ == Seq::<PacketData>::empty(),
            final(self).received_queue@ == Seq::<PacketData>::empty(),
            final(self).acked_queue@ == Seq::<PacketData>::empty(),
    {
        self.local_sequence = 0;
        self.remote_sequence = 0;
        self.sent_queue.clear();
        self.received_queue.clear();
        self.pending_ack_queue.clear();
        self.acked_queue.clear();
        self.sent_packets = 0;
        self.recv_packets = 0;
        self.lost_packets = 0;
        self.acked_packets = 0;
        self.sent_bandwidth = 0;
        self.acked_bandwidth = 0;
        self.rtt = 0;
        self.rtt_maximum = 1000;
    }

    /// Record an outgoing packet: a fresh record with age 0 joins the sent
    /// and pending-ack queues, the sent counter ticks, and the local
    /// sequence number advances, wrapping to 0 past `max_sequence`.
    pub fn PacketSent(&mut self, size: usize)
        requires
            old(self).wf(),
            old(self).ready_to_send(),
            old(self).sent_packets < u32::MAX,
            size <= u32::MAX,
        ensures
            final(self).wf(),
            final(self).sent_queue@ == old(self).sent_queue@.push(
                PacketData {
                    sequence: old(self).local_sequence,
                    size: size as u32,
                    time: 0,
                },
            ),
            final(self).pending_ack_queue@ == old(self).pending_ack_queue@.push(
                PacketData {
                    sequence: old(self).local_sequence,
                    size: size as u32,
                    time: 0,
                },
            ),
            final(self).sent_packets == old(self).sent_packets + 1,
            final(self).local_sequence == spec_next_sequence(
                old(self).local_sequence,
                old(self).max_sequence,
            ),
            final(self).max_sequence == old(self).max_sequence,
            final(self).remote_sequence == old(self).remote_sequence,
            final(self).recv_packets == old(self).recv_packets,
            final(self).lost_packets == old(self).lost_packets,
            final(self).acked_packets == old(self).acked_packets,
            final(self).sent_bandwidth == old(self).sent_bandwidth,
            final(self).acked_bandwidth == old(self).acked_bandwidth,
            final(self).rtt == old(self).rtt,
            final(self).rtt_maximum == old(self).rtt_maximum,
            final(self).acks@ == old(self).acks@,
            final(self).received_queue@ == old(self).received_queue@,
            final(self).acked_queue@ == old(self).acked_queue@,
    {
        let data = PacketData { sequence: self.local_sequence, size: size as u32, time: 0 };
        self.sent_queue.push_back(data);
        self.pending_ack_queue.push_back(data);
        self.sent_packets = self.sent_packets + 1;
        if self.local_sequence >= self.max_sequence {
            self.local_sequence = 0;
        } else {
            self.local_sequence = self.local_sequence + 1;
        }
        proof {
            let max = self.max_sequence;
            let prev = data.sequence;
            assert(self.local_sequence == spec_next_sequence(prev, max));
            if prev < max {
                assert(spec_more_recent(self.local_sequence, prev, max));
            } else {
                assert(self.local_sequence == 0);
                assert(max - 0 > max / 2);
                assert(spec_more_recent(self.local_sequence, prev, max));
            }
        }
    }

    /// Record an inbound packet: the received counter always ticks; a
    /// duplicate sequence number is otherwise ignored; a new one is
    /// inserted in wraparound order and, when it is the most recent seen,
    /// becomes the remote sequence.
    pub fn PacketReceived(&mut self, sequence: u32, size: usize)
        requires
            old(self).wf(),
            sequence <= old(self).max_sequence,
            old(self).recv_packets < u32::MAX,
            size <= u32::MAX,
        ensures
            final(self).wf(),
            final(self).recv_packets == old(self).recv_packets + 1,
            has_sequence(old(self).received_queue@, sequence) ==> {
                &&& final(self).received_queue@ == old(self).received_queue@
                &&& final(self).remote_sequence == old(self).remote_sequence
            },
            !has_sequence(old(self).received_queue@, sequence) ==> {
                &&& final(self).received_queue@ == spec_insert_sorted(
                    old(self).received_queue@,
                    PacketData { sequence, size: size as u32, time: 0 },
                    old(self).max_sequence,
                )
                &&& final(self).remote_sequence == (if spec_more_recent(
                    sequence,
                    old(self).remote_sequence,
                    old(self).max_sequence,
                ) {
                    sequence
                } else {
                    old(self).remote_sequence
                })
            },
            final(self).max_sequence == old(self).max_sequence,
            final(self).local_sequence == old(self).local_sequence,
            final(self).sent_packets == old(self).sent_packets,
            final(self).lost_packets == old(self).lost_packets,
            final(self).acked_packets == old(self).acked_packets,
            final(self).sent_bandwidth == old(self).sent_bandwidth,
            final(self).acked_bandwidth == old(self).acked_bandwidth,
            final(self).rtt == old(self).rtt,
            final(self).rtt_maximum == old(self).rtt_maximum,
            final(self).acks@ == old(self).acks@,
            final(self).sent_queue@ == old(self).sent_queue@,
            final(self).pending_ack_queue@ == old(self).pending_ack_queue@,
            final(self).acked_queue@ == old(self).acked_queue@,
    {
        self.recv_packets = self.recv_packets + 1;
        if self.received_queue.contains_sequence(sequence) {
            return ;
        }
        let data = PacketData { sequence, size: size as u32, time: 0 };
        proof {
            lemma_spec_insert_sorted_props(self.received_queue@, data, self.max_sequence);
        }
        self.received_queue.insert_sorted(data, self.max_sequence);
        if sequence_more_recent(&sequence, &self.remote_sequence, &self.max_sequence) {
            self.remote_sequence = sequence;
        }
    }

    /// Runtime mirror of `ready_to_send`, for the host layer to test before
    /// putting a packet on the wire: the next outgoing sequence number is
    /// absent from the sent and acked queues and strictly more recent than
    /// every record still awaiting an ack.
    pub fn is_ready_to_send(&self) -> (r: bool)
        ensures
            r == self.ready_to_send(),
    {
        if self.sent_queue.contains_sequence(self.local_sequence) {
            return false;
        }
        if self.acked_queue.contains_sequence(self.local_sequence) {
            return false;
        }
        let n = self.pending_ack_queue.queue.len();
        let mut i: usize = 0;
        while i < n
            invariant
                i <= n,
                n == self.pending_ack_queue@.len(),
                forall|j: int|
                    0 <= j < i ==> spec_more_recent(
                        self.local_sequence,
                        #[trigger] self.pending_ack_queue@[j].sequence,
                        self.max_sequence,
                    ),
            decreases n - i,
        {
            if !sequence_more_recent(
                &self.local_sequence,
                &self.pending_ack_queue.queue[i].sequence,
                &self.max_sequence,
            ) {
                return false;
            }
            i = i + 1;
        }
        true
    }

    /// The ack bitmask to embed in the next outgoing header, built from the
    /// received queue against the current remote sequence.
    pub fn GenerateAckBits(&mut self) -> (r: u32)
        requires
            old(self).wf(),
        ensures
            *final(self) == *old(self),
            r == spec_generate_ack_bits(
                old(self).received_queue@,
                old(self).remote_sequence,
                old(self).max_sequence,
            ),
    {
        let ack = self.get_remote_sequence();
        generate_ack_bits(ack, &self.received_queue, self.max_sequence)
    }

    /// Feed an inbound ack number and bitmask to the bookkeeping.
    pub fn ProcessAck(&mut self, ack: u32, ack_bits: u32)
        requires
            old(self).wf(),
            ack <= old(self).max_sequence,
            old(self).acked_packets + old(self).pending_ack_queue@.len() <= u32::MAX,
        ensures
            final(self).wf(),
            final(self).pending_ack_queue@ == unacked_records(
                old(self).pending_ack_queue@,
                ack,
                ack_bits,
                old(self).max_sequence,
            ),
            final(self).acked_queue@ == insert_all(
                old(self).acked_queue@,
                acked_records(old(self).pending_ack_queue@, ack, ack_bits, old(self).max_sequence),
                old(self).max_sequence,
            ),
            final(self).acks@ == old(self).acks@ + sequences_of(
                acked_records(old(self).pending_ack_queue@, ack, ack_bits, old(self).max_sequence),
            ),
            final(self).acked_packets == old(self).acked_packets + acked_records(
                old(self).pending_ack_queue@,
                ack,
                ack_bits,
                old(self).max_sequence,
            ).len(),
            final(self).rtt == spec_rtt_after(
                old(self).rtt,
                acked_records(old(self).pending_ack_queue@, ack, ack_bits, old(self).max_sequence),
            ),
            final(self).max_sequence == old(self).max_sequence,
            final(self).local_sequence == old(self).local_sequence,
            final(self).remote_sequence == old(self).remote_sequence,
            final(self).sent_packets == old(self).sent_packets,
            final(self).recv_packets == old(self).recv_packets,
            final(self).lost_packets == old(self).lost_packets,
            final(self).sent_bandwidth == old(self).sent_bandwidth,
            final(self).acked_bandwidth == old(self).acked_bandwidth,
            final(self).rtt_maximum == old(self).rtt_maximum,
            final(self).sent_queue@ == old(self).sent_queue@,
            final(self).received_queue@ == old(self).received_queue@,
    {
        self.process_ack(ack, ack_bits)
    }

    /// Walk the pending-ack queue against an inbound ack: every record the
    /// ack covers feeds the RTT estimate, moves into the acked queue in
    /// sorted order, lands in the per-tick ack list and counts as acked;
    /// the rest stay pending in their original order.
    fn process_ack(&mut self, ack: u32, ack_bits: u32)
        requires
            old(self).wf(),
            ack <= old(self).max_sequence,
            old(self).acked_packets + old(self).pending_ack_queue@.len() <= u32::MAX,
        ensures
            final(self).wf(),
            final(self).pending_ack_queue@ == unacked_records(
                old(self).pending_ack_queue@,
                ack,
                ack_bits,
                old(self).max_sequence,
            ),
            final(self).acked_queue@ == insert_all(
                old(self).acked_queue@,
                acked_records(old(self).pending_ack_queue@, ack, ack_bits, old(self).max_sequence),
                old(self).max_sequence,
            ),
            final(self).acks@ == old(self).acks@ + sequences_of(
                acked_records(old(self).pending_ack_queue@, ack, ack_bits, old(self).max_sequence),
            ),
            final(self).acked_packets == old(self).acked_packets + acked_records(
                old(self).pending_ack_queue@,
                ack,
                ack_bits,
                old(self).max_sequence,
            ).len(),
            final(self).rtt == spec_rtt_after(
                old(self).rtt,
                acked_records(old(self).pending_ack_queue@, ack, ack_bits, old(self).max_sequence),
            ),
            final(self).max_sequence == old(self).max_sequence,
            final(self).local_sequence == old(self).local_sequence,
            final(self).remote_sequence == old(self).remote_sequence,
            final(self).sent_packets == old(self).sent_packets,
            final(self).recv_packets == old(self).recv_packets,
            final(self).lost_packets == old(self).lost_packets,
            final(self).sent_bandwidth == old(self).sent_bandwidth,
            final(self).acked_bandwidth == old(self).acked_bandwidth,
            final(self).rtt_maximum == old(self).rtt_maximum,
            final(self).sent_queue@ == old(self).sent_queue@,
            final(self).received_queue@ == old(self).received_queue@,
    {
        let ghost pre = self.pending_ack_queue@;
        let ghost max = self.max_sequence;
        let n = self.pending_ack_queue.queue.len();
        let mut new_pending = PacketQueue::new();
        let mut i: usize = 0;
        while i < n
            invariant
                i <= n,
                n == pre.len(),
                self.pending_ack_queue@ == pre,
                self.max_sequence == max,
                ack <= max,
                old(self).wf(),
                old(self).pending_ack_queue@ == pre,
                old(self).max_sequence == max,
                old(self).acked_packets + pre.len() <= u32::MAX,
                new_pending@ == unacked_records(pre.take(i as int), ack, ack_bits, max),
                self.acked_queue@ == insert_all(
                    old(self).acked_queue@,
                    acked_records(pre.take(i as int), ack, ack_bits, max),
                    max,
                ),
                adjacent_sorted(self.acked_queue@, max),
                seqs_below(self.acked_queue@, max),
                distinct_sequences(self.acked_queue@),
                self.acks@ == old(self).acks@ + sequences_of(
                    acked_records(pre.take(i as int), ack, ack_bits, max),
                ),
                self.acked_packets == old(self).acked_packets + acked_records(
                    pre.take(i as int),
                    ack,
                    ack_bits,
                    max,
                ).len(),
                self.rtt == spec_rtt_after(
                    old(self).rtt,
                    acked_records(pre.take(i as int), ack, ack_bits, max),
                ),
                forall|j: int|
                    0 <= j < pre.len() && !spec_acked_by(#[trigger] pre[j], ack, ack_bits, max)
                        ==> !has_sequence(self.acked_queue@, pre[j].sequence),
                forall|j: int|
                    i <= j < pre.len() ==> !has_sequence(
                        self.acked_queue@,
                        #[trigger] pre[j].sequence,
                    ),
                self.local_sequence == old(self).local_sequence,
                self.remote_sequence == old(self).remote_sequence,
                self.sent_packets == old(self).sent_packets,
                self.recv_packets == old(self).recv_packets,
                self.lost_packets == old(self).lost_packets,
                self.sent_bandwidth == old(self).sent_bandwidth,
                self.acked_bandwidth == old(self).acked_bandwidth,
                self.rtt_maximum == old(self).rtt_maximum,
                self.sent_queue@ == old(self).sent_queue@,
                self.received_queue@ == old(self).received_queue@,
            decreases n - i,
        {
            let p = self.pending_ack_queue.queue[i];
            let mut acked = false;
            if p.sequence == ack {
                acked = true;
            } else if !sequence_more_recent(&p.sequence, &ack, &self.max_sequence) {
                let bit_index = bit_index_for_sequence(p.sequence, ack, self.max_sequence);
                if bit_index <= 31 {
                    acked = (1u32 & (ack_bits >> bit_index)) != 0;
                }
            }
            proof {
                assert(acked == spec_acked_by(p, ack, ack_bits, max));
                assert(pre.take(i + 1) =~= pre.take(i as int).push(p));
                assert(pre.take(i + 1).drop_last() =~= pre.take(i as int));
                lemma_partition_len(pre.take(i as int), ack, ack_bits, max);
            }
            if acked {
                proof {
                    lemma_spec_insert_sorted_props(self.acked_queue@, p, max);
                }
                let time = p.time;
                if time >= self.rtt {
                    let gap = (time - self.rtt) / 10;
                    self.rtt = self.rtt + gap;
                } else {
                    let gap = (self.rtt - time) / 10;
                    self.rtt = self.rtt - gap;
                }
                self.acked_queue.insert_sorted(p, self.max_sequence);
                self.acks.push(p.sequence);
                self.acked_packets = self.acked_packets + 1;
                proof {
                    let a_new = acked_records(pre.take(i + 1), ack, ack_bits, max);
                    let a_old = acked_records(pre.take(i as int), ack, ack_bits, max);
                    assert(a_new == a_old.push(p));
                    assert(a_new.drop_last() =~= a_old);
                    assert(sequences_of(a_new).drop_last() =~= sequences_of(a_old));
                    assert(sequences_of(a_new) =~= sequences_of(a_old).push(p.sequence));
                    assert(self.acks@ =~= old(self).acks@ + sequences_of(a_new));
                    assert(self.rtt == spec_rtt_after(old(self).rtt, a_new));
                    assert forall|j: int|
                        0 <= j < pre.len() && !spec_acked_by(
                            #[trigger] pre[j],
                            ack,
                            ack_bits,
                            max,
                        ) implies !has_sequence(self.acked_queue@, pre[j].sequence) by {
                        assert(pre[j].sequence != p.sequence);
                    }
                    assert forall|j: int| i + 1 <= j < pre.len() implies !has_sequence(
                        self.acked_queue@,
                        #[trigger] pre[j].sequence,
                    ) by {
                        assert(spec_more_recent(pre[j].sequence, pre[i as int].sequence, max));
                        assert(pre[j].sequence != p.sequence);
                    }
                }
            } else {
                new_pending.push_back(p);
                proof {
                    assert(unacked_records(pre.take(i + 1), ack, ack_bits, max) == unacked_records(
                        pre.take(i as int),
                        ack,
                        ack_bits,
                        max,
                    ).push(p));
                }
            }
            i = i + 1;
        }
        proof {
            assert(pre.take(n as int) =~= pre);
        }
        self.pending_ack_queue = new_pending;
        proof {
            lemma_unacked_preserves(pre, ack, ack_bits, max);
            assert forall|j: int| 0 <= j < self.pending_ack_queue@.len() implies !has_sequence(
                self.acked_queue@,
                #[trigger] self.pending_ack_queue@[j].sequence,
            ) by {
                let rec = self.pending_ack_queue@[j];
                let i0 = choose|i0: int| 0 <= i0 < pre.len() && pre[i0] == rec;
                assert(!spec_acked_by(pre[i0], ack, ack_bits, max));
            }
        }
    }

    pub fn get_local_sequence(&self) -> (r: u32)
        ensures
            r == self.local_sequence,
    {
        self.local_sequence
    }

    pub fn get_remote_sequence(&self) -> (r: u32)
        ensures
            r == self.remote_sequence,
    {
        self.remote_sequence
    }

    pub fn get_max_sequence(&self) -> (r: u32)
        ensures
            r == self.max_sequence,
    {
        self.max_sequence
    }

    /// Hand out the first ack of this tick and how many there are.
    pub fn get_acks(&mut self, acks: &mut u32, count: &mut u32)
        requires
            old(self).acks@.len() > 0,
            old(self).acks@.len() <= u32::MAX,
        ensures
            *final(self) == *old(self),
            *final(acks) == old(self).acks@[0],
            *final(count) == old(self).acks@.len(),
    {
        *acks = self.acks[0];
        *count = self.acks.len() as u32;
    }

    pub fn get_sent_packets(&self) -> (r: u32)
        ensures
            r == self.sent_packets,
    {
        self.sent_packets
    }

    pub fn get_received_packets(&self) -> (r: u32)
        ensures
            r == self.recv_packets,
    {
        self.recv_packets
    }

    pub fn get_lost_packets(&self) -> (r: u32)
        ensures
            r == self.lost_packets,
    {
        self.lost_packets
    }

    pub fn get_acked_packets(&self) -> (r: u32)
        ensures
            r == self.acked_packets,
    {
        self.acked_packets
    }

    /// Outgoing bandwidth over the last RTT window, in kilobits per second.
    pub fn get_sent_bandwidth(&self) -> (r: u64)
        ensures
            r == self.sent_bandwidth,
    {
        self.sent_bandwidth
    }

    /// Acknowledged bandwidth over the last RTT window, in kilobits per
    /// second.
    pub fn get_acked_bandwidth(&self) -> (r: u64)
        ensures
            r == self.acked_bandwidth,
    {
        self.acked_bandwidth
    }

    /// The smoothed round-trip estimate, in milliseconds.
    pub fn get_round_trip_time(&self) -> (r: u32)
        ensures
            r == self.rtt,
    {
        self.rtt
    }

    /// Bytes the reliability fields occupy in the wire header: sequence
    /// number, ack number and ack bitmask.
    pub fn GetHeaderSize() -> (r: usize)
        ensures
            r == 12,
    {
        12
    }

    /// Age every record in all four queues by the elapsed milliseconds.
    pub fn AdvanceQueueTimes(&mut self, delta_time: u32)
        requires
            old(self).wf(),
        ensures
            final(self).wf(),
            final(self).sent_queue@ == spec_aged(old(self).sent_queue@, delta_time),
            final(self).pending_ack_queue@ == spec_aged(
                old(self).pending_ack_queue@,
                delta_time,
            ),
            final(self).received_queue@ == spec_aged(old(self).received_queue@, delta_time),
            final(self).acked_queue@ == spec_aged(old(self).acked_queue@, delta_time),
            final(self).max_sequence == old(self).max_sequence,
            final(self).local_sequence == old(self).local_sequence,
            final(self).remote_sequence == old(self).remote_sequence,
            final(self).sent_packets == old(self).sent_packets,
            final(self).recv_packets == old(self).recv_packets,
            final(self).lost_packets == old(self).lost_packets,
            final(self).acked_packets == old(self).acked_packets,
            final(self).sent_bandwidth == old(self).sent_bandwidth,
            final(self).acked_bandwidth == old(self).acked_bandwidth,
            final(self).rtt == old(self).rtt,
            final(self).rtt_maximum == old(self).rtt_maximum,
            final(self).acks@ == old(self).acks@,
    {
        proof {
            lemma_aged_props(self.sent_queue@, delta_time, self.max_sequence);
            lemma_aged_props(self.pending_ack_queue@, delta_time, self.max_sequence);
            lemma_aged_props(self.received_queue@, delta_time, self.max_sequence);
            lemma_aged_props(self.acked_queue@, delta_time, self.max_sequence);
        }
        age_queue(&mut self.sent_queue, delta_time);
        age_queue(&mut self.received_queue, delta_time);
        age_queue(&mut self.pending_ack_queue, delta_time);
        age_queue(&mut self.acked_queue, delta_time);
        proof {
            if self.sent_queue@.len() > 0 {
                assert(self.sent_queue@.last().sequence == old(
                    self,
                ).sent_queue@.last().sequence);
            }
        }
    }

    /// Evict what has outlived its window: sent and pending records older
    /// than the RTT ceiling (a timed-out pending record counts as lost),
    /// acked records older than twice the ceiling, and received records
    /// more than 34 packets behind the latest one.
    pub fn UpdateQueues(&mut self)
        requires
            old(self).wf(),
            old(self).lost_packets + old(self).pending_ack_queue@.len() <= u32::MAX,
        ensures
            final(self).wf(),
            final(self).sent_queue@ == old(self).sent_queue@.skip(
                fresh_index(old(self).sent_queue@, old(self).rtt_maximum),
            ),
            final(self).pending_ack_queue@ == old(self).pending_ack_queue@.skip(
                fresh_index(old(self).pending_ack_queue@, old(self).rtt_maximum),
            ),
            final(self).lost_packets == old(self).lost_packets + fresh_index(
                old(self).pending_ack_queue@,
                old(self).rtt_maximum,
            ),
            final(self).acked_queue@ == old(self).acked_queue@.skip(
                fresh_index(old(self).acked_queue@, (2 * old(self).rtt_maximum) as u32),
            ),
            old(self).received_queue@.len() == 0 ==> final(self).received_queue@ == old(
                self,
            ).received_queue@,
            old(self).received_queue@.len() > 0 ==> final(self).received_queue@ == old(
                self,
            ).received_queue@.skip(
                recent_index(
                    old(self).received_queue@,
                    spec_received_min(
                        old(self).received_queue@.last().sequence,
                        old(self).max_sequence,
                    ),
                    old(self).max_sequence,
                ),
            ),
            final(self).max_sequence == old(self).max_sequence,
            final(self).local_sequence == old(self).local_sequence,
            final(self).remote_sequence == old(self).remote_sequence,
            final(self).sent_packets == old(self).sent_packets,
            final(self).recv_packets == old(self).recv_packets,
            final(self).acked_packets == old(self).acked_packets,
            final(self).sent_bandwidth == old(self).sent_bandwidth,
            final(self).acked_bandwidth == old(self).acked_bandwidth,
            final(self).rtt == old(self).rtt,
            final(self).rtt_maximum == old(self).rtt_maximum,
            final(self).acks@ == old(self).acks@,
    {
        let _dropped_sent = evict_expired(&mut self.sent_queue, self.rtt_maximum);
        if self.received_queue.queue.len() != 0 {
            match self.received_queue.back() {
                Some(received_packet) => {
                    let latest_sequence = received_packet.sequence;
                    let minimum_sequence = if latest_sequence >= 34 {
                        latest_sequence - 34
                    } else {
                        self.max_sequence - (34 - latest_sequence)
                    };
                    evict_outside_window(
                        &mut self.received_queue,
                        minimum_sequence,
                        self.max_sequence,
                    );
                },
                None => {},
            }
        }
        let two_rtt = 2 * self.rtt_maximum;
        let _dropped_acked = evict_expired(&mut self.acked_queue, two_rtt);
        let dropped = evict_expired(&mut self.pending_ack_queue, self.rtt_maximum);
        self.lost_packets = self.lost_packets + (dropped as u32);
        proof {
            let max = self.max_sequence;
            lemma_suffix_props(
                old(self).sent_queue@,
                fresh_index(old(self).sent_queue@, old(self).rtt_maximum),
                max,
            );
            lemma_suffix_props(
                old(self).pending_ack_queue@,
                fresh_index(old(self).pending_ack_queue@, old(self).rtt_maximum),
                max,
            );
            lemma_suffix_props(
                old(self).acked_queue@,
                fresh_index(old(self).acked_queue@, (2 * old(self).rtt_maximum) as u32),
                max,
            );
            if old(self).received_queue@.len() > 0 {
                lemma_recent_index_bounds(
                    old(self).received_queue@,
                    spec_received_min(old(self).received_queue@.last().sequence, max),
                    max,
                );
                lemma_suffix_props(
                    old(self).received_queue@,
                    recent_index(
                        old(self).received_queue@,
                        spec_received_min(old(self).received_queue@.last().sequence, max),
                        max,
                    ),
                    max,
                );
            }
            assert forall|i: int| 0 <= i < self.pending_ack_queue@.len() implies !has_sequence(
                self.acked_queue@,
                #[trigger] self.pending_ack_queue@[i].sequence,
            ) by {
                let k = fresh_index(old(self).pending_ack_queue@, old(self).rtt_maximum);
                assert(self.pending_ack_queue@[i] == old(self).pending_ack_queue@[i + k]);
            }
            if self.sent_queue@.len() > 0 {
                let k = fresh_index(old(self).sent_queue@, old(self).rtt_maximum);
                assert(self.sent_queue@.last() == old(self).sent_queue@.last());
            }
        }
    }

    /// Recompute the bandwidth figures: bytes still in the sent window per
    /// RTT ceiling, and bytes of acked records at least one ceiling old per
    /// RTT ceiling, both scaled to kilobits per second.
    pub fn UpdateStats(&mut self)
        requires
            old(self).wf(),
            sum_sizes(old(self).sent_queue@) * 8 <= u64::MAX,
            sum_sizes(old(self).acked_queue@) * 8 <= u64::MAX,
        ensures
            final(self).wf(),
            final(self).sent_bandwidth == sum_sizes(old(self).sent_queue@) * 8 / (old(
                self,
            ).rtt_maximum as int),
            final(self).acked_bandwidth == sum_sizes_at_least(
                old(self).acked_queue@,
                old(self).rtt_maximum,
            ) * 8 / (old(self).rtt_maximum as int),
            *final(self) == (ReliableSystem {
                sent_bandwidth: final(self).sent_bandwidth,
                acked_bandwidth: final(self).acked_bandwidth,
                ..*old(self)
            }),
    {
        let ghost sent_pre = self.sent_queue@;
        let ghost acked_pre = self.acked_queue@;
        let mut sent_bytes: u64 = 0;
        let n = self.sent_queue.queue.len();
        let mut i: usize = 0;
        while i < n
            invariant
                i <= n,
                n == sent_pre.len(),
                self.sent_queue@ == sent_pre,
                sent_bytes == sum_sizes(sent_pre.take(i as int)),
                sum_sizes(sent_pre) * 8 <= u64::MAX,
            decreases n - i,
        {
            let p = self.sent_queue.queue[i];
            proof {
                assert(sent_pre.take(i + 1).drop_last() =~= sent_pre.take(i as int));
                assert(sent_pre.take(i + 1) =~= sent_pre.take(i as int).push(p));
                assert(sent_pre =~= sent_pre.take(i + 1) + sent_pre.skip(i + 1));
                lemma_sum_concat(sent_pre.take(i + 1), sent_pre.skip(i + 1));
            }
            sent_bytes = sent_bytes + (p.size as u64);
            i = i + 1;
        }
        proof {
            assert(sent_pre.take(n as int) =~= sent_pre);
        }
        let mut acked_bytes: u64 = 0;
        let m = self.acked_queue.queue.len();
        let mut j: usize = 0;
        while j < m
            invariant
                j <= m,
                m == acked_pre.len(),
                self.acked_queue@ == acked_pre,
                self.rtt_maximum == old(self).rtt_maximum,
                acked_bytes == sum_sizes_at_least(acked_pre.take(j as int), old(self).rtt_maximum),
                sum_sizes(acked_pre) * 8 <= u64::MAX,
            decreases m - j,
        {
            let p = self.acked_queue.queue[j];
            proof {
                assert(acked_pre.take(j + 1).drop_last() =~= acked_pre.take(j as int));
                assert(acked_pre.take(j + 1) =~= acked_pre.take(j as int).push(p));
                assert(acked_pre =~= acked_pre.take(j + 1) + acked_pre.skip(j + 1));
                lemma_sum_concat(acked_pre.take(j + 1), acked_pre.skip(j + 1));
                lemma_sum_at_least_bound(acked_pre.take(j + 1), old(self).rtt_maximum);
            }
            if p.time >= self.rtt_maximum {
                acked_bytes = acked_bytes + (p.size as u64);
            }
            j = j + 1;
        }
        proof {
            assert(acked_pre.take(m as int) =~= acked_pre);
            lemma_sum_nonneg(sent_pre);
            lemma_sum_at_least_bound(acked_pre, old(self).rtt_maximum);
        }
        let rtt_max = self.rtt_maximum as u64;
        self.sent_bandwidth = (sent_bytes * 8) / rtt_max;
        self.acked_bandwidth = (acked_bytes * 8) / rtt_max;
    }

    /// Walk all four queues and report whether every one still satisfies
    /// the wraparound ordering invariant. A well-formed system always
    /// passes; this is the runtime mirror of that proof.
    pub fn Validate(&self) -> (r: bool)
        requires
            self.wf(),
        ensures
            r,
    {
        proof {
            lemma_pairwise_implies_adjacent(self.pending_ack_queue@, self.max_sequence);
        }
        let max_sequence = self.max_sequence;
        let sent_ok = self.sent_queue.verify_sequencing(max_sequence);
        let acked_ok = self.acked_queue.verify_sequencing(max_sequence);
        let pending_ok = self.pending_ack_queue.verify_sequencing(max_sequence);
        let received_ok = self.received_queue.verify_sequencing(max_sequence);
        sent_ok && acked_ok && pending_ok && received_ok
    }

    /// One tick: clear the per-tick ack list, age every queue, evict what
    /// has expired (counting timed-out pending records as lost), and
    /// recompute the bandwidth figures.
    #[verifier::rlimit(100)]
    pub fn Update(&mut self, delta_time: u32)
        requires
            old(self).wf(),
            old(self).lost_packets + old(self).pending_ack_queue@.len() <= u32::MAX,
            sum_sizes(old(self).sent_queue@) * 8 <= u64::MAX,
            sum_sizes(old(self).acked_queue@) * 8 <= u64::MAX,
        ensures
            final(self).wf(),
            final(self).acks@ == Seq::<u32>::empty(),
            final(self).sent_queue@ == ({
                let a = spec_aged(old(self).sent_queue@, delta_time);
                a.skip(fresh_index(a, old(self).rtt_maximum))
            }),
            final(self).pending_ack_queue@ == ({
                let a = spec_aged(old(self).pending_ack_queue@, delta_time);
                a.skip(fresh_index(a, old(self).rtt_maximum))
            }),
            final(self).lost_packets == old(self).lost_packets + fresh_index(
                spec_aged(old(self).pending_ack_queue@, delta_time),
                old(self).rtt_maximum,
            ),
            final(self).acked_queue@ == ({
                let a = spec_aged(old(self).acked_queue@, delta_time);
                a.skip(fresh_index(a, (2 * old(self).rtt_maximum) as u32))
            }),
            old(self).received_queue@.len() == 0 ==> final(self).received_queue@ == Seq::<
                PacketData,
            >::empty(),
            old(self).received_queue@.len() > 0 ==> final(self).received_queue@ == ({
                let a = spec_aged(old(self).received_queue@, delta_time);
                a.skip(
                    recent_index(
                        a,
                        spec_received_min(
                            old(self).received_queue@.last().sequence,
                            old(self).max_sequence,
                        ),
                        old(self).max_sequence,
                    ),
                )
            }),
            final(self).sent_bandwidth == sum_sizes(final(self).sent_queue@) * 8 / (old(
                self,
            ).rtt_maximum as int),
            final(self).acked_bandwidth == sum_sizes_at_least(
                final(self).acked_queue@,
                old(self).rtt_maximum,
            ) * 8 / (old(self).rtt_maximum as int),
            final(self).max_sequence == old(self).max_sequence,
            final(self).local_sequence == old(self).local_sequence,
            final(self).remote_sequence == old(self).remote_sequence,
            final(self).sent_packets == old(self).sent_packets,
            final(self).recv_packets == old(self).recv_packets,
            final(self).acked_packets == old(self).acked_packets,
            final(self).rtt == old(self).rtt,
            final(self).rtt_maximum == old(self).rtt_maximum,
    {
        proof {
            lemma_aged_props(self.sent_queue@, delta_time, self.max_sequence);
            lemma_aged_props(self.pending_ack_queue@, delta_time, self.max_sequence);
            lemma_aged_props(self.received_queue@, delta_time, self.max_sequence);
            lemma_aged_props(self.acked_queue@, delta_time, self.max_sequence);
        }
        self.acks.clear();
        self.AdvanceQueueTimes(delta_time);
        self.UpdateQueues();
        proof {
            let s = spec_aged(old(self).sent_queue@, delta_time);
            let k = fresh_index(s, old(self).rtt_maximum);
            lemma_fresh_index_bounds(s, old(self).rtt_maximum);
            assert(s =~= s.take(k) + s.skip(k));
            lemma_sum_concat(s.take(k), s.skip(k));
            let a = spec_aged(old(self).acked_queue@, delta_time);
            let ka = fresh_index(a, (2 * old(self).rtt_maximum) as u32);
            lemma_fresh_index_bounds(a, (2 * old(self).rtt_maximum) as u32);
            assert(a =~= a.take(ka) + a.skip(ka));
            lemma_sum_concat(a.take(ka), a.skip(ka));
        }
        self.UpdateStats();
        let _validated = self.Validate();
        proof {
            if old(self).received_queue@.len() == 0 {
                assert(self.received_queue@ =~= Seq::<PacketData>::empty());
            }
        }
    }
}

/// Rebuild a queue with every age advanced by `delta`, saturating at the
/// largest representable age.
fn age_queue(q: &mut PacketQueue, delta: u32)
    ensures
        final(q)@ == spec_aged(old(q)@, delta),
{
    let ghost pre = q@;
    let n = q.queue.len();
    let mut aged = PacketQueue::new();
    let mut i: usize = 0;
    while i < n
        invariant
            i <= n,
            n == pre.len(),
            q@ == pre,
            aged@.len() == i,
            forall|j: int| 0 <= j < i ==> aged@[j] == spec_aged(pre, delta)[j],
        decreases n - i,
    {
        let cur = q.queue[i];
        let new_time = if cur.time > u32::MAX - delta {
            u32::MAX
        } else {
            cur.time + delta
        };
        aged.push_back(PacketData { sequence: cur.sequence, size: cur.size, time: new_time });
        i = i + 1;
    }
    *q = aged;
    proof {
        assert(q@ =~= spec_aged(pre, delta));
    }
}

/// Pop expired records off the front of a queue: every leading record
/// strictly older than `threshold` goes; the count of dropped records
/// comes back.
fn evict_expired(q: &mut PacketQueue, threshold: u32) -> (dropped: usize)
    ensures
        dropped == fresh_index(old(q)@, threshold),
        dropped <= old(q)@.len(),
        final(q)@ == old(q)@.skip(fresh_index(old(q)@, threshold)),
{
    let ghost pre = q@;
    let n = q.queue.len();
    proof {
        assert(n == pre.len());
    }
    let mut dropped: usize = 0;
    loop
        invariant
            pre.len() <= usize::MAX,
            dropped <= pre.len(),
            q@ == pre.skip(dropped as int),
            fresh_index(pre, threshold) == fresh_index_from(pre, threshold, dropped as int),
        ensures
            dropped <= pre.len(),
            q@ == pre.skip(dropped as int),
            fresh_index(pre, threshold) == fresh_index_from(pre, threshold, dropped as int),
            q@.len() == 0 || q@[0].time <= threshold,
        decreases pre.len() - dropped,
    {
        let stop = match q.front() {
            Some(p) => p.time <= threshold,
            None => true,
        };
        if stop {
            break ;
        }
        let _ = q.pop_front();
        proof {
            assert(dropped < pre.len());
            assert(pre.skip(dropped as int).skip(1) =~= pre.skip(dropped + 1));
        }
        dropped = dropped + 1;
    }
    dropped
}

/// Pop received records that fell out of the 34-packet window off the
/// front of the queue: every leading record not more recent than the
/// minimum kept sequence goes.
fn evict_outside_window(q: &mut PacketQueue, min_seq: u32, max_sequence: u32)
    ensures
        final(q)@ == old(q)@.skip(recent_index(old(q)@, min_seq, max_sequence)),
{
    let ghost pre = q@;
    let n = q.queue.len();
    proof {
        assert(n == pre.len());
    }
    let mut dropped: usize = 0;
    loop
        invariant
            pre.len() <= usize::MAX,
            dropped <= pre.len(),
            q@ == pre.skip(dropped as int),
            recent_index(pre, min_seq, max_sequence) == recent_index_from(
                pre,
                min_seq,
                max_sequence,
                dropped as int,
            ),
        ensures
            dropped <= pre.len(),
            q@ == pre.skip(dropped as int),
            recent_index(pre, min_seq, max_sequence) == recent_index_from(
                pre,
                min_seq,
                max_sequence,
                dropped as int,
            ),
            q@.len() == 0 || spec_more_recent(q@[0].sequence, min_seq, max_sequence),
        decreases pre.len() - dropped,
    {
        let stop = match q.front() {
            Some(p) => sequence_more_recent(&p.sequence, &min_seq, &max_sequence),
            None => true,
        };
        if stop {
            break ;
        }
        let _ = q.pop_front();
        proof {
            assert(dropped < pre.len());
            assert(pre.skip(dropped as int).skip(1) =~= pre.skip(dropped + 1));
        }
        dropped = dropped + 1;
    }
}

/// Build the ack bitmask for `ack` from a received queue: walk from the
/// oldest record, stop at the first one that is `ack` itself or newer, and
/// set the window bit of every older record within 31 slots.
fn generate_ack_bits(ack: u32, receive_queue: &PacketQueue, max_sequence: u32) -> (r: u32)
    requires
        seqs_below(receive_queue@, max_sequence),
        ack <= max_sequence,
    ensures
        r == spec_generate_ack_bits(receive_queue@, ack, max_sequence),
{
    let mut ack_bits: u32 = 0;
    let n = receive_queue.queue.len();
    let mut i: usize = 0;
    while i < n
        invariant
            i <= n,
            n == receive_queue@.len(),
            seqs_below(receive_queue@, max_sequence),
            ack <= max_sequence,
            spec_generate_ack_bits(receive_queue@, ack, max_sequence) == spec_ack_bits_scan(
                receive_queue@,
                ack,
                max_sequence,
                i as int,
                ack_bits,
            ),
        decreases n - i,
    {
        let p = receive_queue.queue[i];
        if p.sequence == ack || sequence_more_recent(&p.sequence, &ack, &max_sequence) {
            return ack_bits;
        }
        let bit_index = bit_index_for_sequence(p.sequence, ack, max_sequence);
        if bit_index <= 31 {
            ack_bits = ack_bits | (1u32 << bit_index);
        }
        i = i + 1;
    }
    ack_bits
}

} // verus!
