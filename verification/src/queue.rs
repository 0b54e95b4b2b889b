//! An ordered queue of lightweight packet records, ordered from oldest
//! (front) to newest (back) by wraparound recency. The reliability system
//! keeps four of these: sent, pending-ack, received and acked.

use crate::sequence::{lemma_more_recent_total, sequence_more_recent, spec_more_recent};
use std::collections::VecDeque;
use vstd::prelude::*;

verus! {

/// Bookkeeping record for one packet: its sequence number, its payload size
/// in bytes, and how long (in milliseconds) it has sat in its queue.
#[derive(Clone, Copy, Debug, PartialEq, Eq, Structural)]
pub struct PacketData {
    pub sequence: u32,
    pub size: u32,
    pub time: u32,
}

/// Some record in `s` carries the sequence number `sequence`.
pub open spec fn has_sequence(s: Seq<PacketData>, sequence: u32) -> bool {
    exists|i: int| 0 <= i < s.len() && s[i].sequence == sequence
}

/// Every sequence number in `s` lies inside the sequence space.
pub open spec fn seqs_below(s: Seq<PacketData>, max_sequence: u32) -> bool {
    forall|i: int| 0 <= i < s.len() ==> s[i].sequence <= max_sequence
}

/// The queue ordering invariant: each record is more recent than its
/// predecessor under wraparound recency, except where sequences are equal.
pub open spec fn adjacent_sorted(s: Seq<PacketData>, max_sequence: u32) -> bool {
    forall|i: int| #![trigger s[i]]
        0 <= i < s.len() - 1 ==> (s[i + 1].sequence == s[i].sequence || spec_more_recent(
            s[i + 1].sequence,
            s[i].sequence,
            max_sequence,
        ))
}

/// No two records of `s` carry the same sequence number.
pub open spec fn distinct_sequences(s: Seq<PacketData>) -> bool {
    forall|i: int, j: int| 0 <= i < j < s.len() ==> s[i].sequence != s[j].sequence
}

/// The strong form of the ordering: every record is more recent than every
/// record before it, not just than its immediate predecessor. This is what
/// a queue satisfies while all its records sit inside half a sequence space
/// of each other, and it survives removing arbitrary records.
pub open spec fn pairwise_sorted(s: Seq<PacketData>, max_sequence: u32) -> bool {
    forall|i: int, j: int|
        0 <= i < j < s.len() ==> spec_more_recent(s[j].sequence, s[i].sequence, max_sequence)
}

/// Ages never increase from front to back: the record at the front is the
/// one that has waited longest.
pub open spec fn times_descending(s: Seq<PacketData>) -> bool {
    forall|i: int, j: int| 0 <= i < j < s.len() ==> s[i].time >= s[j].time
}

/// Index of the first record of `s`, at position `k` or later, that is more
/// recent than `sequence`; `s.len()` when there is none.
pub open spec fn insertion_index_from(
    s: Seq<PacketData>,
    sequence: u32,
    max_sequence: u32,
    k: int,
) -> int
    decreases s.len() - k,
{
    if k < 0 || k >= s.len() {
        s.len() as int
    } else if spec_more_recent(s[k].sequence, sequence, max_sequence) {
        k
    } else {
        insertion_index_from(s, sequence, max_sequence, k + 1)
    }
}

/// Index of the first record of `s` more recent than `sequence`; `s.len()`
/// when there is none. A new record belongs immediately before this index.
pub open spec fn insertion_index(s: Seq<PacketData>, sequence: u32, max_sequence: u32) -> int {
    insertion_index_from(s, sequence, max_sequence, 0)
}

/// Index of the first record of `s`, at position `k` or later, whose
/// sequence number equals `sequence`; `s.len()` when there is none.
pub open spec fn index_of_sequence_from(s: Seq<PacketData>, sequence: u32, k: int) -> int
    decreases s.len() - k,
{
    if k < 0 || k >= s.len() {
        s.len() as int
    } else if s[k].sequence == sequence {
        k
    } else {
        index_of_sequence_from(s, sequence, k + 1)
    }
}

/// Index of the first record of `s` whose sequence number equals
/// `sequence`; `s.len()` when there is none.
pub open spec fn index_of_sequence(s: Seq<PacketData>, sequence: u32) -> int {
    index_of_sequence_from(s, sequence, 0)
}

proof fn lemma_insertion_index_from_props(
    s: Seq<PacketData>,
    sequence: u32,
    max_sequence: u32,
    k: int,
)
    requires
        0 <= k <= s.len(),
    ensures
        k <= insertion_index_from(s, sequence, max_sequence, k) <= s.len(),
        forall|j: int|
            k <= j < insertion_index_from(s, sequence, max_sequence, k) ==> !spec_more_recent(
                s[j].sequence,
                sequence,
                max_sequence,
            ),
        insertion_index_from(s, sequence, max_sequence, k) < s.len() ==> spec_more_recent(
            s[insertion_index_from(s, sequence, max_sequence, k)].sequence,
            sequence,
            max_sequence,
        ),
    decreases s.len() - k,
{
    if k < s.len() && !spec_more_recent(s[k].sequence, sequence, max_sequence) {
        lemma_insertion_index_from_props(s, sequence, max_sequence, k + 1);
    }
}

/// Where a record with number `sequence` would be inserted: every earlier
/// record is not more recent than it, and the record at the index (when one
/// exists) is.
pub proof fn lemma_insertion_index_props(s: Seq<PacketData>, sequence: u32, max_sequence: u32)
    ensures
        0 <= insertion_index(s, sequence, max_sequence) <= s.len(),
        forall|j: int|
            0 <= j < insertion_index(s, sequence, max_sequence) ==> !spec_more_recent(
                s[j].sequence,
                sequence,
                max_sequence,
            ),
        insertion_index(s, sequence, max_sequence) < s.len() ==> spec_more_recent(
            s[insertion_index(s, sequence, max_sequence)].sequence,
            sequence,
            max_sequence,
        ),
{
    lemma_insertion_index_from_props(s, sequence, max_sequence, 0);
}

/// The total recency order implies the adjacent-pair ordering that
/// `verify_sequencing` checks.
pub proof fn lemma_pairwise_implies_adjacent(s: Seq<PacketData>, max_sequence: u32)
    requires
        pairwise_sorted(s, max_sequence),
    ensures
        adjacent_sorted(s, max_sequence),
{
    assert forall|i: int| #![trigger s[i]] 0 <= i < s.len() - 1 implies (s[i + 1].sequence
        == s[i].sequence || spec_more_recent(s[i + 1].sequence, s[i].sequence, max_sequence)) by {
        assert(spec_more_recent(s[i + 1].sequence, s[i].sequence, max_sequence));
    }
}

/// Every structural property of a queue survives dropping a prefix.
pub proof fn lemma_suffix_props(s: Seq<PacketData>, k: int, max_sequence: u32)
    requires
        0 <= k <= s.len(),
    ensures
        adjacent_sorted(s, max_sequence) ==> adjacent_sorted(s.skip(k), max_sequence),
        pairwise_sorted(s, max_sequence) ==> pairwise_sorted(s.skip(k), max_sequence),
        times_descending(s) ==> times_descending(s.skip(k)),
        seqs_below(s, max_sequence) ==> seqs_below(s.skip(k), max_sequence),
        distinct_sequences(s) ==> distinct_sequences(s.skip(k)),
        forall|x: u32| #[trigger] has_sequence(s.skip(k), x) ==> has_sequence(s, x),
{
    let t = s.skip(k);
    assert(forall|i: int| 0 <= i < t.len() ==> t[i] == s[i + k]);
    if adjacent_sorted(s, max_sequence) {
        assert forall|i: int| #![trigger t[i]] 0 <= i < t.len() - 1 implies (t[i + 1].sequence
            == t[i].sequence || spec_more_recent(
            t[i + 1].sequence,
            t[i].sequence,
            max_sequence,
        )) by {
            assert(t[i] == s[i + k]);
            assert(t[i + 1] == s[i + k + 1]);
        }
    }
    assert forall|x: u32| #[trigger] has_sequence(t, x) implies has_sequence(s, x) by {
        let i = choose|i: int| 0 <= i < t.len() && t[i].sequence == x;
        assert(s[i + k].sequence == x);
    }
}

/// What `PacketQueue::insert_sorted` leaves in the queue: the record goes
/// before the first more-recent record, with O(1) front and back fast
/// paths; a scan landing outside the 32-entry insertion window drops the
/// record instead.
pub open spec fn spec_insert_sorted(s: Seq<PacketData>, p: PacketData, max_sequence: u32) -> Seq<
    PacketData,
> {
    if s.len() == 0 {
        seq![p]
    } else if !spec_more_recent(p.sequence, s[0].sequence, max_sequence) {
        seq![p] + s
    } else if spec_more_recent(p.sequence, s[s.len() - 1].sequence, max_sequence) {
        s.push(p)
    } else {
        let k = insertion_index(s, p.sequence, max_sequence);
        if k < 32 {
            s.insert(k, p)
        } else {
            s
        }
    }
}

/// Inserting a fresh sequence number keeps every old record, adds at most
/// the new one, and never invents sequence numbers; distinctness survives.
pub proof fn lemma_spec_insert_sorted_props(s: Seq<PacketData>, p: PacketData, max_sequence: u32)
    requires
        !has_sequence(s, p.sequence),
    ensures
        forall|x: u32|
            #[trigger] has_sequence(spec_insert_sorted(s, p, max_sequence), x) ==> (has_sequence(
                s,
                x,
            ) || x == p.sequence),
        forall|x: u32|
            #[trigger] has_sequence(s, x) ==> has_sequence(spec_insert_sorted(s, p, max_sequence), x),
        distinct_sequences(s) ==> distinct_sequences(spec_insert_sorted(s, p, max_sequence)),
{
    let r = spec_insert_sorted(s, p, max_sequence);
    if s.len() == 0 {
        assert forall|x: u32| #[trigger] has_sequence(r, x) implies (has_sequence(s, x) || x
            == p.sequence) by {
            let i = choose|i: int| 0 <= i < r.len() && r[i].sequence == x;
            assert(r[i] == p);
        }
    } else if !spec_more_recent(p.sequence, s[0].sequence, max_sequence) {
        assert forall|x: u32| #[trigger] has_sequence(r, x) implies (has_sequence(s, x) || x
            == p.sequence) by {
            let i = choose|i: int| 0 <= i < r.len() && r[i].sequence == x;
            if i > 0 {
                assert(r[i] == s[i - 1]);
            }
        }
        assert forall|x: u32| #[trigger] has_sequence(s, x) implies has_sequence(r, x) by {
            let i = choose|i: int| 0 <= i < s.len() && s[i].sequence == x;
            assert(r[i + 1] == s[i]);
        }
        if distinct_sequences(s) {
            assert forall|i: int, j: int| 0 <= i < j < r.len() implies r[i].sequence
                != r[j].sequence by {
                if i > 0 {
                    assert(r[i] == s[i - 1]);
                }
                assert(r[j] == s[j - 1]);
            }
        }
    } else if spec_more_recent(p.sequence, s[s.len() - 1].sequence, max_sequence) {
        assert forall|x: u32| #[trigger] has_sequence(r, x) implies (has_sequence(s, x) || x
            == p.sequence) by {
            let i = choose|i: int| 0 <= i < r.len() && r[i].sequence == x;
            if i < s.len() {
                assert(r[i] == s[i]);
            }
        }
        assert forall|x: u32| #[trigger] has_sequence(s, x) implies has_sequence(r, x) by {
            let i = choose|i: int| 0 <= i < s.len() && s[i].sequence == x;
            assert(r[i] == s[i]);
        }
    } else {
        let k = insertion_index(s, p.sequence, max_sequence);
        lemma_insertion_index_props(s, p.sequence, max_sequence);
        if k < 32 {
            assert forall|x: u32| #[trigger] has_sequence(r, x) implies (has_sequence(s, x) || x
                == p.sequence) by {
                let i = choose|i: int| 0 <= i < r.len() && r[i].sequence == x;
                if i < k {
                    assert(r[i] == s[i]);
                } else if i > k {
                    assert(r[i] == s[i - 1]);
                }
            }
            assert forall|x: u32| #[trigger] has_sequence(s, x) implies has_sequence(r, x) by {
                let i = choose|i: int| 0 <= i < s.len() && s[i].sequence == x;
                if i < k {
                    assert(r[i] == s[i]);
                } else {
                    assert(r[i + 1] == s[i]);
                }
            }
            if distinct_sequences(s) {
                assert forall|i: int, j: int| 0 <= i < j < r.len() implies r[i].sequence
                    != r[j].sequence by {
                    if i < k {
                        assert(r[i] == s[i]);
                    } else if i > k {
                        assert(r[i] == s[i - 1]);
                    }
                    if j < k {
                        assert(r[j] == s[j]);
                    } else if j > k {
                        assert(r[j] == s[j - 1]);
                    }
                }
            }
        }
    }
}

/// One of the reliability system's bookkeeping queues.
#[derive(Debug)]
pub struct PacketQueue {
    pub queue: VecDeque<PacketData>,
}

impl View for PacketQueue {
    type V = Seq<PacketData>;

    open spec fn view(&self) -> Seq<PacketData> {
        self.queue@
    }
}

impl PacketQueue {
    /// An empty queue.
    pub fn new() -> (r: PacketQueue)
        ensures
            r@ == Seq::<PacketData>::empty(),
    {
        PacketQueue { queue: VecDeque::new() }
    }

    /// Linear scan: whether any record carries the given sequence number.
    pub fn contains_sequence(&self, sequence: u32) -> (r: bool)
        ensures
            r == has_sequence(self@, sequence),
    {
        let n = self.queue.len();
        let mut i: usize = 0;
        while i < n
            invariant
                i <= n,
                n == self@.len(),
                forall|j: int| 0 <= j < i ==> self@[j].sequence != sequence,
            decreases n - i,
        {
            if self.queue[i].sequence == sequence {
                return true;
            }
            i = i + 1;
        }
        false
    }

    /// Append a record at the newest end.
    pub fn push_back(&mut self, data: PacketData)
        ensures
            final(self)@ == old(self)@.push(data),
    {
        self.queue.push_back(data);
    }

    /// Prepend a record at the oldest end.
    pub fn push_front(&mut self, data: PacketData)
        ensures
            final(self)@ == seq![data] + old(self)@,
    {
        self.queue.push_front(data);
    }

    /// The oldest record, if any.
    pub fn front(&self) -> (r: Option<PacketData>)
        ensures
            self@.len() == 0 ==> r is None,
            self@.len() > 0 ==> r == Some(self@[0]),
    {
        if self.queue.len() == 0 {
            None
        } else {
            Some(self.queue[0])
        }
    }

    /// The newest record, if any.
    pub fn back(&self) -> (r: Option<PacketData>)
        ensures
            self@.len() == 0 ==> r is None,
            self@.len() > 0 ==> r == Some(self@[self@.len() - 1]),
    {
        let n = self.queue.len();
        if n == 0 {
            None
        } else {
            Some(self.queue[n - 1])
        }
    }

    /// The record at `index`, if the index is in range.
    pub fn get_packet(&self, index: usize) -> (r: Option<&PacketData>)
        ensures
            index < self@.len() ==> (r matches Some(p) && *p == self@[index as int]),
            index >= self@.len() ==> r is None,
    {
        if index < self.queue.len() {
            Some(&self.queue[index])
        } else {
            None
        }
    }

    /// Whether `index` is a usable insertion slot: 0 is reserved for the
    /// front fast path and the window holds at most 32 in-flight slots.
    pub fn is_index_valid(&self, index: usize) -> (r: bool)
        ensures
            r == (0 < index && index < 32),
    {
        index > 0 && index < 32
    }

    /// Scan for the first record more recent than `sequence_num`; 0xFF when
    /// every record is older.
    pub fn find_sequence_insertion_point(&self, sequence_num: u32, max_sequence: u32) -> (r:
        usize)
        ensures
            insertion_index(self@, sequence_num, max_sequence) < self@.len() ==> r
                == insertion_index(self@, sequence_num, max_sequence),
            insertion_index(self@, sequence_num, max_sequence) == self@.len() ==> r == 0xFF,
    {
        let n = self.queue.len();
        let mut i: usize = 0;
        while i < n
            invariant
                i <= n,
                n == self@.len(),
                insertion_index(self@, sequence_num, max_sequence) == insertion_index_from(
                    self@,
                    sequence_num,
                    max_sequence,
                    i as int,
                ),
            decreases n - i,
        {
            if sequence_more_recent(&self.queue[i].sequence, &sequence_num, &max_sequence) {
                return i;
            }
            i = i + 1;
        }
        0xFF
    }

    /// Scan for the record carrying `sequence_num`; 0xFF when absent.
    pub fn find_index_for_sequence(&self, sequence_num: u32) -> (r: usize)
        ensures
            index_of_sequence(self@, sequence_num) < self@.len() ==> r == index_of_sequence(
                self@,
                sequence_num,
            ),
            index_of_sequence(self@, sequence_num) == self@.len() ==> r == 0xFF,
    {
        let n = self.queue.len();
        let mut i: usize = 0;
        while i < n
            invariant
                i <= n,
                n == self@.len(),
                index_of_sequence(self@, sequence_num) == index_of_sequence_from(
                    self@,
                    sequence_num,
                    i as int,
                ),
            decreases n - i,
        {
            if self.queue[i].sequence == sequence_num {
                return i;
            }
            i = i + 1;
        }
        0xFF
    }

    /// Remove and return the oldest record, if any.
    pub fn pop_front(&mut self) -> (r: Option<PacketData>)
        ensures
            old(self)@.len() == 0 ==> r is None && final(self)@ == old(self)@,
            old(self)@.len() > 0 ==> r == Some(old(self)@[0]) && final(self)@ == old(self)@.skip(
                1,
            ),
    {
        let r = self.queue.pop_front();
        proof {
            if old(self)@.len() > 0 {
                assert(self@ =~= old(self)@.skip(1));
            }
        }
        r
    }

    /// Drop every record.
    pub fn clear(&mut self)
        ensures
            final(self)@ == Seq::<PacketData>::empty(),
    {
        self.queue.clear();
    }

    /// Walk the queue and report whether the ordering invariant holds: every
    /// sequence number inside the sequence space and every adjacent pair in
    /// wraparound order.
    pub fn verify_sequencing(&self, max_sequence: u32) -> (r: bool)
        ensures
            r == (seqs_below(self@, max_sequence) && adjacent_sorted(self@, max_sequence)),
    {
        let n = self.queue.len();
        let mut i: usize = 0;
        while i < n
            invariant
                i <= n,
                n == self@.len(),
                forall|j: int| 0 <= j < i ==> self@[j].sequence <= max_sequence,
                forall|j: int| #![trigger self@[j]]
                    0 <= j < i - 1 ==> (self@[j + 1].sequence == self@[j].sequence
                        || spec_more_recent(
                        self@[j + 1].sequence,
                        self@[j].sequence,
                        max_sequence,
                    )),
            decreases n - i,
        {
            let cur = self.queue[i];
            if cur.sequence > max_sequence {
                return false;
            }
            if i > 0 {
                let prev = self.queue[i - 1];
                if cur.sequence != prev.sequence && !sequence_more_recent(
                    &cur.sequence,
                    &prev.sequence,
                    &max_sequence,
                ) {
                    return false;
                }
            }
            i = i + 1;
        }
        true
    }

    /// Insert a record at its wraparound-ordered position. In-order traffic
    /// hits the O(1) front/back fast paths; otherwise the queue is scanned
    /// for the first more-recent record and the new one goes right before
    /// it, provided that slot lies inside the 32-entry insertion window.
    ///
    /// Inserting any permutation of records with distinct sequence numbers
    /// this way leaves the queue passing `verify_sequencing`.
    pub fn insert_sorted(&mut self, packet_data: PacketData, max_sequence: u32)
        requires
            adjacent_sorted(old(self)@, max_sequence),
            seqs_below(old(self)@, max_sequence),
            !has_sequence(old(self)@, packet_data.sequence),
            packet_data.sequence <= max_sequence,
        ensures
            final(self)@ == spec_insert_sorted(old(self)@, packet_data, max_sequence),
            adjacent_sorted(final(self)@, max_sequence),
            seqs_below(final(self)@, max_sequence),
    {
        if self.queue.len() == 0 {
            self.queue.push_back(packet_data);
            proof {
                assert(self@ =~= seq![packet_data]);
            }
        } else {
            let front = self.queue[0];
            if !sequence_more_recent(&packet_data.sequence, &front.sequence, &max_sequence) {
                proof {
                    lemma_more_recent_total(packet_data.sequence, front.sequence, max_sequence);
                }
                self.queue.push_front(packet_data);
                return ;
            }
            let back = self.queue[self.queue.len() - 1];
            if sequence_more_recent(&packet_data.sequence, &back.sequence, &max_sequence) {
                self.queue.push_back(packet_data);
                return ;
            }
            proof {
                lemma_more_recent_total(packet_data.sequence, back.sequence, max_sequence);
                lemma_insertion_index_props(self@, packet_data.sequence, max_sequence);
            }
            let insertion_index = self.find_sequence_insertion_point(
                packet_data.sequence,
                max_sequence,
            );
            if insertion_index != 0xFF && self.is_index_valid(insertion_index) {
                let ghost pre = self@;
                let ghost k = insertion_index as int;
                proof {
                    lemma_more_recent_total(
                        packet_data.sequence,
                        pre[k - 1].sequence,
                        max_sequence,
                    );
                }
                self.queue.insert(insertion_index, packet_data);
                proof {
                    assert forall|i: int| #![trigger self@[i]] 0 <= i < self@.len()
                        - 1 implies (self@[i + 1].sequence == self@[i].sequence
                        || spec_more_recent(
                        self@[i + 1].sequence,
                        self@[i].sequence,
                        max_sequence,
                    )) by {
                        if i + 1 < k {
                            assert(self@[i] == pre[i]);
                            assert(self@[i + 1] == pre[i + 1]);
                        } else if i + 1 == k {
                            assert(self@[i] == pre[i]);
                            assert(self@[i + 1] == packet_data);
                        } else if i == k {
                            assert(self@[i] == packet_data);
                            assert(self@[i + 1] == pre[i]);
                        } else {
                            assert(self@[i] == pre[i - 1]);
                            assert(self@[i + 1] == pre[i]);
                        }
                    }
                }
            }
        }
    }
}

} // verus!
