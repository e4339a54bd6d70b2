use vstd::prelude::*;

use crate::packets::MeshPacket;
use crate::types::{CurrentTime, NodeNum, PacketId};

verus! {

/// The deduplication identity of a packet: (sender, id) only. Timestamps are
/// deliberately not part of the key, so two observations of one packet always
/// collide here whatever their times.
#[derive(Clone, Copy, PartialEq, Eq, Structural, Hash, Debug)]
pub struct PacketKey {
    pub sender: NodeNum,
    pub id: PacketId,
}

/// One "recently seen packet" entry: this id from this sender was processed
/// at this time. Only `key()` takes part in deduplication; `seen_at` is the
/// associated value, refreshed in place on re-recording.
#[derive(Clone, Copy, Debug)]
pub struct PacketRecord {
    pub sender: NodeNum,
    pub id: PacketId,
    pub seen_at: CurrentTime,
}

impl PacketRecord {
    /// The (sender, id) key under which this record is deduplicated.
    pub fn key(&self) -> (k: PacketKey)
        ensures
            k.sender == self.sender,
            k.id == self.id,
    {
        PacketKey { sender: self.sender, id: self.id }
    }
}

/// Whether a record carries the given deduplication key.
pub open spec fn record_matches(r: PacketRecord, sender: NodeNum, id: PacketId) -> bool {
    r.sender == sender && r.id == id
}

/// Whether some record in the sequence carries the given key.
pub open spec fn contains_packet_key(s: Seq<PacketRecord>, sender: NodeNum, id: PacketId) -> bool {
    exists|i: int| 0 <= i < s.len() && #[trigger] record_matches(s[i], sender, id)
}

/// The index of the record carrying the given key; meaningful only when the
/// key is present and the keys are distinct.
pub open spec fn index_of_packet_key(s: Seq<PacketRecord>, sender: NodeNum, id: PacketId) -> int {
    choose|i: int| 0 <= i < s.len() && #[trigger] record_matches(s[i], sender, id)
}

/// No two records in the sequence share a deduplication key.
pub open spec fn distinct_packet_keys(s: Seq<PacketRecord>) -> bool {
    forall|i: int, j: int|
        0 <= i < s.len() && 0 <= j < s.len() && i != j ==> !record_matches(
            #[trigger] s[j],
            #[trigger] s[i].sender,
            s[i].id,
        )
}

/// A record is fresh at `now` when its age does not exceed the suppression
/// window. Records stamped later than `now` count as fresh.
pub open spec fn record_fresh(r: PacketRecord, now: CurrentTime, window: CurrentTime) -> bool {
    r.seen_at + window >= now
}

/// The expiry sweep: the records still fresh at `now`, in their original order.
pub open spec fn sweep(s: Seq<PacketRecord>, now: CurrentTime, window: CurrentTime) -> Seq<
    PacketRecord,
>
    decreases s.len(),
{
    if s.len() == 0 {
        Seq::empty()
    } else if record_fresh(s.last(), now, window) {
        sweep(s.drop_last(), now, window).push(s.last())
    } else {
        sweep(s.drop_last(), now, window)
    }
}

/// Whether an occupancy is above 90% of the allocated capacity, the policy
/// threshold that couples insertion cost to sweep cost.
pub open spec fn over_threshold(occupancy: nat, capacity: nat) -> bool {
    occupancy * 10 > capacity * 9
}

/// What recording (sender, id) at `now` does to the stored records: the key's
/// record is refreshed in place (removed and re-appended) or appended anew,
/// and if that pushes occupancy over the fill threshold, an expiry sweep runs
/// at once.
pub open spec fn record_step(
    s: Seq<PacketRecord>,
    sender: NodeNum,
    id: PacketId,
    now: CurrentTime,
    capacity: nat,
    window: CurrentTime,
) -> Seq<PacketRecord> {
    let fresh_record = PacketRecord { sender, id, seen_at: now };
    let inserted = if contains_packet_key(s, sender, id) {
        s.remove(index_of_packet_key(s, sender, id)).push(fresh_record)
    } else {
        s.push(fresh_record)
    };
    if over_threshold(inserted.len(), capacity) {
        sweep(inserted, now, window)
    } else {
        inserted
    }
}

/// Answers "was this packet seen within the suppression window" and records
/// observations. Expiry is sweep-based: a stale record disappears at the next
/// sweep, not at the instant it ages out.
pub trait PacketHistory {
    /// The stored records, in storage order.
    spec fn history(&self) -> Seq<PacketRecord>;

    /// The allocated capacity whose 90% fill threshold triggers a sweep.
    spec fn history_capacity(&self) -> nat;

    /// The flood suppression window: how long a record stays fresh.
    spec fn suppression_window(&self) -> CurrentTime;

    /// Well-formedness: each (sender, id) key is stored at most once.
    spec fn history_wf(&self) -> bool;

    /// Whether (packet.from, packet.id) is currently recorded. Read-only:
    /// it neither evicts nor refreshes anything.
    fn query_was_seen_recently(&self, packet: &MeshPacket) -> (seen: bool)
        ensures
            seen == contains_packet_key(self.history(), packet.from, packet.id),
    ;

    /// Inserts or refreshes the record for (packet.from, packet.id) with the
    /// given clock reading, then sweeps if occupancy went over the threshold.
    fn record_seen_recently(&mut self, packet: &MeshPacket, now: CurrentTime)
        requires
            old(self).history_wf(),
        ensures
            final(self).history_wf(),
            final(self).history_capacity() == old(self).history_capacity(),
            final(self).suppression_window() == old(self).suppression_window(),
            final(self).history() == record_step(
                old(self).history(),
                packet.from,
                packet.id,
                now,
                old(self).history_capacity(),
                old(self).suppression_window(),
            ),
    ;
}

/// The bounded, self-evicting ledger of recently seen packets. The bound is
/// soft: nothing but the fill-threshold sweep holds occupancy down, so a
/// burst of unique packets arriving faster than they age out can still grow
/// past the capacity — a known limitation of the policy, not enforced away.
pub struct PacketHistoryStore {
    recent_packets: Vec<PacketRecord>,
    capacity: usize,
    window: CurrentTime,
}

/// Scans for the record carrying (sender, id); the index of some match, or
/// `None` when no record matches.
fn find_packet_index(records: &Vec<PacketRecord>, sender: NodeNum, id: PacketId) -> (found: Option<
    usize,
>)
    ensures
        match found {
            Some(i) => i < records@.len() && record_matches(records@[i as int], sender, id),
            None => !contains_packet_key(records@, sender, id),
        },
{
    let mut i: usize = 0;
    while i < records.len()
        invariant
            i <= records@.len(),
            forall|j: int| 0 <= j < i ==> !(#[trigger] record_matches(records@[j], sender, id)),
        decreases records@.len() - i,
    {
        if records[i].sender == sender && records[i].id == id {
            return Some(i);
        }
        i += 1;
    }
    None
}

/// Builds the sequence of records still fresh at `now`, preserving order.
fn retain_fresh(records: &Vec<PacketRecord>, now: CurrentTime, window: CurrentTime) -> (kept: Vec<
    PacketRecord,
>)
    ensures
        kept@ == sweep(records@, now, window),
{
    let mut kept: Vec<PacketRecord> = Vec::new();
    let mut i: usize = 0;
    while i < records.len()
        invariant
            i <= records@.len(),
            kept@ == sweep(records@.subrange(0, i as int), now, window),
        decreases records@.len() - i,
    {
        let r = records[i];
        proof {
            assert(records@.subrange(0, i + 1).drop_last() =~= records@.subrange(0, i as int));
            assert(records@.subrange(0, i + 1).last() == records@[i as int]);
        }
        if now <= r.seen_at || now - r.seen_at <= window {
            kept.push(r);
        }
        i += 1;
    }
    proof {
        assert(records@.subrange(0, records@.len() as int) =~= records@);
    }
    kept
}

impl PacketHistory for PacketHistoryStore {
    closed spec fn history(&self) -> Seq<PacketRecord> {
        self.recent_packets@
    }

    closed spec fn history_capacity(&self) -> nat {
        self.capacity as nat
    }

    closed spec fn suppression_window(&self) -> CurrentTime {
        self.window
    }

    closed spec fn history_wf(&self) -> bool {
        distinct_packet_keys(self.recent_packets@)
    }

    fn query_was_seen_recently(&self, packet: &MeshPacket) -> (seen: bool) {
        find_packet_index(&self.recent_packets, packet.from, packet.id).is_some()
    }

    fn record_seen_recently(&mut self, packet: &MeshPacket, now: CurrentTime) {
        let ghost original = self.recent_packets@;
        let fresh_record = PacketRecord { sender: packet.from, id: packet.id, seen_at: now };
        match find_packet_index(&self.recent_packets, packet.from, packet.id) {
            Some(i) => {
                proof {
                    lemma_index_of_key_unique(original, packet.from, packet.id, i as int);
                }
                self.recent_packets.remove(i);
            },
            None => {},
        }
        self.recent_packets.push(fresh_record);
        proof {
            lemma_insert_keeps_distinct(original, packet.from, packet.id, now);
        }
        let occupancy = self.recent_packets.len();
        if (occupancy as u128) * 10 > (self.capacity as u128) * 9 {
            self.clear_expired_packets(now);
        }
    }
}

impl PacketHistoryStore {
    /// An empty ledger with the given allocated capacity and suppression window.
    pub fn new(capacity: usize, window: CurrentTime) -> (store: Self)
        ensures
            store.history_wf(),
            store.history() == Seq::<PacketRecord>::empty(),
            store.history_capacity() == capacity as nat,
            store.suppression_window() == window,
    {
        PacketHistoryStore { recent_packets: Vec::new(), capacity, window }
    }

    /// The current occupancy: how many records are stored.
    pub fn len(&self) -> (occupancy: usize)
        ensures
            occupancy == self.history().len(),
    {
        self.recent_packets.len()
    }

    /// Removes every record whose age at `now` exceeds the suppression window.
    /// Expiry is definitive: a swept key answers "not seen" until re-recorded.
    pub fn clear_expired_packets(&mut self, now: CurrentTime)
        requires
            old(self).history_wf(),
        ensures
            final(self).history_wf(),
            final(self).history_capacity() == old(self).history_capacity(),
            final(self).suppression_window() == old(self).suppression_window(),
            final(self).history() == sweep(
                old(self).history(),
                now,
                old(self).suppression_window(),
            ),
    {
        let kept = retain_fresh(&self.recent_packets, now, self.window);
        self.recent_packets = kept;
        proof {
            lemma_sweep_keeps_distinct(old(self).recent_packets@, now, old(self).window);
        }
    }
}

/// Under distinct keys, any index whose record matches (sender, id) is the
/// index that `index_of_packet_key` denotes.
proof fn lemma_index_of_key_unique(s: Seq<PacketRecord>, sender: NodeNum, id: PacketId, i: int)
    requires
        distinct_packet_keys(s),
        0 <= i < s.len(),
        record_matches(s[i], sender, id),
    ensures
        contains_packet_key(s, sender, id),
        index_of_packet_key(s, sender, id) == i,
{
    assert(contains_packet_key(s, sender, id));
    let j = index_of_packet_key(s, sender, id);
    assert(0 <= j < s.len() && record_matches(s[j], sender, id));
    if i != j {
        assert(!record_matches(s[j], s[i].sender, s[i].id));
        assert(false);
    }
}

/// Refreshing or appending a key keeps the stored keys distinct.
proof fn lemma_insert_keeps_distinct(
    s: Seq<PacketRecord>,
    sender: NodeNum,
    id: PacketId,
    now: CurrentTime,
)
    requires
        distinct_packet_keys(s),
    ensures
        ({
            let fresh_record = PacketRecord { sender, id, seen_at: now };
            let inserted = if contains_packet_key(s, sender, id) {
                s.remove(index_of_packet_key(s, sender, id)).push(fresh_record)
            } else {
                s.push(fresh_record)
            };
            distinct_packet_keys(inserted)
        }),
{
    let fresh_record = PacketRecord { sender, id, seen_at: now };
    if contains_packet_key(s, sender, id) {
        let k = index_of_packet_key(s, sender, id);
        assert(0 <= k < s.len() && record_matches(s[k], sender, id));
        let removed = s.remove(k);
        assert forall|m: int| 0 <= m < removed.len() implies !record_matches(
            #[trigger] removed[m],
            sender,
            id,
        ) by {
            if m < k {
                assert(removed[m] == s[m]);
                assert(!record_matches(s[m], s[k].sender, s[k].id));
            } else {
                assert(removed[m] == s[m + 1]);
                assert(!record_matches(s[m + 1], s[k].sender, s[k].id));
            }
        }
        let inserted = removed.push(fresh_record);
        assert forall|i: int, j: int|
            0 <= i < inserted.len() && 0 <= j < inserted.len() && i != j implies !record_matches(
            inserted[j],
            inserted[i].sender,
            inserted[i].id,
        ) by {
            if i < inserted.len() - 1 && j < inserted.len() - 1 {
                assert(inserted[i] == removed[i] && inserted[j] == removed[j]);
                lemma_remove_pair_distinct(s, k, i, j);
            } else if j == inserted.len() - 1 {
                assert(inserted[j] == fresh_record);
                assert(!record_matches(removed[i], sender, id));
            } else {
                assert(inserted[i] == fresh_record);
                assert(!record_matches(removed[j], sender, id));
            }
        }
    } else {
        let inserted = s.push(fresh_record);
        assert forall|i: int, j: int|
            0 <= i < inserted.len() && 0 <= j < inserted.len() && i != j implies !record_matches(
            inserted[j],
            inserted[i].sender,
            inserted[i].id,
        ) by {
            if i < s.len() && j < s.len() {
            } else if j == s.len() {
                assert(inserted[j] == fresh_record);
                if record_matches(fresh_record, inserted[i].sender, inserted[i].id) {
                    assert(record_matches(s[i], sender, id));
                }
            } else {
                assert(inserted[i] == fresh_record);
                if record_matches(inserted[j], sender, id) {
                    assert(record_matches(s[j], sender, id));
                }
            }
        }
    }
}

/// Two surviving positions of a removal still carry different keys.
proof fn lemma_remove_pair_distinct(s: Seq<PacketRecord>, k: int, i: int, j: int)
    requires
        distinct_packet_keys(s),
        0 <= k < s.len(),
        0 <= i < s.len() - 1,
        0 <= j < s.len() - 1,
        i != j,
    ensures
        !record_matches(s.remove(k)[j], s.remove(k)[i].sender, s.remove(k)[i].id),
{
    let removed = s.remove(k);
    let oi: int = if i < k {
        i
    } else {
        i + 1
    };
    let oj: int = if j < k {
        j
    } else {
        j + 1
    };
    assert(removed[i] == s[oi]);
    assert(removed[j] == s[oj]);
    assert(!record_matches(s[oj], s[oi].sender, s[oi].id));
}

/// The sweep keeps keys distinct, introduces no key, and keeps only records
/// that stood in the input and are fresh at `now`.
proof fn lemma_sweep_keeps_distinct(s: Seq<PacketRecord>, now: CurrentTime, window: CurrentTime)
    requires
        distinct_packet_keys(s),
    ensures
        distinct_packet_keys(sweep(s, now, window)),
        forall|m: int|
            0 <= m < sweep(s, now, window).len() ==> s.contains(#[trigger] sweep(s, now, window)[m])
                && record_fresh(sweep(s, now, window)[m], now, window),
    decreases s.len(),
{
    let swept = sweep(s, now, window);
    if s.len() == 0 {
    } else {
        let front = s.drop_last();
        assert(distinct_packet_keys(front)) by {
            assert forall|i: int, j: int|
                0 <= i < front.len() && 0 <= j < front.len() && i != j implies !record_matches(
                front[j],
                front[i].sender,
                front[i].id,
            ) by {
                assert(front[i] == s[i] && front[j] == s[j]);
            }
        }
        lemma_sweep_keeps_distinct(front, now, window);
        let swept_front = sweep(front, now, window);
        assert forall|m: int| 0 <= m < swept_front.len() implies s.contains(
            #[trigger] swept_front[m],
        ) by {
            assert(front.contains(swept_front[m]));
            let w = choose|w: int| 0 <= w < front.len() && front[w] == swept_front[m];
            assert(s[w] == swept_front[m]);
        }
        if record_fresh(s.last(), now, window) {
            assert(swept == swept_front.push(s.last()));
            assert forall|i: int, j: int|
                0 <= i < swept.len() && 0 <= j < swept.len() && i != j implies !record_matches(
                swept[j],
                swept[i].sender,
                swept[i].id,
            ) by {
                if i < swept.len() - 1 && j < swept.len() - 1 {
                    assert(swept[i] == swept_front[i] && swept[j] == swept_front[j]);
                } else if j == swept.len() - 1 {
                    assert(swept[j] == s.last());
                    assert(swept[i] == swept_front[i]);
                    lemma_front_key_differs(s, swept_front[i]);
                } else {
                    assert(swept[i] == s.last());
                    assert(swept[j] == swept_front[j]);
                    lemma_front_key_differs(s, swept_front[j]);
                }
            }
            assert forall|m: int| 0 <= m < swept.len() implies s.contains(#[trigger] swept[m])
                && record_fresh(swept[m], now, window) by {
                if m < swept.len() - 1 {
                    assert(swept[m] == swept_front[m]);
                } else {
                    assert(swept[m] == s.last());
                    assert(s[s.len() - 1] == s.last());
                }
            }
        } else {
            assert(swept == swept_front);
        }
    }
}

/// Under distinct keys, a record found before the last position carries a
/// key different from the last record's key.
proof fn lemma_front_key_differs(s: Seq<PacketRecord>, r: PacketRecord)
    requires
        distinct_packet_keys(s),
        s.len() >= 1,
        s.drop_last().contains(r),
    ensures
        !record_matches(s[s.len() - 1], r.sender, r.id),
        !record_matches(r, s[s.len() - 1].sender, s[s.len() - 1].id),
{
    let front = s.drop_last();
    let w = choose|w: int| 0 <= w < front.len() && front[w] == r;
    assert(s[w] == r);
    assert(!record_matches(s[s.len() - 1], s[w].sender, s[w].id));
    assert(!record_matches(s[w], s[s.len() - 1].sender, s[s.len() - 1].id));
}

/// Law: deduplication identity ignores time. For two records with equal
/// (sender, id) and differing timestamps, a ledger containing the one answers
/// a query matching the other's key as seen.
pub proof fn lemma_dedup_identity_ignores_time(
    s: Seq<PacketRecord>,
    stored: PacketRecord,
    queried: PacketRecord,
)
    requires
        s.contains(stored),
        queried.sender == stored.sender,
        queried.id == stored.id,
        queried.seen_at != stored.seen_at,
    ensures
        contains_packet_key(s, queried.sender, queried.id),
{
    let i = choose|i: int| 0 <= i < s.len() && s[i] == stored;
    assert(record_matches(s[i], queried.sender, queried.id));
}

/// Law: re-recording is an update, not a duplicate. Recording the same
/// (sender, id) twice at one instant leaves the ledger — and so its occupancy
/// — exactly as recording it once does.
pub proof fn lemma_rerecord_is_update(
    s: Seq<PacketRecord>,
    sender: NodeNum,
    id: PacketId,
    now: CurrentTime,
    capacity: nat,
    window: CurrentTime,
)
    requires
        distinct_packet_keys(s),
    ensures
        ({
            let once = record_step(s, sender, id, now, capacity, window);
            let twice = record_step(once, sender, id, now, capacity, window);
            twice == once && twice.len() == once.len()
        }),
{
    let fresh_record = PacketRecord { sender, id, seen_at: now };
    let inserted = if contains_packet_key(s, sender, id) {
        s.remove(index_of_packet_key(s, sender, id)).push(fresh_record)
    } else {
        s.push(fresh_record)
    };
    lemma_insert_keeps_distinct(s, sender, id, now);
    let once = record_step(s, sender, id, now, capacity, window);
    if over_threshold(inserted.len(), capacity) {
        assert(once == sweep(inserted, now, window));
        lemma_sweep_keeps_distinct(inserted, now, window);
        assert(record_fresh(fresh_record, now, window));
        assert(inserted.last() == fresh_record);
        assert(inserted.drop_last().push(fresh_record) =~= inserted);
        assert(once == sweep(inserted.drop_last(), now, window).push(fresh_record));
    } else {
        assert(once == inserted);
        assert(once.last() == fresh_record);
    }
    assert(distinct_packet_keys(once));
    assert(once.len() >= 1 && once.last() == fresh_record);
    assert(record_matches(once[once.len() - 1], sender, id));
    lemma_index_of_key_unique(once, sender, id, once.len() - 1);
    let inserted2 = once.remove(once.len() - 1).push(fresh_record);
    assert(once.remove(once.len() - 1) =~= once.drop_last());
    assert(inserted2 =~= once);
    if over_threshold(inserted2.len(), capacity) {
        if over_threshold(inserted.len(), capacity) {
            lemma_sweep_of_all_fresh(once, now, window);
            assert(record_step(once, sender, id, now, capacity, window) == once);
        } else {
            assert(inserted2.len() == inserted.len());
            assert(false);
        }
    } else {
        assert(record_step(once, sender, id, now, capacity, window) == inserted2);
    }
}

/// Sweeping a sequence whose every record is fresh changes nothing.
proof fn lemma_sweep_of_all_fresh(s: Seq<PacketRecord>, now: CurrentTime, window: CurrentTime)
    requires
        forall|m: int| 0 <= m < s.len() ==> record_fresh(#[trigger] s[m], now, window),
    ensures
        sweep(s, now, window) == s,
    decreases s.len(),
{
    if s.len() == 0 {
        assert(sweep(s, now, window) =~= s);
    } else {
        let front = s.drop_last();
        lemma_sweep_of_all_fresh(front, now, window);
        assert(s[s.len() - 1] == s.last());
        assert(sweep(s, now, window) == front.push(s.last()));
        assert(front.push(s.last()) =~= s);
    }
}

/// Law: expiry is sweep-triggered and definitive. Once time has advanced
/// beyond the suppression window for every record carrying a key, the sweep
/// removes that key, and a query for it answers "not seen".
pub proof fn lemma_expiry_definitive(
    s: Seq<PacketRecord>,
    sender: NodeNum,
    id: PacketId,
    now: CurrentTime,
    window: CurrentTime,
)
    requires
        distinct_packet_keys(s),
        forall|i: int|
            0 <= i < s.len() && record_matches(#[trigger] s[i], sender, id) ==> s[i].seen_at
                + window < now,
    ensures
        !contains_packet_key(sweep(s, now, window), sender, id),
{
    let swept = sweep(s, now, window);
    lemma_sweep_keeps_distinct(s, now, window);
    if contains_packet_key(swept, sender, id) {
        let i = index_of_packet_key(swept, sender, id);
        assert(0 <= i < swept.len() && record_matches(swept[i], sender, id));
        assert(s.contains(swept[i]) && record_fresh(swept[i], now, window));
        let w = choose|w: int| 0 <= w < s.len() && s[w] == swept[i];
        assert(record_matches(s[w], sender, id));
        assert(false);
    }
}

} // verus!
