use vstd::prelude::*;

use crate::errors::MeshError;
use crate::packets::{
    snr_absent, Data, MeshPacket, MyNodeInfo, NodeInfoLite, PayloadVariant, NODEINFO_APP_PORT,
    SNR_NEGATIVE_ZERO_BITS,
};
use crate::types::NodeNum;

verus! {

/// How many nodes the directory holds at most before evicting.
pub const NODE_DB_CAPACITY: usize = 100;

/// lru::LruCache is declared opaque: Verus carries its values through and
/// reasons about them only through `lru_entries` and `lru_capacity`.
#[verifier::external_type_specification]
#[verifier::external_body]
#[verifier::reject_recursive_types(K)]
#[verifier::reject_recursive_types(V)]
#[verifier::reject_recursive_types(S)]
pub struct ExLruCache<K, V, S>(lru::LruCache<K, V, S>);

/// The concrete cache behind the directory, with its hasher pinned so the
/// type is fully determined.
pub type NodeCache = lru::LruCache<NodeNum, NodeInfoLite, std::collections::hash_map::RandomState>;

/// The cache's (key, value) pairs, from least to most recently used.
pub uninterp spec fn lru_entries(cache: NodeCache) -> Seq<
    (NodeNum, NodeInfoLite),
>;

/// The bound the cache was constructed with.
pub uninterp spec fn lru_capacity(cache: NodeCache) -> nat;

/// Whether some entry carries the given key.
pub open spec fn has_node_key(s: Seq<(NodeNum, NodeInfoLite)>, key: NodeNum) -> bool {
    exists|i: int| 0 <= i < s.len() && (#[trigger] s[i]).0 == key
}

/// The index of the entry carrying the given key; meaningful only when the
/// key is present and the keys are distinct.
pub open spec fn index_of_node_key(s: Seq<(NodeNum, NodeInfoLite)>, key: NodeNum) -> int {
    choose|i: int| 0 <= i < s.len() && (#[trigger] s[i]).0 == key
}

/// No two entries share a key.
pub open spec fn distinct_node_keys(s: Seq<(NodeNum, NodeInfoLite)>) -> bool {
    forall|i: int, j: int|
        0 <= i < s.len() && 0 <= j < s.len() && i != j ==> (#[trigger] s[i]).0 != (
        #[trigger] s[j]).0
}

/// Relies on lru::LruCache::with_hasher: an empty cache holding at most `cap`
/// entries.
#[verifier::external_body]
fn lru_new(cap: usize) -> (cache: NodeCache)
    requires
        1 <= cap,
    ensures
        lru_entries(cache) == Seq::<(NodeNum, NodeInfoLite)>::empty(),
        lru_capacity(cache) == cap as nat,
{
    lru::LruCache::with_hasher(
        std::num::NonZeroUsize::new(cap).unwrap(),
        std::collections::hash_map::RandomState::new(),
    )
}

/// Relies on lru::LruCache::get: a copy of the key's value, the entry moving
/// to most recently used; on a miss nothing changes.
#[verifier::external_body]
fn lru_get(cache: &mut NodeCache, key: NodeNum) -> (found: Option<
    NodeInfoLite,
>)
    ensures
        lru_capacity(*final(cache)) == lru_capacity(*old(cache)),
        !has_node_key(lru_entries(*old(cache)), key) ==> found is None && lru_entries(
            *final(cache),
        ) == lru_entries(*old(cache)),
        has_node_key(lru_entries(*old(cache)), key) ==> ({
            let s = lru_entries(*old(cache));
            let i = index_of_node_key(s, key);
            found == Some(s[i].1) && lru_entries(*final(cache)) == s.remove(i).push(s[i])
        }),
{
    cache.get(&key).copied()
}

/// Relies on lru::LruCache::put: inserts or updates the key as most recently
/// used; a new key arriving with the cache full evicts the least recently
/// used entry.
#[verifier::external_body]
fn lru_put(cache: &mut NodeCache, key: NodeNum, value: NodeInfoLite)
    ensures
        lru_capacity(*final(cache)) == lru_capacity(*old(cache)),
        ({
            let s = lru_entries(*old(cache));
            let entry = (key, value);
            if has_node_key(s, key) {
                lru_entries(*final(cache)) == s.remove(index_of_node_key(s, key)).push(entry)
            } else if s.len() < lru_capacity(*old(cache)) {
                lru_entries(*final(cache)) == s.push(entry)
            } else if s.len() == lru_capacity(*old(cache)) {
                lru_entries(*final(cache)) == s.subrange(1, s.len() as int).push(entry)
            } else {
                true
            }
        }),
{
    cache.put(key, value);
}

/// Relies on lru::LruCache::len: the number of entries stored.
#[verifier::external_body]
fn lru_len(cache: &NodeCache) -> (n: usize)
    ensures
        n == lru_entries(*cache).len(),
{
    cache.len()
}

/// Relies on rand::random: a u32 from the thread-local generator; nothing is
/// promised of the value.
#[verifier::external_body]
fn random_u32() -> u32 {
    rand::random::<u32>()
}

/// A freshly created record for a node never heard before: zero-initialized
/// except for the node number.
pub open spec fn blank_node_info(num: NodeNum) -> NodeInfoLite {
    NodeInfoLite { num, last_heard: 0, snr: 0, channel: 0 }
}

/// Which failure, if any, merging this packet reports.
pub open spec fn merge_verdict(p: MeshPacket) -> Result<(), MeshError> {
    if p.from == 0 {
        Err(MeshError::InvalidSender)
    } else {
        match p.payload_variant {
            None => Err(MeshError::MissingPayload),
            Some(PayloadVariant::Encrypted(_)) => Err(MeshError::UnsupportedPayload),
            Some(PayloadVariant::Decoded(_)) => Ok(()),
        }
    }
}

/// The decoded payload, when the packet carries one.
pub open spec fn decoded_data(p: MeshPacket) -> Option<Data> {
    match p.payload_variant {
        Some(PayloadVariant::Decoded(d)) => Some(d),
        _ => None,
    }
}

/// The field-by-field partial merge: zero-valued packet fields never
/// overwrite (for the signal reading, either bit pattern of the float zero),
/// and the channel is taken — even when zero — only from a node-discovery
/// payload.
pub open spec fn merge_fields(info: NodeInfoLite, p: MeshPacket, d: Data) -> NodeInfoLite {
    NodeInfoLite {
        num: info.num,
        last_heard: if p.rx_time != 0 {
            p.rx_time
        } else {
            info.last_heard
        },
        snr: if !snr_absent(p.rx_snr) {
            p.rx_snr
        } else {
            info.snr
        },
        channel: if d.portnum == NODEINFO_APP_PORT {
            p.channel
        } else {
            info.channel
        },
    }
}

/// What a successful merge does to the directory: the sender's record —
/// existing, or blank if new — absorbs the packet's fields and becomes most
/// recently used; a new sender entering a full directory evicts the least
/// recently used entry.
pub open spec fn merged_entries(
    s: Seq<(NodeNum, NodeInfoLite)>,
    p: MeshPacket,
    d: Data,
    capacity: nat,
) -> Seq<(NodeNum, NodeInfoLite)> {
    if has_node_key(s, p.from) {
        let i = index_of_node_key(s, p.from);
        s.remove(i).push((p.from, merge_fields(s[i].1, p, d)))
    } else if s.len() < capacity {
        s.push((p.from, merge_fields(blank_node_info(p.from), p, d)))
    } else {
        s.subrange(1, s.len() as int).push((p.from, merge_fields(blank_node_info(p.from), p, d)))
    }
}

/// The bounded node directory: knowledge about at most `NODE_DB_CAPACITY`
/// mesh nodes, merging partial observations and evicting the least recently
/// used entry under memory pressure.
#[derive(Debug)]
pub struct NodeDB {
    mesh_nodes: NodeCache,
    my_node_info: MyNodeInfo,
}

impl NodeDB {
    /// The directory's entries, least recently used first.
    pub closed spec fn entries(self) -> Seq<(NodeNum, NodeInfoLite)> {
        lru_entries(self.mesh_nodes)
    }

    /// The directory's fixed capacity.
    pub closed spec fn capacity(self) -> nat {
        lru_capacity(self.mesh_nodes)
    }

    /// The local node's own identifier.
    pub closed spec fn my_node_num(self) -> NodeNum {
        self.my_node_info.my_node_num
    }

    /// Well-formedness: keys are unique and occupancy never exceeds capacity.
    pub open spec fn wf(self) -> bool {
        distinct_node_keys(self.entries()) && self.entries().len() <= self.capacity() && 1
            <= self.capacity()
    }

    /// An empty directory; the local node's identity is drawn at random once
    /// here and never persisted.
    pub fn new() -> (db: NodeDB)
        ensures
            db.wf(),
            db.entries() == Seq::<(NodeNum, NodeInfoLite)>::empty(),
            db.capacity() == NODE_DB_CAPACITY as nat,
    {
        let random_node_id = random_u32();
        let my_node_info = MyNodeInfo { my_node_num: random_node_id };
        NodeDB { mesh_nodes: lru_new(NODE_DB_CAPACITY), my_node_info }
    }

    /// How many nodes the directory currently knows.
    pub fn len(&self) -> (n: usize)
        ensures
            n == self.entries().len(),
    {
        lru_len(&self.mesh_nodes)
    }

    /// Looks a node up. A hit also marks the node most recently used: a read
    /// refreshes recency, as in any caching structure.
    pub fn get_node_info_by_num(&mut self, node_num: NodeNum) -> (found: Option<NodeInfoLite>)
        requires
            old(self).wf(),
        ensures
            final(self).wf(),
            final(self).capacity() == old(self).capacity(),
            final(self).my_node_num() == old(self).my_node_num(),
            !has_node_key(old(self).entries(), node_num) ==> found is None && final(self).entries()
                == old(self).entries(),
            has_node_key(old(self).entries(), node_num) ==> ({
                let s = old(self).entries();
                let i = index_of_node_key(s, node_num);
                found == Some(s[i].1) && final(self).entries() == s.remove(i).push(s[i])
            }),
    {
        let found = lru_get(&mut self.mesh_nodes, node_num);
        proof {
            let s = old(self).entries();
            if has_node_key(s, node_num) {
                let i = index_of_node_key(s, node_num);
                assert(s[i] == (s[i].0, s[i].1));
                lemma_update_keeps_distinct(s, node_num, s[i].1);
            }
        }
        found
    }

    /// Merges one packet's observations into the sender's directory record,
    /// creating the record on first contact. Failures report the packet's
    /// defect and leave the directory unchanged.
    pub fn update_node_from_mesh_packet(&mut self, packet: &MeshPacket) -> (result: Result<
        (),
        MeshError,
    >)
        requires
            old(self).wf(),
        ensures
            final(self).wf(),
            final(self).capacity() == old(self).capacity(),
            final(self).my_node_num() == old(self).my_node_num(),
            result == merge_verdict(*packet),
            result is Err ==> final(self).entries() == old(self).entries(),
            result is Ok ==> final(self).entries() == merged_entries(
                old(self).entries(),
                *packet,
                decoded_data(*packet)->Some_0,
                old(self).capacity(),
            ),
    {
        if packet.from == 0 {
            return Err(MeshError::InvalidSender);
        }
        let data: Data = match &packet.payload_variant {
            None => {
                return Err(MeshError::MissingPayload);
            },
            Some(PayloadVariant::Encrypted(_)) => {
                return Err(MeshError::UnsupportedPayload);
            },
            Some(PayloadVariant::Decoded(d)) => *d,
        };
        let base = match lru_get(&mut self.mesh_nodes, packet.from) {
            Some(info) => info,
            None => NodeInfoLite { num: packet.from, last_heard: 0, snr: 0, channel: 0 },
        };
        let mut updated = base;
        if packet.rx_time != 0 {
            updated.last_heard = packet.rx_time;
        }
        if packet.rx_snr != 0 && packet.rx_snr != SNR_NEGATIVE_ZERO_BITS {
            updated.snr = packet.rx_snr;
        }
        if data.portnum == NODEINFO_APP_PORT {
            updated.channel = packet.channel;
        }
        proof {
            let s = old(self).entries();
            if has_node_key(s, packet.from) {
                let i = index_of_node_key(s, packet.from);
                assert(s[i] == (s[i].0, s[i].1));
                lemma_update_keeps_distinct(s, packet.from, s[i].1);
                let mid = s.remove(i).push(s[i]);
                assert(mid[mid.len() - 1].0 == packet.from);
                lemma_node_index_unique(mid, packet.from, mid.len() - 1);
            }
        }
        let ghost mid_entries = self.entries();
        lru_put(&mut self.mesh_nodes, packet.from, updated);
        proof {
            let s = old(self).entries();
            if has_node_key(s, packet.from) {
                let i = index_of_node_key(s, packet.from);
                let mid = s.remove(i).push(s[i]);
                assert(mid_entries == mid);
                lemma_update_keeps_distinct(mid, packet.from, updated);
                assert(mid.remove(mid.len() - 1) =~= s.remove(i));
                assert(self.entries() == s.remove(i).push((packet.from, updated)));
            } else {
                assert(mid_entries == s);
                if s.len() < self.capacity() {
                    lemma_append_keeps_distinct(s, packet.from, updated);
                } else {
                    assert(s.len() == self.capacity());
                    lemma_evict_push_keeps_distinct(s, packet.from, updated);
                }
            }
            assert(self.entries() == merged_entries(
                s,
                *packet,
                data,
                old(self).capacity(),
            ));
        }
        Ok(())
    }
}

impl Default for NodeDB {
    /// An empty directory, exactly as `new` builds it.
    fn default() -> (db: Self)
        ensures
            db.wf(),
            db.entries() == Seq::<(NodeNum, NodeInfoLite)>::empty(),
            db.capacity() == NODE_DB_CAPACITY as nat,
    {
        Self::new()
    }
}

/// Under distinct keys, any index whose entry carries the key is the index
/// that `index_of_node_key` denotes.
proof fn lemma_node_index_unique(s: Seq<(NodeNum, NodeInfoLite)>, key: NodeNum, i: int)
    requires
        distinct_node_keys(s),
        0 <= i < s.len(),
        s[i].0 == key,
    ensures
        has_node_key(s, key),
        index_of_node_key(s, key) == i,
{
    assert(has_node_key(s, key));
    let j = index_of_node_key(s, key);
    assert(0 <= j < s.len() && s[j].0 == key);
    if i != j {
        assert(s[i].0 != s[j].0);
        assert(false);
    }
}

/// Replacing the key's entry (removing it, then re-appending under the same
/// key) keeps keys distinct and the length unchanged.
proof fn lemma_update_keeps_distinct(s: Seq<(NodeNum, NodeInfoLite)>, key: NodeNum, value: NodeInfoLite)
    requires
        distinct_node_keys(s),
        has_node_key(s, key),
    ensures
        ({
            let i = index_of_node_key(s, key);
            let updated = s.remove(i).push((key, value));
            distinct_node_keys(updated) && updated.len() == s.len()
        }),
{
    let i = index_of_node_key(s, key);
    assert(0 <= i < s.len() && s[i].0 == key);
    let removed = s.remove(i);
    assert forall|m: int| 0 <= m < removed.len() implies (#[trigger] removed[m]).0 != key by {
        if m < i {
            assert(removed[m] == s[m]);
        } else {
            assert(removed[m] == s[m + 1]);
        }
    }
    assert forall|m: int, n: int|
        0 <= m < removed.len() && 0 <= n < removed.len() && m != n implies (
    #[trigger] removed[m]).0 != (#[trigger] removed[n]).0 by {
        let om: int = if m < i {
            m
        } else {
            m + 1
        };
        let on: int = if n < i {
            n
        } else {
            n + 1
        };
        assert(removed[m] == s[om]);
        assert(removed[n] == s[on]);
    }
    let updated = removed.push((key, value));
    assert forall|m: int, n: int|
        0 <= m < updated.len() && 0 <= n < updated.len() && m != n implies (
    #[trigger] updated[m]).0 != (#[trigger] updated[n]).0 by {
        if m < updated.len() - 1 && n < updated.len() - 1 {
            assert(updated[m] == removed[m] && updated[n] == removed[n]);
        } else if n == updated.len() - 1 {
            assert(updated[m] == removed[m] && updated[n].0 == key);
        } else {
            assert(updated[n] == removed[n] && updated[m].0 == key);
        }
    }
}

/// Appending a new key below capacity keeps keys distinct.
proof fn lemma_append_keeps_distinct(s: Seq<(NodeNum, NodeInfoLite)>, key: NodeNum, value: NodeInfoLite)
    requires
        distinct_node_keys(s),
        !has_node_key(s, key),
    ensures
        distinct_node_keys(s.push((key, value))),
{
    let pushed = s.push((key, value));
    assert forall|m: int, n: int|
        0 <= m < pushed.len() && 0 <= n < pushed.len() && m != n implies (
    #[trigger] pushed[m]).0 != (#[trigger] pushed[n]).0 by {
        if m < s.len() && n < s.len() {
        } else if n == s.len() {
            assert(pushed[m] == s[m]);
            assert(pushed[n].0 == key);
        } else {
            assert(pushed[n] == s[n]);
            assert(pushed[m].0 == key);
        }
    }
}

/// Evicting the least recently used entry and appending a new key keeps keys
/// distinct and the length unchanged.
proof fn lemma_evict_push_keeps_distinct(s: Seq<(NodeNum, NodeInfoLite)>, key: NodeNum, value: NodeInfoLite)
    requires
        distinct_node_keys(s),
        !has_node_key(s, key),
        s.len() >= 1,
    ensures
        ({
            let evicted = s.subrange(1, s.len() as int).push((key, value));
            distinct_node_keys(evicted) && evicted.len() == s.len()
        }),
{
    let tail = s.subrange(1, s.len() as int);
    assert forall|m: int| 0 <= m < tail.len() implies (#[trigger] tail[m]).0 != key by {
        assert(tail[m] == s[m + 1]);
    }
    assert forall|m: int, n: int|
        0 <= m < tail.len() && 0 <= n < tail.len() && m != n implies (#[trigger] tail[m]).0 != (
    #[trigger] tail[n]).0 by {
        assert(tail[m] == s[m + 1]);
        assert(tail[n] == s[n + 1]);
    }
    let evicted = tail.push((key, value));
    assert forall|m: int, n: int|
        0 <= m < evicted.len() && 0 <= n < evicted.len() && m != n implies (
    #[trigger] evicted[m]).0 != (#[trigger] evicted[n]).0 by {
        if m < evicted.len() - 1 && n < evicted.len() - 1 {
            assert(evicted[m] == tail[m] && evicted[n] == tail[n]);
        } else if n == evicted.len() - 1 {
            assert(evicted[m] == tail[m] && evicted[n].0 == key);
        } else {
            assert(evicted[n] == tail[n] && evicted[m].0 == key);
        }
    }
}

/// Law: directory merge is idempotent on repeated identical packets.
/// Applying one valid packet to an empty directory twice yields a single
/// record with the same fields a single application leaves; here even the
/// recency order is unchanged.
pub proof fn lemma_merge_idempotent(p: MeshPacket, d: Data, capacity: nat)
    requires
        p.from != 0,
        decoded_data(p) == Some(d),
        1 <= capacity,
    ensures
        ({
            let once = merged_entries(Seq::empty(), p, d, capacity);
            let twice = merged_entries(once, p, d, capacity);
            once.len() == 1 && twice == once
        }),
{
    let empty = Seq::<(NodeNum, NodeInfoLite)>::empty();
    let first = merge_fields(blank_node_info(p.from), p, d);
    let once = merged_entries(empty, p, d, capacity);
    assert(!has_node_key(empty, p.from));
    assert(once == empty.push((p.from, first)));
    assert(once[0].0 == p.from);
    assert(distinct_node_keys(once));
    lemma_node_index_unique(once, p.from, 0);
    let twice = merged_entries(once, p, d, capacity);
    assert(twice == once.remove(0).push((p.from, merge_fields(first, p, d))));
    assert(merge_fields(first, p, d) == first);
    assert(once.remove(0) =~= empty);
    assert(twice =~= once);
}

} // verus!
