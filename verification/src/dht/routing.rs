//! The Kademlia routing table: 160 buckets of up to K nodes, indexed by the
//! first bit where a candidate identifier differs from ours.

use vstd::prelude::*;
use crate::bits;
use crate::dht::node::{Node, NodeId, NodeSpec, spec_node_id_wf, spec_elapsed};

verus! {

/// Number of nodes one bucket holds.
pub const K: usize = 8;

/// The views of a list of nodes.
pub open spec fn spec_nodes_view(s: Seq<Node>) -> Seq<NodeSpec> {
    Seq::new(s.len(), |i: int| s[i]@)
}

/// The position of the first node with identifier `id`, or `-1`.
pub open spec fn spec_find_node(s: Seq<NodeSpec>, id: Seq<u8>, from: int) -> int
    decreases s.len() - from,
{
    if from < 0 || from >= s.len() {
        -1
    } else if s[from].id == id {
        from
    } else {
        spec_find_node(s, id, from + 1)
    }
}

/// One bucket of the routing table.
#[derive(Debug, Clone)]
pub struct KBucket {
    /// Nodes in this bucket, oldest first.
    pub nodes: Vec<Node>,
    /// When this bucket last changed, in milliseconds of the caller's
    /// clock.
    pub last_changed: u64,
    /// The identifier prefix this bucket covers.
    pub prefix: NodeId,
}

impl KBucket {
    /// An empty bucket with the given prefix, created now.
    pub fn new(prefix: NodeId, now: u64) -> (r: KBucket)
        ensures
            r.nodes@.len() == 0,
            r.last_changed == now,
            r.prefix.0@ == prefix.0@,
    {
        KBucket { nodes: Vec::new(), last_changed: now, prefix }
    }

    /// Inserts a node: a node already present has its last-seen refreshed;
    /// a full bucket rejects a new node; otherwise the node is appended.
    /// Returns whether the node is now in the bucket.
    pub fn add_node(&mut self, node: Node, now: u64) -> (r: bool)
        ensures
            final(self).prefix == old(self).prefix,
            ({
                let s = spec_nodes_view(old(self).nodes@);
                let j = spec_find_node(s, node@.id, 0);
                if j >= 0 {
                    r == true && final(self).last_changed == now && spec_nodes_view(
                        final(self).nodes@,
                    ) == s.update(j, NodeSpec { last_seen: now, ..s[j] })
                } else if s.len() >= K {
                    r == false && *final(self) == *old(self)
                } else {
                    r == true && final(self).last_changed == now && spec_nodes_view(
                        final(self).nodes@,
                    ) == s.push(node@)
                }
            }),
    {
        let ghost s = spec_nodes_view(self.nodes@);
        let mut k: usize = 0;
        while k < self.nodes.len()
            invariant
                k <= self.nodes@.len(),
                s == spec_nodes_view(self.nodes@),
                *self == *old(self),
                forall|i: int| 0 <= i < k ==> spec_nodes_view(self.nodes@)[i].id != node@.id,
                spec_find_node(s, node@.id, 0) == spec_find_node(s, node@.id, k as int),
            decreases self.nodes@.len() - k,
        {
            if crate::protocol::wire::bytes_eq(self.nodes[k].id.as_bytes(), node.id.as_bytes()) {
                proof {
                    assert(s[k as int] == self.nodes@[k as int]@);
                    assert(spec_find_node(s, node@.id, k as int) == k);
                }
                let existing = &mut self.nodes[k];
                existing.update_last_seen(now);
                self.last_changed = now;
                proof {
                    assert(spec_nodes_view(self.nodes@) =~= s.update(
                        k as int,
                        NodeSpec { last_seen: now, ..s[k as int] },
                    ));
                }
                return true;
            }
            proof {
                assert(s[k as int] == self.nodes@[k as int]@);
            }
            k = k + 1;
        }
        if self.nodes.len() >= K {
            return false;
        }
        self.nodes.push(node);
        self.last_changed = now;
        proof {
            assert(spec_nodes_view(self.nodes@) =~= s.push(self.nodes@.last()@));
        }
        true
    }

    /// Removes every node with this identifier.
    pub fn remove_node(&mut self, id: &NodeId, now: u64)
        ensures
            final(self).prefix == old(self).prefix,
            final(self).last_changed == now,
            final(self).nodes@.len() <= old(self).nodes@.len(),
            forall|i: int|
                0 <= i < final(self).nodes@.len() ==> final(self).nodes@[i]@.id != id.0@,
            forall|i: int|
                0 <= i < final(self).nodes@.len() ==> spec_nodes_view(old(self).nodes@).contains(
                    #[trigger] final(self).nodes@[i]@,
                ),
    {
        let mut kept: Vec<Node> = Vec::new();
        let mut k: usize = 0;
        while k < self.nodes.len()
            invariant
                k <= self.nodes@.len(),
                *self == *old(self),
                forall|i: int| 0 <= i < kept@.len() ==> #[trigger] kept@[i]@.id != id.0@,
                forall|i: int|
                    0 <= i < kept@.len() ==> spec_nodes_view(self.nodes@).contains(
                        #[trigger] kept@[i]@,
                    ),
                kept@.len() <= k,
            decreases self.nodes@.len() - k,
        {
            if !crate::protocol::wire::bytes_eq(self.nodes[k].id.as_bytes(), id.as_bytes()) {
                let n = &self.nodes[k];
                kept.push(
                    Node { id: n.id.duplicate(), endpoint: n.endpoint, last_seen: n.last_seen },
                );
                proof {
                    assert(kept@.last()@ == spec_nodes_view(self.nodes@)[k as int]);
                    assert(spec_nodes_view(self.nodes@).contains(kept@.last()@));
                }
            }
            k = k + 1;
        }
        self.nodes = kept;
        self.last_changed = now;
    }

    /// The first node with this identifier, if any.
    pub fn find_node(&self, id: &NodeId) -> (r: Option<&Node>)
        ensures
            ({
                let s = spec_nodes_view(self.nodes@);
                let j = spec_find_node(s, id.0@, 0);
                match r {
                    Some(n) => j >= 0 && n@ == s[j],
                    None => j == -1,
                }
            }),
    {
        let ghost s = spec_nodes_view(self.nodes@);
        let mut k: usize = 0;
        while k < self.nodes.len()
            invariant
                k <= self.nodes@.len(),
                s == spec_nodes_view(self.nodes@),
                spec_find_node(s, id.0@, 0) == spec_find_node(s, id.0@, k as int),
                forall|i: int| 0 <= i < k ==> spec_nodes_view(self.nodes@)[i].id != id.0@,
            decreases self.nodes@.len() - k,
        {
            if crate::protocol::wire::bytes_eq(self.nodes[k].id.as_bytes(), id.as_bytes()) {
                proof {
                    assert(s[k as int] == self.nodes@[k as int]@);
                    assert(spec_find_node(s, id.0@, k as int) == k);
                }
                return Some(&self.nodes[k]);
            }
            proof {
                assert(s[k as int] == self.nodes@[k as int]@);
            }
            k = k + 1;
        }
        None
    }

    /// How many nodes the bucket holds.
    pub fn len(&self) -> (r: usize)
        ensures
            r == self.nodes@.len(),
    {
        self.nodes.len()
    }

    /// Whether the bucket is full.
    pub fn is_full(&self) -> (r: bool)
        ensures
            r == (self.nodes@.len() >= K),
    {
        self.nodes.len() >= K
    }
}

/// The position of the first bit, MSB of byte zero first, where the two
/// 160-bit identifiers differ at or after position `i`; identical
/// identifiers land in the last bucket, 159.
pub open spec fn spec_first_diff_bit_from(a: Seq<u8>, b: Seq<u8>, i: int) -> int
    decreases 160 - i,
{
    if i < 0 || i >= 160 {
        159
    } else if bits::spec_bit_at(a, i) != bits::spec_bit_at(b, i) {
        i
    } else {
        spec_first_diff_bit_from(a, b, i + 1)
    }
}

/// The bucket index of a candidate identifier against ours.
pub open spec fn spec_bucket_index(ours: Seq<u8>, candidate: Seq<u8>) -> int {
    spec_first_diff_bit_from(ours, candidate, 0)
}

/// The bucket index of any identifier equals the index of the first bit
/// where it differs from ours: all bits before it agree, and the bit at it
/// differs whenever the identifiers differ anywhere at all.
pub proof fn lemma_bucket_index_is_first_diff(a: Seq<u8>, b: Seq<u8>)
    ensures
        0 <= spec_bucket_index(a, b) < 160,
        forall|j: int|
            0 <= j < spec_bucket_index(a, b) ==> bits::spec_bit_at(a, j) == bits::spec_bit_at(
                b,
                j,
            ),
        (exists|j: int|
            0 <= j < 160 && bits::spec_bit_at(a, j) != bits::spec_bit_at(b, j)) ==> bits::spec_bit_at(
            a,
            spec_bucket_index(a, b),
        ) != bits::spec_bit_at(b, spec_bucket_index(a, b)),
{
    lemma_first_diff_from(a, b, 0);
}

/// The characterisation of `spec_first_diff_bit_from`.
proof fn lemma_first_diff_from(a: Seq<u8>, b: Seq<u8>, i: int)
    requires
        0 <= i <= 160,
    ensures
        i <= spec_first_diff_bit_from(a, b, i) < 160 || spec_first_diff_bit_from(a, b, i) == 159,
        0 <= spec_first_diff_bit_from(a, b, i) < 160,
        forall|j: int|
            i <= j < spec_first_diff_bit_from(a, b, i) ==> bits::spec_bit_at(a, j)
                == bits::spec_bit_at(b, j),
        (exists|j: int|
            i <= j < 160 && bits::spec_bit_at(a, j) != bits::spec_bit_at(b, j))
            ==> bits::spec_bit_at(a, spec_first_diff_bit_from(a, b, i)) != bits::spec_bit_at(
            b,
            spec_first_diff_bit_from(a, b, i),
        ),
    decreases 160 - i,
{
    if i >= 160 {
    } else if bits::spec_bit_at(a, i) != bits::spec_bit_at(b, i) {
    } else {
        lemma_first_diff_from(a, b, i + 1);
        assert forall|j: int|
            i <= j < spec_first_diff_bit_from(a, b, i) implies bits::spec_bit_at(a, j)
            == bits::spec_bit_at(b, j) by {
            if j > i {
                assert(bits::spec_bit_at(a, j) == bits::spec_bit_at(b, j));
            }
        }
        if exists|j: int| i <= j < 160 && bits::spec_bit_at(a, j) != bits::spec_bit_at(b, j) {
            let j = choose|j: int|
                i <= j < 160 && bits::spec_bit_at(a, j) != bits::spec_bit_at(b, j);
            assert(j != i);
            assert(i + 1 <= j < 160 && bits::spec_bit_at(a, j) != bits::spec_bit_at(b, j));
        }
    }
}

/// Whether some bucket of the table holds a node with this content.
pub open spec fn spec_in_table(buckets: Seq<KBucket>, n: NodeSpec) -> bool {
    exists|b: int, p: int|
        0 <= b < buckets.len() && 0 <= p < buckets[b].nodes@.len() && #[trigger] buckets[b].nodes@[
        p]@ == n
}

/// The Kademlia routing table: exactly 160 buckets.
#[derive(Debug)]
pub struct RoutingTable {
    /// Our own identifier.
    pub our_id: NodeId,
    /// One bucket per possible first-differing-bit position.
    pub buckets: Vec<KBucket>,
}

/// A table with its 160 buckets and a well-formed identifier.
pub open spec fn spec_table_wf(t: &RoutingTable) -> bool {
    &&& spec_node_id_wf(&t.our_id)
    &&& t.buckets@.len() == 160
}

impl RoutingTable {
    /// A fresh table for our identifier: 160 empty buckets, each holding as
    /// prefix our identifier with the bucket's bit flipped.
    pub fn new(our_id: NodeId, now: u64) -> (r: RoutingTable)
        requires
            spec_node_id_wf(&our_id),
        ensures
            spec_table_wf(&r),
            r.our_id.0@ == our_id.0@,
            forall|i: int| 0 <= i < 160 ==> (#[trigger] r.buckets@[i]).nodes@.len() == 0,
    {
        let mut buckets: Vec<KBucket> = Vec::new();
        let mut i: usize = 0;
        while i < 160
            invariant
                i <= 160,
                buckets@.len() == i,
                spec_node_id_wf(&our_id),
                forall|j: int| 0 <= j < i ==> (#[trigger] buckets@[j]).nodes@.len() == 0,
            decreases 160 - i,
        {
            let prefix = Self::calculate_prefix(&our_id, i);
            buckets.push(KBucket::new(prefix, now));
            i = i + 1;
        }
        RoutingTable { our_id, buckets }
    }

    /// Our identifier with bit `bucket_index` flipped: the shortest
    /// identifier prefix that lands in that bucket.
    pub fn calculate_prefix(our_id: &NodeId, bucket_index: usize) -> (r: NodeId)
        requires
            spec_node_id_wf(our_id),
            bucket_index < 160,
        ensures
            spec_node_id_wf(&r),
            bits::spec_bit_at(r.0@, bucket_index as int) != bits::spec_bit_at(
                our_id.0@,
                bucket_index as int,
            ),
            forall|j: int|
                0 <= j < 160 && j != bucket_index ==> bits::spec_bit_at(r.0@, j)
                    == bits::spec_bit_at(our_id.0@, j),
    {
        let mut prefix = crate::util::copy_slice(our_id.0.as_slice());
        let byte_index = bucket_index / 8;
        let bit_index = (7 - (bucket_index % 8)) as u8;
        let flipped = prefix[byte_index] ^ (1u8 << bit_index);
        prefix.set(byte_index, flipped);
        proof {
            let old_bytes = our_id.0@;
            let new_bytes = prefix@;
            assert forall|j: int|
                0 <= j < 160 && j != bucket_index implies bits::spec_bit_at(new_bytes, j)
                == bits::spec_bit_at(old_bytes, j) by {
                if j / 8 == byte_index {
                    lemma_xor_bit(old_bytes[byte_index as int], bit_index, (7 - (j % 8)) as u8);
                    assert(j % 8 != bucket_index % 8) by {
                        assert(j == 8 * (j / 8) + j % 8);
                        assert(bucket_index == 8 * ((bucket_index as int) / 8) + (
                        bucket_index as int) % 8);
                    }
                } else {
                    assert(new_bytes[j / 8] == old_bytes[j / 8]);
                }
            }
            lemma_xor_bit(old_bytes[byte_index as int], bit_index, bit_index);
        }
        NodeId::new(prefix)
    }

    /// The bucket a candidate identifier belongs to: the position of the
    /// first bit where it differs from ours, and the last bucket for our
    /// own identifier.
    pub fn get_bucket_index(&self, id: &NodeId) -> (r: usize)
        requires
            spec_node_id_wf(&self.our_id),
            spec_node_id_wf(id),
        ensures
            r == spec_bucket_index(self.our_id.0@, id.0@),
            r < 160,
    {
        let ghost ours = self.our_id.0@;
        let ghost theirs = id.0@;
        let mut i: usize = 0;
        while i < 160
            invariant
                i <= 160,
                ours == self.our_id.0@,
                theirs == id.0@,
                ours.len() == 20,
                theirs.len() == 20,
                spec_first_diff_bit_from(ours, theirs, 0) == spec_first_diff_bit_from(
                    ours,
                    theirs,
                    i as int,
                ),
            decreases 160 - i,
        {
            let our_bit = bits::get_bit(self.our_id.0.as_slice(), i);
            let their_bit = bits::get_bit(id.0.as_slice(), i);
            if our_bit != their_bit {
                return i;
            }
            i = i + 1;
        }
        159
    }

    /// Inserts a node into the bucket its identifier names, under the
    /// bucket's rules: a known identifier is refreshed, a full bucket
    /// rejects a new node, and otherwise the node is appended; the
    /// returned flag reports whether the node is now in its bucket.
    pub fn add_node(&mut self, node: Node, now: u64) -> (r: bool)
        requires
            spec_table_wf(&*old(self)),
            spec_node_id_wf(&node.id),
        ensures
            spec_table_wf(&*final(self)),
            final(self).our_id == old(self).our_id,
            final(self).buckets@.len() == old(self).buckets@.len(),
            ({
                let bi = spec_bucket_index(old(self).our_id.0@, node@.id);
                forall|i: int|
                    0 <= i < 160 && i != bi ==> final(self).buckets@[i] == #[trigger] old(self).buckets@[i]
            }),
            ({
                let bi = spec_bucket_index(old(self).our_id.0@, node@.id);
                let s = spec_nodes_view(old(self).buckets@[bi].nodes@);
                let j = spec_find_node(s, node@.id, 0);
                let nb = final(self).buckets@[bi];
                &&& nb.prefix == old(self).buckets@[bi].prefix
                &&& if j >= 0 {
                    r == true && nb.last_changed == now && spec_nodes_view(nb.nodes@) == s.update(
                        j,
                        NodeSpec { last_seen: now, ..s[j] },
                    )
                } else if s.len() >= K {
                    r == false && nb == old(self).buckets@[bi]
                } else {
                    r == true && nb.last_changed == now && spec_nodes_view(nb.nodes@) == s.push(
                        node@,
                    )
                }
            }),
    {
        let bucket_index = self.get_bucket_index(&node.id);
        let bucket = &mut self.buckets[bucket_index];
        let r = bucket.add_node(node, now);
        proof {
            assert(self.buckets@ =~= old(self).buckets@.update(
                bucket_index as int,
                self.buckets@[bucket_index as int],
            ));
        }
        r
    }

    /// Removes a node from the bucket its identifier names.
    pub fn remove_node(&mut self, id: &NodeId, now: u64)
        requires
            spec_table_wf(&*old(self)),
            spec_node_id_wf(id),
        ensures
            spec_table_wf(&*final(self)),
            final(self).our_id == old(self).our_id,
            ({
                let bi = spec_bucket_index(old(self).our_id.0@, id.0@);
                &&& forall|i: int|
                    0 <= i < 160 && i != bi ==> final(self).buckets@[i] == #[trigger] old(self).buckets@[i]
                &&& forall|j: int|
                    0 <= j < final(self).buckets@[bi].nodes@.len() ==> final(self).buckets@[bi].nodes@[j]@.id != id.0@
            }),
    {
        let bucket_index = self.get_bucket_index(id);
        let bucket = &mut self.buckets[bucket_index];
        bucket.remove_node(id, now);
        proof {
            assert(self.buckets@ =~= old(self).buckets@.update(
                bucket_index as int,
                self.buckets@[bucket_index as int],
            ));
        }
    }

    /// The first node recorded under this identifier, if any: looked up in
    /// the bucket the identifier names.
    pub fn find_node(&self, id: &NodeId) -> (r: Option<&Node>)
        requires
            spec_table_wf(self),
            spec_node_id_wf(id),
        ensures
            ({
                let bi = spec_bucket_index(self.our_id.0@, id.0@);
                let s = spec_nodes_view(self.buckets@[bi].nodes@);
                let j = spec_find_node(s, id.0@, 0);
                match r {
                    Some(n) => j >= 0 && n@ == s[j],
                    None => j == -1,
                }
            }),
    {
        let bucket_index = self.get_bucket_index(id);
        self.buckets[bucket_index].find_node(id)
    }

    /// How many nodes the whole table holds.
    pub fn node_count(&self) -> (r: usize)
        requires
            spec_table_wf(self),
            spec_total_nodes(self.buckets@, 160) <= usize::MAX,
        ensures
            r == spec_total_nodes(self.buckets@, 160),
    {
        let mut count: usize = 0;
        let mut i: usize = 0;
        while i < self.buckets.len()
            invariant
                i <= self.buckets@.len(),
                self.buckets@.len() == 160,
                spec_total_nodes(self.buckets@, 160) <= usize::MAX,
                count == spec_total_nodes(self.buckets@, i as int),
            decreases self.buckets@.len() - i,
        {
            proof {
                lemma_total_nodes_bounds(self.buckets@, i + 1, 160);
                lemma_total_nodes_nonneg(self.buckets@, i + 1);
            }
            count = count + self.buckets[i].len();
            i = i + 1;
        }
        count
    }

    /// All nodes of the table, bucket by bucket.
    pub fn get_nodes(&self) -> (r: Vec<Node>)
        requires
            spec_table_wf(self),
        ensures
            r@.len() == spec_total_nodes(self.buckets@, 160),
            spec_nodes_view(r@) == spec_all_nodes(self.buckets@, 160),
            forall|j: int|
                0 <= j < r@.len() ==> #[trigger] spec_in_table(self.buckets@, r@[j]@),
    {
        let mut out: Vec<Node> = Vec::new();
        let mut i: usize = 0;
        while i < self.buckets.len()
            invariant
                i <= self.buckets@.len(),
                self.buckets@.len() == 160,
                out@.len() == spec_total_nodes(self.buckets@, i as int),
                spec_nodes_view(out@) == spec_all_nodes(self.buckets@, i as int),
                forall|j: int|
                    0 <= j < out@.len() ==> #[trigger] spec_in_table(self.buckets@, out@[j]@),
            decreases self.buckets@.len() - i,
        {
            let mut p: usize = 0;
            while p < self.buckets[i].nodes.len()
                invariant
                    i < self.buckets@.len(),
                    self.buckets@.len() == 160,
                    p <= self.buckets@[i as int].nodes@.len(),
                    out@.len() == spec_total_nodes(self.buckets@, i as int) + p,
                    spec_nodes_view(out@) == spec_all_nodes(self.buckets@, i as int)
                        + spec_nodes_view(self.buckets@[i as int].nodes@).take(p as int),
                    forall|j: int|
                        0 <= j < out@.len() ==> #[trigger] spec_in_table(self.buckets@, out@[j]@),
                decreases self.buckets@[i as int].nodes@.len() - p,
            {
                let ghost out_before = out@;
                let n = &self.buckets[i].nodes[p];
                out.push(
                    Node { id: n.id.duplicate(), endpoint: n.endpoint, last_seen: n.last_seen },
                );
                proof {
                    assert forall|j: int|
                        0 <= j < out@.len() implies #[trigger] spec_in_table(
                        self.buckets@,
                        out@[j]@,
                    ) by {
                        if j < out_before.len() {
                            assert(out@[j] == out_before[j]);
                            assert(spec_in_table(self.buckets@, out_before[j]@));
                        } else {
                            assert(out@[j]@ == self.buckets@[i as int].nodes@[p as int]@);
                            assert(0 <= (i as int) < self.buckets@.len() && 0 <= (p as int)
                                < self.buckets@[i as int].nodes@.len() && self.buckets@[
                            i as int].nodes@[p as int]@ == out@[j]@);
                        }
                    }
                    let ghost target_seq = spec_all_nodes(self.buckets@, i as int)
                        + spec_nodes_view(self.buckets@[i as int].nodes@).take(p as int + 1);
                    assert(spec_nodes_view(out_before).len() == out_before.len());
                    assert forall|k: int|
                        0 <= k < spec_nodes_view(out@).len() implies spec_nodes_view(out@)[k]
                        == target_seq[k] by {
                        if k < out_before.len() {
                            assert(out@[k] == out_before[k]);
                            assert(spec_nodes_view(out_before)[k] == (spec_all_nodes(
                                self.buckets@,
                                i as int,
                            ) + spec_nodes_view(self.buckets@[i as int].nodes@).take(
                                p as int,
                            ))[k]);
                        } else {
                            assert(k == out_before.len());
                            assert(out@[k]@ == self.buckets@[i as int].nodes@[p as int]@);
                            assert(target_seq[k] == spec_nodes_view(
                                self.buckets@[i as int].nodes@,
                            ).take(p as int + 1)[p as int]);
                        }
                    }
                    assert(spec_nodes_view(out@) =~= target_seq);
                }
                p = p + 1;
            }
            proof {
                assert(spec_nodes_view(self.buckets@[i as int].nodes@).take(
                    self.buckets@[i as int].nodes@.len() as int,
                ) =~= spec_nodes_view(self.buckets@[i as int].nodes@));
                assert(spec_nodes_view(out@) =~= spec_all_nodes(self.buckets@, i as int + 1));
            }
            i = i + 1;
        }
        out
    }

    /// The nodes of the table nearest the target by XOR distance, nearest
    /// first, at most `K` of them: whatever the table holds beyond the
    /// result lies no nearer than anything in it.
    pub fn find_closest_nodes(&self, target: &NodeId) -> (r: Vec<Node>)
        requires
            spec_table_wf(self),
        ensures
            r@.len() <= K,
            r@.len() == (if spec_total_nodes(self.buckets@, 160) < K {
                spec_total_nodes(self.buckets@, 160)
            } else {
                K as int
            }),
            forall|j: int|
                0 <= j < r@.len() ==> #[trigger] spec_in_table(self.buckets@, r@[j]@),
            forall|i: int, j: int|
                0 <= i < j < r@.len() ==> spec_closer_eq(
                    (#[trigger] r@[i]@).id,
                    (#[trigger] r@[j]@).id,
                    target.0@,
                ),
            ({
                let all = spec_all_nodes(self.buckets@, 160).to_multiset();
                let picked = spec_nodes_view(r@).to_multiset();
                forall|n: NodeSpec|
                    #[trigger] all.count(n) > picked.count(n) ==> (forall|i: int|
                        0 <= i < r@.len() ==> spec_closer_eq(
                            (#[trigger] r@[i]@).id,
                            n.id,
                            target.0@,
                        ))
            }),
    {
        let mut pool = self.get_nodes();
        let mut out: Vec<Node> = Vec::new();
        proof {
            broadcast use vstd::seq_lib::group_to_multiset_ensures;

            assert(spec_nodes_view(out@).to_multiset().add(
                spec_nodes_view(pool@).to_multiset(),
            ) =~= spec_all_nodes(self.buckets@, 160).to_multiset());
        }
        while out.len() < K && pool.len() > 0
            invariant
                out@.len() <= K,
                out@.len() + pool@.len() == spec_total_nodes(self.buckets@, 160),
                spec_nodes_view(out@).to_multiset().add(spec_nodes_view(pool@).to_multiset())
                    == spec_all_nodes(self.buckets@, 160).to_multiset(),
                forall|j: int|
                    0 <= j < out@.len() ==> #[trigger] spec_in_table(self.buckets@, out@[j]@),
                forall|j: int|
                    0 <= j < pool@.len() ==> #[trigger] spec_in_table(self.buckets@, pool@[j]@),
                forall|i: int, j: int|
                    0 <= i < j < out@.len() ==> spec_closer_eq(
                        (#[trigger] out@[i]@).id,
                        (#[trigger] out@[j]@).id,
                        target.0@,
                    ),
                forall|i: int, j: int|
                    0 <= i < out@.len() && 0 <= j < pool@.len() ==> spec_closer_eq(
                        (#[trigger] out@[i]@).id,
                        (#[trigger] pool@[j]@).id,
                        target.0@,
                    ),
            decreases pool@.len(),
        {
            let mut best: usize = 0;
            let mut m: usize = 1;
            proof {
                lemma_bytes_le_refl(spec_xor_bytes(pool@[0]@.id, target.0@), 0);
            }
            while m < pool.len()
                invariant
                    pool@.len() > 0,
                    best < pool@.len(),
                    m <= pool@.len(),
                    forall|j: int|
                        0 <= j < m ==> spec_closer_eq(
                            pool@[best as int]@.id,
                            (#[trigger] pool@[j]@).id,
                            target.0@,
                        ),
                decreases pool@.len() - m,
            {
                if !closer_eq(&pool[best].id, &pool[m].id, target) {
                    let ghost prev = best as int;
                    proof {
                        lemma_bytes_le_total(
                            spec_xor_bytes(pool@[prev]@.id, target.0@),
                            spec_xor_bytes(pool@[m as int]@.id, target.0@),
                            0,
                        );
                    }
                    best = m;
                    proof {
                        assert forall|j: int| 0 <= j < m + 1 implies spec_closer_eq(
                            pool@[best as int]@.id,
                            (#[trigger] pool@[j]@).id,
                            target.0@,
                        ) by {
                            if j < m as int {
                                lemma_bytes_le_trans(
                                    spec_xor_bytes(pool@[m as int]@.id, target.0@),
                                    spec_xor_bytes(pool@[prev]@.id, target.0@),
                                    spec_xor_bytes(pool@[j]@.id, target.0@),
                                    0,
                                );
                            } else {
                                lemma_bytes_le_refl(spec_xor_bytes(pool@[m as int]@.id, target.0@), 0);
                            }
                        }
                    }
                } else {
                    proof {
                        assert forall|j: int| 0 <= j < m + 1 implies spec_closer_eq(
                            pool@[best as int]@.id,
                            (#[trigger] pool@[j]@).id,
                            target.0@,
                        ) by {
                        }
                    }
                }
                m = m + 1;
            }
            let ghost before = pool@;
            let ghost out_before = out@;
            let chosen = pool.remove(best);
            out.push(chosen);
            proof {
                broadcast use vstd::seq_lib::group_to_multiset_ensures;

                assert forall|j: int| 0 <= j < pool@.len() implies #[trigger] spec_in_table(
                    self.buckets@,
                    pool@[j]@,
                ) by {
                    if j < best as int {
                        assert(pool@[j] == before[j]);
                    } else {
                        assert(pool@[j] == before[j + 1]);
                    }
                }
                assert(spec_nodes_view(pool@) =~= spec_nodes_view(before).remove(best as int));
                assert(spec_nodes_view(out@) =~= spec_nodes_view(out_before).push(chosen@));
                assert(spec_nodes_view(before)[best as int] == chosen@);
                assert(spec_nodes_view(before).contains(chosen@));
                assert(spec_nodes_view(out@).to_multiset().add(
                    spec_nodes_view(pool@).to_multiset(),
                ) =~= spec_all_nodes(self.buckets@, 160).to_multiset());
                assert forall|i: int, j: int|
                    0 <= i < j < out@.len() implies spec_closer_eq(
                    (#[trigger] out@[i]@).id,
                    (#[trigger] out@[j]@).id,
                    target.0@,
                ) by {
                    if j < out_before.len() {
                        assert(out@[i] == out_before[i]);
                        assert(out@[j] == out_before[j]);
                    } else {
                        assert(out@[j] == before[best as int]);
                        if i < out_before.len() {
                            assert(out@[i] == out_before[i]);
                        }
                    }
                }
                assert forall|i: int, j: int|
                    0 <= i < out@.len() && 0 <= j < pool@.len() implies spec_closer_eq(
                    (#[trigger] out@[i]@).id,
                    (#[trigger] pool@[j]@).id,
                    target.0@,
                ) by {
                    let pj = if j < best as int {
                        j
                    } else {
                        j + 1
                    };
                    assert(pool@[j] == before[pj]);
                    if i < out_before.len() {
                        assert(out@[i] == out_before[i]);
                    } else {
                        assert(out@[i] == before[best as int]);
                    }
                }
            }
        }
        proof {
            broadcast use vstd::seq_lib::group_to_multiset_ensures;

            let all = spec_all_nodes(self.buckets@, 160).to_multiset();
            let picked = spec_nodes_view(out@).to_multiset();
            assert forall|n: NodeSpec| #[trigger] all.count(n) > picked.count(n) implies (
            forall|i: int|
                0 <= i < out@.len() ==> spec_closer_eq(
                    (#[trigger] out@[i]@).id,
                    n.id,
                    target.0@,
                )) by {
                assert(spec_nodes_view(pool@).to_multiset().count(n) > 0);
                assert(spec_nodes_view(pool@).contains(n));
                let j = choose|j: int|
                    0 <= j < spec_nodes_view(pool@).len() && spec_nodes_view(pool@)[j] == n;
                assert(pool@[j]@ == n);
                assert forall|i: int| 0 <= i < out@.len() implies spec_closer_eq(
                    (#[trigger] out@[i]@).id,
                    n.id,
                    target.0@,
                ) by {
                    assert(spec_closer_eq(out@[i]@.id, pool@[j]@.id, target.0@));
                }
            }
        }
        out
    }

    /// The indices of the buckets not changed within `timeout`
    /// milliseconds, in order.
    pub fn get_stale_buckets(&self, now: u64, timeout: u64) -> (r: Vec<usize>)
        requires
            spec_table_wf(self),
        ensures
            forall|j: int|
                0 <= j < r@.len() ==> 0 <= #[trigger] r@[j] < 160 && spec_elapsed(
                    self.buckets@[r@[j] as int].last_changed,
                    now,
                ) > timeout,
    {
        let mut stale: Vec<usize> = Vec::new();
        let mut i: usize = 0;
        while i < self.buckets.len()
            invariant
                i <= self.buckets@.len(),
                self.buckets@.len() == 160,
                forall|j: int|
                    0 <= j < stale@.len() ==> 0 <= #[trigger] stale@[j] < 160 && spec_elapsed(
                        self.buckets@[stale@[j] as int].last_changed,
                        now,
                    ) > timeout,
            decreases self.buckets@.len() - i,
        {
            if crate::dht::node::elapsed_ms(self.buckets[i].last_changed, now) > timeout {
                stale.push(i);
            }
            i = i + 1;
        }
        stale
    }
}

/// Lexicographic order on byte strings, read from index `i` on; when one
/// string is a prefix of the other, the shorter comes first.
pub open spec fn spec_bytes_le_from(a: Seq<u8>, b: Seq<u8>, i: int) -> bool
    decreases a.len() - i,
{
    if i >= a.len() {
        true
    } else if i >= b.len() {
        false
    } else if a[i] < b[i] {
        true
    } else if a[i] > b[i] {
        false
    } else {
        spec_bytes_le_from(a, b, i + 1)
    }
}

/// The XOR distance between an identifier and a target, byte by byte over
/// their common length.
pub open spec fn spec_xor_bytes(a: Seq<u8>, t: Seq<u8>) -> Seq<u8> {
    Seq::new(
        if a.len() <= t.len() {
            a.len()
        } else {
            t.len()
        },
        |i: int| a[i] ^ t[i],
    )
}

/// Whether `a` lies no farther from `target` than `b` under the XOR metric.
pub open spec fn spec_closer_eq(a: Seq<u8>, b: Seq<u8>, target: Seq<u8>) -> bool {
    spec_bytes_le_from(spec_xor_bytes(a, target), spec_xor_bytes(b, target), 0)
}

/// The byte order relates any two strings, one way or the other.
proof fn lemma_bytes_le_total(a: Seq<u8>, b: Seq<u8>, i: int)
    ensures
        spec_bytes_le_from(a, b, i) || spec_bytes_le_from(b, a, i),
    decreases a.len() - i,
{
    if i >= a.len() || i >= b.len() {
    } else if a[i] == b[i] {
        lemma_bytes_le_total(a, b, i + 1);
    }
}

/// The byte order is reflexive.
proof fn lemma_bytes_le_refl(a: Seq<u8>, i: int)
    ensures
        spec_bytes_le_from(a, a, i),
    decreases a.len() - i,
{
    if i < a.len() {
        lemma_bytes_le_refl(a, i + 1);
    }
}

/// The byte order is transitive.
proof fn lemma_bytes_le_trans(a: Seq<u8>, b: Seq<u8>, c: Seq<u8>, i: int)
    requires
        spec_bytes_le_from(a, b, i),
        spec_bytes_le_from(b, c, i),
    ensures
        spec_bytes_le_from(a, c, i),
    decreases a.len() - i,
{
    if i >= a.len() {
    } else {
        assert(i < b.len());
        assert(i < c.len());
        if a[i] < b[i] {
            assert(b[i] <= c[i]);
        } else {
            assert(a[i] == b[i]);
            if b[i] == c[i] {
                lemma_bytes_le_trans(a, b, c, i + 1);
            }
        }
    }
}

/// Whether `a` is no farther from `target` than `b`, comparing XOR
/// distances byte by byte.
fn closer_eq(a: &NodeId, b: &NodeId, target: &NodeId) -> (r: bool)
    ensures
        r == spec_closer_eq(a.0@, b.0@, target.0@),
{
    let la = if a.0.len() <= target.0.len() {
        a.0.len()
    } else {
        target.0.len()
    };
    let lb = if b.0.len() <= target.0.len() {
        b.0.len()
    } else {
        target.0.len()
    };
    let ghost xa = spec_xor_bytes(a.0@, target.0@);
    let ghost xb = spec_xor_bytes(b.0@, target.0@);
    let mut i: usize = 0;
    while i < la && i < lb
        invariant
            la == xa.len(),
            lb == xb.len(),
            la <= a.0@.len() && la <= target.0@.len(),
            lb <= b.0@.len() && lb <= target.0@.len(),
            i <= la && i <= lb,
            xa == spec_xor_bytes(a.0@, target.0@),
            xb == spec_xor_bytes(b.0@, target.0@),
            spec_bytes_le_from(xa, xb, 0) == spec_bytes_le_from(xa, xb, i as int),
        decreases la - i,
    {
        let da = a.0[i] ^ target.0[i];
        let db = b.0[i] ^ target.0[i];
        proof {
            assert(da == xa[i as int]);
            assert(db == xb[i as int]);
        }
        if da < db {
            return true;
        }
        if da > db {
            return false;
        }
        i = i + 1;
    }
    i >= la
}

/// The views of every node the first `upto` buckets hold, bucket by
/// bucket.
pub open spec fn spec_all_nodes(buckets: Seq<KBucket>, upto: int) -> Seq<NodeSpec>
    decreases upto,
{
    if upto <= 0 {
        Seq::empty()
    } else {
        spec_all_nodes(buckets, upto - 1) + spec_nodes_view(buckets[upto - 1].nodes@)
    }
}

/// How many nodes the first `upto` buckets hold.
pub open spec fn spec_total_nodes(buckets: Seq<KBucket>, upto: int) -> int
    decreases upto,
{
    if upto <= 0 {
        0
    } else {
        spec_total_nodes(buckets, upto - 1) + buckets[upto - 1].nodes@.len()
    }
}

/// Prefix sums of bucket sizes never exceed the total.
proof fn lemma_total_nodes_bounds(buckets: Seq<KBucket>, i: int, upto: int)
    requires
        0 <= i <= upto,
    ensures
        spec_total_nodes(buckets, i) <= spec_total_nodes(buckets, upto),
    decreases upto - i,
{
    if i < upto {
        lemma_total_nodes_bounds(buckets, i + 1, upto);
    }
}

/// A sum of bucket sizes is never negative.
proof fn lemma_total_nodes_nonneg(buckets: Seq<KBucket>, upto: int)
    ensures
        spec_total_nodes(buckets, upto) >= 0,
    decreases upto,
{
    if upto > 0 {
        lemma_total_nodes_nonneg(buckets, upto - 1);
    }
}

/// Flipping one bit of a byte changes that bit alone.
proof fn lemma_xor_bit(x: u8, b: u8, b2: u8)
    requires
        b < 8,
        b2 < 8,
    ensures
        (x ^ (1u8 << b)) >> b2 & 1 == if b2 == b {
            (1 - ((x >> b2) & 1)) as u8
        } else {
            (x >> b2) & 1
        },
        (x >> b2) & 1 == 0 || (x >> b2) & 1 == 1,
        (x ^ (1u8 << b)) >> b2 & 1 == 0 || (x ^ (1u8 << b)) >> b2 & 1 == 1,
{
    assert((x ^ (1u8 << b)) >> b2 & 1 == if b2 == b {
        (1 - ((x >> b2) & 1)) as u8
    } else {
        (x >> b2) & 1
    } && ((x >> b2) & 1 == 0 || (x >> b2) & 1 == 1) && ((x ^ (1u8 << b)) >> b2 & 1 == 0 || (x ^ (
    1u8 << b)) >> b2 & 1 == 1)) by (bit_vector)
        requires
            b < 8,
            b2 < 8,
    ;
}

} // verus!
