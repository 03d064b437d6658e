//! The DHT's event handling: what to answer to an incoming query, and what
//! a response contributes to the routing table and the peer hunt.
//!
//! The UDP socket lives with the I/O glue outside the library; it feeds
//! received messages in and performs the sends decided here.

use vstd::prelude::*;
use crate::bencode::{BencodeValue, DictEntry, view_entries};
use crate::dht::message::{DHTMessage, QueryType, Transaction, TransactionTable,
    TRANSACTION_TIMEOUT_MS};
use crate::dht::node::{Endpoint, Node, NodeId, spec_node_id_wf};
use crate::dht::routing::{RoutingTable, spec_table_wf};
use crate::util;

verus! {

/// The DHT's local state: our identity, the routing table, and the
/// outstanding queries.
pub struct DhtCore {
    /// Our 160-bit identity, drawn at startup.
    pub our_id: NodeId,
    /// The 160-bucket routing table.
    pub routing_table: RoutingTable,
    /// The outstanding queries, garbage-collected after 60 seconds.
    pub transactions: TransactionTable,
}

/// A healthy DHT state.
pub open spec fn spec_dht_wf(d: &DhtCore) -> bool {
    &&& spec_node_id_wf(&d.our_id)
    &&& spec_table_wf(&d.routing_table)
}

impl DhtCore {
    /// A fresh DHT around our identity.
    pub fn new(our_id: NodeId, now: u64) -> (r: DhtCore)
        requires
            spec_node_id_wf(&our_id),
        ensures
            spec_dht_wf(&r),
            r.transactions.transactions@.len() == 0,
    {
        let table_id = our_id.duplicate();
        DhtCore {
            our_id,
            routing_table: RoutingTable::new(NodeId::new(table_id.0), now),
            transactions: TransactionTable::new(),
        }
    }

    /// Answers an incoming query: the sender enters the bucket its
    /// identifier names under the bucket's rules, and the reply is a
    /// response that echoes the query's transaction id. A ping or announce
    /// echoes the arguments back; a find-node or get-peers reply carries
    /// our identity in its arguments, a get-peers reply also the token the
    /// eventual announce must echo.
    pub fn handle_query(
        &mut self,
        transaction_id: Vec<u8>,
        sender_id: NodeId,
        query_type: QueryType,
        args: Vec<DictEntry>,
        from: Endpoint,
        now: u64,
    ) -> (r: DHTMessage)
        requires
            spec_dht_wf(&*old(self)),
            spec_node_id_wf(&sender_id),
        ensures
            spec_dht_wf(&*final(self)),
            final(self).transactions == old(self).transactions,
            final(self).our_id == old(self).our_id,
            ({
                let table0 = old(self).routing_table;
                let bi = crate::dht::routing::spec_bucket_index(table0.our_id.0@, sender_id.0@);
                let s = crate::dht::routing::spec_nodes_view(table0.buckets@[bi].nodes@);
                let j = crate::dht::routing::spec_find_node(s, sender_id.0@, 0);
                let nb = final(self).routing_table.buckets@[bi];
                &&& final(self).routing_table.our_id == table0.our_id
                &&& final(self).routing_table.buckets@.len() == table0.buckets@.len()
                &&& (forall|i: int|
                    0 <= i < 160 && i != bi ==> final(self).routing_table.buckets@[i]
                        == #[trigger] table0.buckets@[i])
                &&& if j >= 0 {
                    crate::dht::routing::spec_nodes_view(nb.nodes@) == s.update(
                        j,
                        crate::dht::node::NodeSpec { last_seen: now, ..s[j] },
                    )
                } else if s.len() >= crate::dht::routing::K {
                    nb == table0.buckets@[bi]
                } else {
                    crate::dht::routing::spec_nodes_view(nb.nodes@) == s.push(
                        crate::dht::node::NodeSpec {
                            id: sender_id.0@,
                            endpoint: from,
                            last_seen: now,
                        },
                    )
                }
            }),
            (r matches DHTMessage::Response { transaction_id: t, args: reply_args } && t@
                == transaction_id@ && (match query_type {
                QueryType::Ping => view_entries(reply_args@) == view_entries(args@),
                QueryType::AnnouncePeer => view_entries(reply_args@) == view_entries(args@),
                QueryType::FindNode => view_entries(reply_args@).len() == 2 && view_entries(
                    reply_args@,
                )[0] == (crate::bencode::BencodeSpecEntry {
                    key: seq![105u8, 100],
                    value: crate::bencode::BencodeSpecValue::Bytes(
                        crate::dht::message::utf8_bytes_of(
                            util::spec_hex_of(old(self).our_id.0@),
                        ),
                    ),
                }) && view_entries(reply_args@)[1].key == seq![110u8, 111, 100, 101, 115]
                    && view_entries(reply_args@)[1].value is Bytes,
                QueryType::GetPeers => view_entries(reply_args@).len() == 2 && view_entries(
                    reply_args@,
                )[0] == (crate::bencode::BencodeSpecEntry {
                    key: seq![105u8, 100],
                    value: crate::bencode::BencodeSpecValue::Bytes(
                        crate::dht::message::utf8_bytes_of(
                            util::spec_hex_of(old(self).our_id.0@),
                        ),
                    ),
                }) && view_entries(reply_args@)[1].key == seq![116u8, 111, 107, 101, 110] && (
                view_entries(reply_args@)[1].value matches
                    crate::bencode::BencodeSpecValue::Bytes(tok) && tok.len() == 8),
            })),
    {
        self.routing_table.add_node(Node::new(sender_id, from, now), now);
        match query_type {
            QueryType::Ping => DHTMessage::Response { transaction_id, args },
            QueryType::AnnouncePeer => DHTMessage::Response { transaction_id, args },
            QueryType::FindNode => {
                let mut reply: Vec<DictEntry> = Vec::new();
                let id_hex = self.our_id.to_hex();
                reply.push(
                    DictEntry {
                        key: id_key(),
                        value: BencodeValue::Bytes(crate::dht::message::string_bytes(&id_hex)),
                    },
                );
                reply.push(
                    DictEntry { key: nodes_key(), value: BencodeValue::Bytes(Vec::new()) },
                );
                proof {
                    crate::bencode::lemma_view_entries(reply@);
                    assert(view_entries(reply@)[0] == reply@[0]@);
                    assert(view_entries(reply@)[1] == reply@[1]@);
                }
                DHTMessage::Response { transaction_id, args: reply }
            },
            QueryType::GetPeers => {
                let mut reply: Vec<DictEntry> = Vec::new();
                let id_hex = self.our_id.to_hex();
                reply.push(
                    DictEntry {
                        key: id_key(),
                        value: BencodeValue::Bytes(crate::dht::message::string_bytes(&id_hex)),
                    },
                );
                reply.push(
                    DictEntry { key: token_key(), value: BencodeValue::Bytes(fresh_token()) },
                );
                proof {
                    crate::bencode::lemma_view_entries(reply@);
                    assert(view_entries(reply@)[0] == reply@[0]@);
                    assert(view_entries(reply@)[1] == reply@[1]@);
                }
                DHTMessage::Response { transaction_id, args: reply }
            },
        }
    }

    /// Applies a response: the transaction its id names leaves the table,
    /// the responder enters the bucket its identifier names, any compact
    /// nodes of the arguments are offered to their buckets (a full bucket
    /// may reject them), and the compact peers of the arguments come back
    /// for the peer manager.
    pub fn handle_response(
        &mut self,
        transaction_id: &Vec<u8>,
        sender_id: NodeId,
        args: &Vec<DictEntry>,
        from: Endpoint,
        now: u64,
    ) -> (r: Vec<Endpoint>)
        requires
            spec_dht_wf(&*old(self)),
            spec_node_id_wf(&sender_id),
        ensures
            spec_dht_wf(&*final(self)),
            final(self).our_id == old(self).our_id,
            ({
                let tid = util::utf8_lossy_of(transaction_id@);
                let ts0 = old(self).transactions.transactions@;
                let ts1 = final(self).transactions.transactions@;
                ||| (exists|j: int|
                    0 <= j < ts0.len() && (#[trigger] ts0[j]).transaction_id@ == tid && ts1
                        == ts0.remove(j))
                ||| (ts1 == ts0 && forall|j: int|
                    0 <= j < ts0.len() ==> (#[trigger] ts0[j]).transaction_id@ != tid)
            }),
            ({
                let values = crate::torrent::parser::spec_dict_get(
                    view_entries(args@),
                    seq![118u8, 97, 108, 117, 101, 115],
                );
                match values {
                    Some(crate::bencode::BencodeSpecValue::Bytes(b)) => if b.len() % 6 == 0 {
                        r@ == crate::dht::message::spec_parse_compact_peers(b)
                    } else {
                        r@.len() == 0
                    },
                    _ => r@.len() == 0,
                }
            }),
    {
        let tid_string = util::bytes_to_string_lossy(transaction_id.as_slice());
        let _matched = self.transactions.take_matching(&tid_string);
        let ghost ts_mid = self.transactions.transactions@;
        self.routing_table.add_node(Node::new(sender_id, from, now), now);
        let mut discovered: Vec<Endpoint> = Vec::new();
        let nk = nodes_key();
        match crate::torrent::parser::dict_get(args, nk.as_slice()) {
            Some(BencodeValue::Bytes(compact)) => {
                match crate::dht::message::parse_compact_nodes(compact.as_slice()) {
                    Ok(nodes) => {
                        let mut k: usize = 0;
                        while k < nodes.len()
                            invariant
                                k <= nodes@.len(),
                                spec_dht_wf(self),
                                self.our_id == old(self).our_id,
                                self.transactions.transactions@ == ts_mid,
                            decreases nodes@.len() - k,
                        {
                            let entry = &nodes[k];
                            if entry.0 .0.len() == 20 {
                                let id = NodeId::new(util::copy_slice(entry.0 .0.as_slice()));
                                self.routing_table.add_node(Node::new(id, entry.1, now), now);
                            }
                            k = k + 1;
                        }
                    },
                    Err(_) => {},
                }
            },
            _ => {},
        }
        let vk = values_key();
        match crate::torrent::parser::dict_get(args, vk.as_slice()) {
            Some(BencodeValue::Bytes(compact)) => {
                match crate::dht::message::parse_compact_peers(compact.as_slice()) {
                    Ok(peers) => {
                        discovered = peers;
                    },
                    Err(_) => {},
                }
            },
            _ => {},
        }
        discovered
    }

    /// Registers an outgoing query's transaction: a reused id replaces the
    /// old entry, a fresh id is appended, so ids stay unique.
    pub fn register_query(&mut self, transaction_id: String, target: NodeId, query_type: QueryType, now: u64)
        ensures
            final(self).our_id == old(self).our_id,
            final(self).routing_table == old(self).routing_table,
            ({
                let ts0 = old(self).transactions.transactions@;
                let ts1 = final(self).transactions.transactions@;
                let j = crate::dht::message::spec_find_transaction(ts0, transaction_id@, 0);
                &&& (if j >= 0 {
                    ts1.len() == ts0.len() && ts1 == ts0.update(j, ts1[j])
                } else {
                    ts1.len() == ts0.len() + 1 && ts1.subrange(0, ts0.len() as int) == ts0
                })
                &&& ({
                    let entry = if j >= 0 {
                        ts1[j]
                    } else {
                        ts1.last()
                    };
                    entry.transaction_id@ == transaction_id@ && entry.node_id == target
                        && entry.query_type == query_type && entry.created_at == now
                })
                &&& (crate::dht::message::spec_transactions_unique(ts0)
                    ==> crate::dht::message::spec_transactions_unique(ts1))
            }),
    {
        self.transactions.insert(Transaction::new(transaction_id, target, query_type, now));
        proof {
            let ts0 = old(self).transactions.transactions@;
            let j = crate::dht::message::spec_find_transaction(ts0, transaction_id@, 0);
            crate::dht::message::lemma_find_transaction_range(ts0, transaction_id@, 0);
            if j < 0 {
                assert(self.transactions.transactions@.subrange(0, ts0.len() as int) =~= ts0);
            } else {
                assert(self.transactions.transactions@[j]
                    == self.transactions.transactions@[j]);
                assert(self.transactions.transactions@ =~= ts0.update(
                    j,
                    self.transactions.transactions@[j],
                ));
            }
        }
    }

    /// Garbage-collects transactions older than the 60-second window: the
    /// table becomes exactly its fresh subsequence, so nothing is added or
    /// otherwise modified, and afterwards every entry is at most a minute
    /// old.
    pub fn cleanup_transactions(&mut self, now: u64)
        ensures
            final(self).our_id == old(self).our_id,
            final(self).routing_table == old(self).routing_table,
            final(self).transactions.transactions@
                == crate::dht::message::spec_fresh_transactions(
                old(self).transactions.transactions@,
                now,
                TRANSACTION_TIMEOUT_MS,
            ),
            forall|i: int|
                0 <= i < final(self).transactions.transactions@.len()
                    ==> crate::dht::node::spec_elapsed(
                    (#[trigger] final(self).transactions.transactions@[i]).created_at,
                    now,
                ) <= TRANSACTION_TIMEOUT_MS,
    {
        self.transactions.cleanup(now, TRANSACTION_TIMEOUT_MS);
    }
}

/// The bytes `id`.
fn id_key() -> (r: Vec<u8>)
    ensures
        r@ == seq![105u8, 100],
{
    let mut out: Vec<u8> = Vec::new();
    out.push(105);
    out.push(100);
    proof {
        assert(out@ =~= seq![105u8, 100]);
    }
    out
}

/// The bytes `nodes`.
fn nodes_key() -> (r: Vec<u8>)
    ensures
        r@ == seq![110u8, 111, 100, 101, 115],
{
    let mut out: Vec<u8> = Vec::new();
    out.push(110);
    out.push(111);
    out.push(100);
    out.push(101);
    out.push(115);
    proof {
        assert(out@ =~= seq![110u8, 111, 100, 101, 115]);
    }
    out
}

/// The bytes `values`.
fn values_key() -> (r: Vec<u8>)
    ensures
        r@ == seq![118u8, 97, 108, 117, 101, 115],
{
    let mut out: Vec<u8> = Vec::new();
    out.push(118);
    out.push(97);
    out.push(108);
    out.push(117);
    out.push(101);
    out.push(115);
    proof {
        assert(out@ =~= seq![118u8, 97, 108, 117, 101, 115]);
    }
    out
}

/// The bytes `token`.
fn token_key() -> (r: Vec<u8>)
    ensures
        r@ == seq![116u8, 111, 107, 101, 110],
{
    let mut out: Vec<u8> = Vec::new();
    out.push(116);
    out.push(111);
    out.push(107);
    out.push(101);
    out.push(110);
    proof {
        assert(out@ =~= seq![116u8, 111, 107, 101, 110]);
    }
    out
}

/// A fresh short-lived token for a get-peers reply: eight random bytes.
fn fresh_token() -> (r: Vec<u8>)
    ensures
        r@.len() == 8,
{
    let mut out: Vec<u8> = Vec::new();
    let mut k: usize = 0;
    while k < 8
        invariant
            k <= 8,
            out@.len() == k,
        decreases 8 - k,
    {
        out.push(rand::random::<u8>());
        k = k + 1;
    }
    out
}


} // verus!
