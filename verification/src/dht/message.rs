//! DHT wire messages, transaction bookkeeping, and the compact encodings of
//! nodes and peers.
//!
//! Messages are bencoded dictionaries: every message carries `t` (the
//! transaction id) and `y` (one of `q`, `r`, `e`); queries carry `q` and an
//! arguments dictionary `a`, responses an arguments dictionary `r`, errors a
//! list `e` of code and text.

use vstd::prelude::*;
use crate::bencode::{
    BencodeValue, BencodeSpecValue, BencodeSpecEntry, DictEntry, view_entries, spec_encode,
    spec_parse_value,
};
use crate::dht::node::{Endpoint, NodeId, spec_elapsed};
use crate::error::TorrentError;
use crate::protocol::wire::{
    spec_u16_be, spec_u32_be, spec_u16_from_be, spec_u32_from_be, push_u16_be, push_u32_be,
    read_u16_be, read_u32_be, copy_range, lemma_u16_be_round_trip, lemma_u32_be_round_trip,
};
use crate::util;

verus! {

/// The UTF-8 bytes of a string's characters: a function of the characters
/// alone.
pub uninterp spec fn utf8_bytes_of(s: Seq<char>) -> Seq<u8>;

/// The four query kinds of the DHT.
#[derive(Debug, Clone, Copy, PartialEq, Eq, Structural)]
pub enum QueryType {
    Ping,
    FindNode,
    GetPeers,
    AnnouncePeer,
}

/// The response kinds, mirroring the queries they answer.
#[derive(Debug, Clone, Copy, PartialEq, Eq, Structural)]
pub enum ResponseType {
    Ping,
    FindNode,
    GetPeers,
    AnnouncePeer,
}

/// The wire name of a query kind.
pub open spec fn spec_query_name(q: QueryType) -> Seq<u8> {
    match q {
        QueryType::Ping => seq![112u8, 105, 110, 103],
        QueryType::FindNode => seq![102u8, 105, 110, 100, 95, 110, 111, 100, 101],
        QueryType::GetPeers => seq![103u8, 101, 116, 95, 112, 101, 101, 114, 115],
        QueryType::AnnouncePeer => seq![97u8, 110, 110, 111, 117, 110, 99, 101, 95, 112, 101,
            101, 114],
    }
}

impl QueryType {
    /// The wire name of this query kind, as bytes.
    pub fn name_bytes(&self) -> (r: Vec<u8>)
        ensures
            r@ == spec_query_name(*self),
    {
        let mut out: Vec<u8> = Vec::new();
        match self {
            QueryType::Ping => {
                out.push(112);
                out.push(105);
                out.push(110);
                out.push(103);
            },
            QueryType::FindNode => {
                out.push(102);
                out.push(105);
                out.push(110);
                out.push(100);
                out.push(95);
                out.push(110);
                out.push(111);
                out.push(100);
                out.push(101);
            },
            QueryType::GetPeers => {
                out.push(103);
                out.push(101);
                out.push(116);
                out.push(95);
                out.push(112);
                out.push(101);
                out.push(101);
                out.push(114);
                out.push(115);
            },
            QueryType::AnnouncePeer => {
                out.push(97);
                out.push(110);
                out.push(110);
                out.push(111);
                out.push(117);
                out.push(110);
                out.push(99);
                out.push(101);
                out.push(95);
                out.push(112);
                out.push(101);
                out.push(101);
                out.push(114);
            },
        }
        proof {
            assert(out@ =~= spec_query_name(*self));
        }
        out
    }
}

/// An outstanding query, keyed by its transaction id.
#[derive(Debug, Clone)]
pub struct Transaction {
    /// The opaque transaction id the reply must echo.
    pub transaction_id: String,
    /// The node the query went to.
    pub node_id: NodeId,
    /// The kind of query.
    pub query_type: QueryType,
    /// When the query was sent, in milliseconds of the caller's clock.
    pub created_at: u64,
}

impl Transaction {
    /// A transaction created now.
    pub fn new(transaction_id: String, node_id: NodeId, query_type: QueryType, now: u64) -> (r:
        Transaction)
        ensures
            r.transaction_id@ == transaction_id@,
            r.node_id == node_id,
            r.query_type == query_type,
            r.created_at == now,
    {
        Transaction { transaction_id, node_id, query_type, created_at: now }
    }

    /// Whether more than `timeout_ms` milliseconds have passed since the
    /// query went out.
    pub fn is_expired(&self, now: u64, timeout_ms: u64) -> (r: bool)
        ensures
            r == (spec_elapsed(self.created_at, now) > timeout_ms),
    {
        crate::dht::node::elapsed_ms(self.created_at, now) > timeout_ms
    }
}

/// Transactions are garbage-collected after 60 seconds.
pub const TRANSACTION_TIMEOUT_MS: u64 = 60000;

/// The transactions of `s` that are not yet expired, in order.
pub open spec fn spec_fresh_transactions(s: Seq<Transaction>, now: u64, timeout: u64) -> Seq<
    Transaction,
>
    decreases s,
{
    if s.len() == 0 {
        Seq::empty()
    } else {
        (if spec_elapsed(s[0].created_at, now) > timeout {
            Seq::empty()
        } else {
            seq![s[0]]
        }) + spec_fresh_transactions(s.drop_first(), now, timeout)
    }
}

/// Splitting the entries splits the filter.
proof fn lemma_fresh_concat(a: Seq<Transaction>, b: Seq<Transaction>, now: u64, timeout: u64)
    ensures
        spec_fresh_transactions(a + b, now, timeout) == spec_fresh_transactions(a, now, timeout)
            + spec_fresh_transactions(b, now, timeout),
    decreases a.len(),
{
    if a.len() == 0 {
        assert(a + b == b);
        assert(spec_fresh_transactions(a, now, timeout) == Seq::<Transaction>::empty());
        assert(spec_fresh_transactions(a, now, timeout) + spec_fresh_transactions(b, now, timeout)
            == spec_fresh_transactions(b, now, timeout));
    } else {
        lemma_fresh_concat(a.drop_first(), b, now, timeout);
        assert((a + b).drop_first() == a.drop_first() + b);
        assert((a + b)[0] == a[0]);
    }
}

/// The filter of one entry keeps or removes it.
proof fn lemma_fresh_singleton(x: Transaction, now: u64, timeout: u64)
    ensures
        spec_fresh_transactions(seq![x], now, timeout) == (if spec_elapsed(x.created_at, now)
            > timeout {
            Seq::<Transaction>::empty()
        } else {
            seq![x]
        }),
{
    let s = seq![x];
    assert(s[0] == x);
    assert(s.drop_first() =~= Seq::<Transaction>::empty());
    assert(spec_fresh_transactions(s.drop_first(), now, timeout) == Seq::<Transaction>::empty());
    if spec_elapsed(x.created_at, now) > timeout {
        assert(Seq::<Transaction>::empty() + Seq::<Transaction>::empty()
            =~= Seq::<Transaction>::empty());
    } else {
        assert(seq![x] + Seq::<Transaction>::empty() =~= seq![x]);
    }
}

/// Every entry of the filtered table is fresh.
proof fn lemma_fresh_all_fresh(s: Seq<Transaction>, now: u64, timeout: u64)
    ensures
        forall|i: int|
            0 <= i < spec_fresh_transactions(s, now, timeout).len() ==> spec_elapsed(
                #[trigger] spec_fresh_transactions(s, now, timeout)[i].created_at,
                now,
            ) <= timeout,
    decreases s,
{
    if s.len() > 0 {
        lemma_fresh_all_fresh(s.drop_first(), now, timeout);
        let rest = spec_fresh_transactions(s.drop_first(), now, timeout);
        assert forall|i: int|
            0 <= i < spec_fresh_transactions(s, now, timeout).len() implies spec_elapsed(
            spec_fresh_transactions(s, now, timeout)[i].created_at,
            now,
        ) <= timeout by {
            if spec_elapsed(s[0].created_at, now) > timeout {
                assert(spec_fresh_transactions(s, now, timeout) =~= rest);
            } else {
                if i > 0 {
                    assert(spec_fresh_transactions(s, now, timeout)[i] == rest[i - 1]);
                }
            }
        }
    }
}

/// The position of the first transaction with this id, or `-1`.
pub open spec fn spec_find_transaction(s: Seq<Transaction>, tid: Seq<char>, from: int) -> int
    decreases s.len() - from,
{
    if from < 0 || from >= s.len() {
        -1
    } else if s[from].transaction_id@ == tid {
        from
    } else {
        spec_find_transaction(s, tid, from + 1)
    }
}

/// A found position lies in range and carries the id.
pub proof fn lemma_find_transaction_range(s: Seq<Transaction>, tid: Seq<char>, from: int)
    requires
        0 <= from <= s.len(),
    ensures
        spec_find_transaction(s, tid, from) == -1 || (from <= spec_find_transaction(s, tid, from)
            < s.len() && s[spec_find_transaction(s, tid, from)].transaction_id@ == tid),
    decreases s.len() - from,
{
    if from < s.len() {
        if s[from].transaction_id@ == tid {
        } else {
            lemma_find_transaction_range(s, tid, from + 1);
        }
    }
}

/// No two transactions share an id.
pub open spec fn spec_transactions_unique(s: Seq<Transaction>) -> bool {
    forall|i: int, j: int|
        0 <= i < j < s.len() ==> (#[trigger] s[i]).transaction_id@ != (
        #[trigger] s[j]).transaction_id@
}

/// The table of outstanding queries.
#[derive(Debug)]
pub struct TransactionTable {
    /// The outstanding transactions, oldest first; the verified operations
    /// keep their ids unique.
    pub transactions: Vec<Transaction>,
}

impl TransactionTable {
    /// An empty table.
    pub fn new() -> (r: TransactionTable)
        ensures
            r.transactions@.len() == 0,
            spec_transactions_unique(r.transactions@),
    {
        TransactionTable { transactions: Vec::new() }
    }

    /// Registers an outgoing query: a transaction that reuses an id in
    /// flight replaces the old one, so ids stay unique.
    pub fn insert(&mut self, transaction: Transaction)
        ensures
            ({
                let j = spec_find_transaction(
                    old(self).transactions@,
                    transaction.transaction_id@,
                    0,
                );
                if j >= 0 {
                    final(self).transactions@ == old(self).transactions@.update(j, transaction)
                } else {
                    final(self).transactions@ == old(self).transactions@.push(transaction)
                }
            }),
            spec_transactions_unique(old(self).transactions@) ==> spec_transactions_unique(
                final(self).transactions@,
            ),
    {
        let mut k: usize = 0;
        while k < self.transactions.len()
            invariant
                k <= self.transactions@.len(),
                *self == *old(self),
                forall|i: int|
                    0 <= i < k ==> (#[trigger] self.transactions@[i]).transaction_id@
                        != transaction.transaction_id@,
                spec_find_transaction(self.transactions@, transaction.transaction_id@, 0)
                    == spec_find_transaction(
                    self.transactions@,
                    transaction.transaction_id@,
                    k as int,
                ),
            decreases self.transactions@.len() - k,
        {
            let candidate = &self.transactions[k].transaction_id;
            if *candidate == transaction.transaction_id {
                let ghost before = self.transactions@;
                self.transactions.set(k, transaction);
                proof {
                    assert(spec_find_transaction(before, transaction.transaction_id@, k as int)
                        == k);
                    if spec_transactions_unique(before) {
                        assert forall|i: int, j: int|
                            0 <= i < j < self.transactions@.len() implies (
                        #[trigger] self.transactions@[i]).transaction_id@ != (
                        #[trigger] self.transactions@[j]).transaction_id@ by {
                            if i != k {
                                assert(self.transactions@[i] == before[i]);
                            }
                            if j != k {
                                assert(self.transactions@[j] == before[j]);
                            }
                            assert(self.transactions@[k as int].transaction_id@ == before[
                            k as int].transaction_id@);
                        }
                    }
                }
                return ;
            }
            k = k + 1;
        }
        self.transactions.push(transaction);
        proof {
            if spec_transactions_unique(old(self).transactions@) {
                assert forall|i: int, j: int|
                    0 <= i < j < self.transactions@.len() implies (
                #[trigger] self.transactions@[i]).transaction_id@ != (
                #[trigger] self.transactions@[j]).transaction_id@ by {
                    if j == self.transactions@.len() - 1 {
                        assert(self.transactions@[i] == old(self).transactions@[i]);
                    }
                }
            }
        }
    }

    /// How many queries are outstanding.
    pub fn len(&self) -> (r: usize)
        ensures
            r == self.transactions@.len(),
    {
        self.transactions.len()
    }

    /// Removes every transaction older than the timeout. Afterwards every
    /// transaction in the table was created within the last `timeout_ms`
    /// milliseconds: the freshness invariant of the transaction map.
    pub fn cleanup(&mut self, now: u64, timeout_ms: u64)
        ensures
            final(self).transactions@ == spec_fresh_transactions(
                old(self).transactions@,
                now,
                timeout_ms,
            ),
            forall|i: int|
                0 <= i < final(self).transactions@.len() ==> spec_elapsed(
                    #[trigger] final(self).transactions@[i].created_at,
                    now,
                ) <= timeout_ms,
    {
        let ghost orig = self.transactions@;
        let mut k: usize = 0;
        let ghost consumed: int = 0;
        while k < self.transactions.len()
            invariant
                0 <= k <= self.transactions@.len(),
                0 <= consumed <= orig.len(),
                self.transactions@ == spec_fresh_transactions(
                    orig.subrange(0, consumed),
                    now,
                    timeout_ms,
                ) + orig.subrange(consumed, orig.len() as int),
                k == spec_fresh_transactions(orig.subrange(0, consumed), now, timeout_ms).len(),
            decreases orig.len() - consumed,
        {
            proof {
                assert(orig.subrange(0, consumed + 1) =~= orig.subrange(0, consumed) + seq![
                    orig[consumed],
                ]);
                lemma_fresh_concat(
                    orig.subrange(0, consumed),
                    seq![orig[consumed]],
                    now,
                    timeout_ms,
                );
                lemma_fresh_singleton(orig[consumed], now, timeout_ms);
                assert(self.transactions@[k as int] == orig[consumed]);
            }
            if self.transactions[k].is_expired(now, timeout_ms) {
                self.transactions.remove(k);
                proof {
                    let kept = spec_fresh_transactions(orig.subrange(0, consumed), now,
                        timeout_ms);
                    assert(self.transactions@ =~= kept + orig.subrange(
                        consumed + 1,
                        orig.len() as int,
                    ));
                    assert(spec_fresh_transactions(orig.subrange(0, consumed + 1), now, timeout_ms)
                        =~= kept);
                }
            } else {
                k = k + 1;
                proof {
                    let kept = spec_fresh_transactions(orig.subrange(0, consumed), now,
                        timeout_ms);
                    assert(spec_fresh_transactions(orig.subrange(0, consumed + 1), now, timeout_ms)
                        =~= kept + seq![orig[consumed]]);
                    assert(self.transactions@ =~= spec_fresh_transactions(
                        orig.subrange(0, consumed + 1),
                        now,
                        timeout_ms,
                    ) + orig.subrange(consumed + 1, orig.len() as int));
                }
            }
            proof {
                consumed = consumed + 1;
            }
        }
        proof {
            assert(consumed == orig.len()) by {
                if consumed < orig.len() {
                    assert(self.transactions@.len() >= k + (orig.len() - consumed));
                }
            }
            assert(orig.subrange(0, orig.len() as int) == orig);
            assert(orig.subrange(consumed, orig.len() as int) =~= Seq::<Transaction>::empty());
            assert(self.transactions@ =~= spec_fresh_transactions(orig, now, timeout_ms));
            lemma_fresh_all_fresh(orig, now, timeout_ms);
        }
    }

    /// Removes and returns the first transaction with this id, if any.
    pub fn take_matching(&mut self, transaction_id: &String) -> (r: Option<Transaction>)
        ensures
            match r {
                Some(t) => exists|j: int|
                    0 <= j < old(self).transactions@.len() && old(self).transactions@[j] == t
                        && #[trigger] old(self).transactions@[j].transaction_id@
                        == transaction_id@ && final(self).transactions@ == old(
                        self,
                    ).transactions@.remove(j),
                None => *final(self) == *old(self) && forall|j: int|
                    0 <= j < old(self).transactions@.len() ==> #[trigger] old(
                        self,
                    ).transactions@[j].transaction_id@ != transaction_id@,
            },
    {
        let mut k: usize = 0;
        while k < self.transactions.len()
            invariant
                k <= self.transactions@.len(),
                *self == *old(self),
                forall|j: int|
                    0 <= j < k ==> #[trigger] self.transactions@[j].transaction_id@
                        != transaction_id@,
            decreases self.transactions@.len() - k,
        {
            let candidate = &self.transactions[k].transaction_id;
            if *candidate == *transaction_id {
                let t = self.transactions.remove(k);
                return Some(t);
            }
            k = k + 1;
        }
        None
    }
}

/// A DHT wire message. Every message carries the opaque transaction id
/// its reply must echo; queries and responses carry a bencoded arguments
/// dictionary, errors a code and a text.
#[derive(Debug)]
pub enum DHTMessage {
    Query { transaction_id: Vec<u8>, query_type: QueryType, args: Vec<DictEntry> },
    Response { transaction_id: Vec<u8>, args: Vec<DictEntry> },
    Error { transaction_id: Vec<u8>, code: u32, message: String },
}

/// The bencoded dictionary a message serialises to, its keys in canonical
/// order.
pub open spec fn spec_dht_dict(m: &DHTMessage) -> Seq<BencodeSpecEntry> {
    match m {
        DHTMessage::Query { transaction_id, query_type, args } => seq![
            BencodeSpecEntry {
                key: seq![97u8],
                value: BencodeSpecValue::Dict(view_entries(args@)),
            },
            BencodeSpecEntry {
                key: seq![113u8],
                value: BencodeSpecValue::Bytes(spec_query_name(*query_type)),
            },
            BencodeSpecEntry { key: seq![116u8], value: BencodeSpecValue::Bytes(transaction_id@) },
            BencodeSpecEntry { key: seq![121u8], value: BencodeSpecValue::Bytes(seq![113u8]) },
        ],
        DHTMessage::Response { transaction_id, args } => seq![
            BencodeSpecEntry {
                key: seq![114u8],
                value: BencodeSpecValue::Dict(view_entries(args@)),
            },
            BencodeSpecEntry { key: seq![116u8], value: BencodeSpecValue::Bytes(transaction_id@) },
            BencodeSpecEntry { key: seq![121u8], value: BencodeSpecValue::Bytes(seq![114u8]) },
        ],
        DHTMessage::Error { transaction_id, code, message } => seq![
            BencodeSpecEntry {
                key: seq![101u8],
                value: BencodeSpecValue::List(
                    seq![
                        BencodeSpecValue::Int(*code as int),
                        BencodeSpecValue::Bytes(utf8_bytes_of(message@)),
                    ],
                ),
            },
            BencodeSpecEntry { key: seq![116u8], value: BencodeSpecValue::Bytes(transaction_id@) },
            BencodeSpecEntry { key: seq![121u8], value: BencodeSpecValue::Bytes(seq![101u8]) },
        ],
    }
}

impl DHTMessage {
    /// A `ping` query from our identifier; the arguments carry our id in
    /// hex.
    pub fn create_ping_query(transaction_id: String, our_id: NodeId) -> (r: DHTMessage)
        ensures
            r matches DHTMessage::Query { transaction_id: t, query_type, args } && t@
                == utf8_bytes_of(transaction_id@) && query_type == QueryType::Ping && view_entries(
                args@,
            ) == seq![
                BencodeSpecEntry {
                    key: seq![105u8, 100],
                    value: BencodeSpecValue::Bytes(
                        utf8_bytes_of(util::spec_hex_of(our_id.0@)),
                    ),
                },
            ],
    {
        let mut args: Vec<DictEntry> = Vec::new();
        let id_hex = our_id.to_hex();
        args.push(
            DictEntry {
                key: id_key_bytes(),
                value: BencodeValue::Bytes(string_bytes(&id_hex)),
            },
        );
        proof {
            crate::bencode::lemma_view_entries(args@);
            assert(view_entries(args@)[0] == args@[0]@);
            assert(view_entries(args@) =~= seq![
                BencodeSpecEntry {
                    key: seq![105u8, 100],
                    value: BencodeSpecValue::Bytes(
                        utf8_bytes_of(util::spec_hex_of(our_id.0@)),
                    ),
                },
            ]);
        }
        DHTMessage::Query {
            transaction_id: string_bytes(&transaction_id),
            query_type: QueryType::Ping,
            args,
        }
    }

    /// A `find_node` query for a target identifier.
    pub fn create_find_node_query(transaction_id: String, our_id: NodeId, target: NodeId) -> (r:
        DHTMessage)
        ensures
            r matches DHTMessage::Query { transaction_id: t, query_type, args } && t@
                == utf8_bytes_of(transaction_id@) && query_type == QueryType::FindNode
                && view_entries(args@) == seq![
                BencodeSpecEntry {
                    key: seq![105u8, 100],
                    value: BencodeSpecValue::Bytes(
                        utf8_bytes_of(util::spec_hex_of(our_id.0@)),
                    ),
                },
                BencodeSpecEntry {
                    key: seq![116u8, 97, 114, 103, 101, 116],
                    value: BencodeSpecValue::Bytes(
                        utf8_bytes_of(util::spec_hex_of(target.0@)),
                    ),
                },
            ],
    {
        let mut args: Vec<DictEntry> = Vec::new();
        let id_hex = our_id.to_hex();
        args.push(
            DictEntry {
                key: id_key_bytes(),
                value: BencodeValue::Bytes(string_bytes(&id_hex)),
            },
        );
        let target_hex = target.to_hex();
        args.push(
            DictEntry {
                key: target_key_bytes(),
                value: BencodeValue::Bytes(string_bytes(&target_hex)),
            },
        );
        proof {
            crate::bencode::lemma_view_entries(args@);
            assert(view_entries(args@)[0] == args@[0]@);
            assert(view_entries(args@)[1] == args@[1]@);
            assert(view_entries(args@) =~= seq![
                BencodeSpecEntry {
                    key: seq![105u8, 100],
                    value: BencodeSpecValue::Bytes(
                        utf8_bytes_of(util::spec_hex_of(our_id.0@)),
                    ),
                },
                BencodeSpecEntry {
                    key: seq![116u8, 97, 114, 103, 101, 116],
                    value: BencodeSpecValue::Bytes(
                        utf8_bytes_of(util::spec_hex_of(target.0@)),
                    ),
                },
            ]);
        }
        DHTMessage::Query {
            transaction_id: string_bytes(&transaction_id),
            query_type: QueryType::FindNode,
            args,
        }
    }

    /// A `get_peers` query for an info-hash.
    pub fn create_get_peers_query(transaction_id: String, our_id: NodeId, info_hash: Vec<u8>) -> (r:
        DHTMessage)
        ensures
            r matches DHTMessage::Query { transaction_id: t, query_type, args } && t@
                == utf8_bytes_of(transaction_id@) && query_type == QueryType::GetPeers,
    {
        let mut args: Vec<DictEntry> = Vec::new();
        let id_hex = our_id.to_hex();
        args.push(
            DictEntry {
                key: id_key_bytes(),
                value: BencodeValue::Bytes(string_bytes(&id_hex)),
            },
        );
        let hash_hex = util::hex_encode(info_hash.as_slice());
        args.push(
            DictEntry {
                key: info_hash_key_bytes(),
                value: BencodeValue::Bytes(string_bytes(&hash_hex)),
            },
        );
        let _ = our_id;
        DHTMessage::Query {
            transaction_id: string_bytes(&transaction_id),
            query_type: QueryType::GetPeers,
            args,
        }
    }

    /// An `announce_peer` query carrying the port we serve on and the
    /// token the queried node handed us in its `get_peers` reply.
    pub fn create_announce_peer_query(
        transaction_id: String,
        our_id: NodeId,
        info_hash: Vec<u8>,
        port: u16,
        token: String,
    ) -> (r: DHTMessage)
        ensures
            r matches DHTMessage::Query { transaction_id: t, query_type, args } && t@
                == utf8_bytes_of(transaction_id@) && query_type == QueryType::AnnouncePeer,
    {
        let mut args: Vec<DictEntry> = Vec::new();
        let id_hex = our_id.to_hex();
        args.push(
            DictEntry {
                key: id_key_bytes(),
                value: BencodeValue::Bytes(string_bytes(&id_hex)),
            },
        );
        let hash_hex = util::hex_encode(info_hash.as_slice());
        args.push(
            DictEntry {
                key: info_hash_key_bytes(),
                value: BencodeValue::Bytes(string_bytes(&hash_hex)),
            },
        );
        args.push(
            DictEntry { key: port_key_bytes(), value: BencodeValue::Int(port as i64) },
        );
        args.push(
            DictEntry { key: token_key_bytes(), value: BencodeValue::Bytes(string_bytes(&token)) },
        );
        let _ = our_id;
        DHTMessage::Query {
            transaction_id: string_bytes(&transaction_id),
            query_type: QueryType::AnnouncePeer,
            args,
        }
    }

    /// The one-letter message kind: `q`, `r` or `e`.
    pub fn message_type(&self) -> (r: &'static str)
        ensures
            match self {
                DHTMessage::Query { .. } => r@ == "q"@,
                DHTMessage::Response { .. } => r@ == "r"@,
                DHTMessage::Error { .. } => r@ == "e"@,
            },
    {
        match self {
            DHTMessage::Query { .. } => "q",
            DHTMessage::Response { .. } => "r",
            DHTMessage::Error { .. } => "e",
        }
    }

    /// The transaction id of the message, read back as text.
    pub fn get_transaction_id(&self) -> (r: Option<String>)
        ensures
            match r {
                Some(s) => s@ == util::utf8_lossy_of(spec_message_tid(self)),
                None => false,
            },
    {
        match self {
            DHTMessage::Query { transaction_id, .. } => Some(
                util::bytes_to_string_lossy(transaction_id.as_slice()),
            ),
            DHTMessage::Response { transaction_id, .. } => Some(
                util::bytes_to_string_lossy(transaction_id.as_slice()),
            ),
            DHTMessage::Error { transaction_id, .. } => Some(
                util::bytes_to_string_lossy(transaction_id.as_slice()),
            ),
        }
    }

    /// Serialises the message as a canonical bencoded dictionary.
    pub fn serialize(&self) -> (r: Result<Vec<u8>, TorrentError>)
        ensures
            r matches Ok(b) && b@ == spec_encode(BencodeSpecValue::Dict(spec_dht_dict(self))),
    {
        let value = self.to_bencode();
        Ok(value.encode())
    }

    /// The message as a bencode value.
    fn to_bencode(&self) -> (r: BencodeValue)
        ensures
            r@ == BencodeSpecValue::Dict(spec_dht_dict(self)),
    {
        match self {
            DHTMessage::Query { transaction_id, query_type, args } => {
                let mut entries: Vec<DictEntry> = Vec::new();
                let args_copy: Vec<DictEntry> = copy_entries(args);
                entries.push(
                    DictEntry { key: single_byte(97), value: BencodeValue::Dict(args_copy) },
                );
                entries.push(
                    DictEntry {
                        key: single_byte(113),
                        value: BencodeValue::Bytes(query_type.name_bytes()),
                    },
                );
                entries.push(
                    DictEntry {
                        key: single_byte(116),
                        value: BencodeValue::Bytes(util::copy_slice(transaction_id.as_slice())),
                    },
                );
                entries.push(
                    DictEntry {
                        key: single_byte(121),
                        value: BencodeValue::Bytes(single_byte(113)),
                    },
                );
                proof {
                    crate::bencode::lemma_view_entries(entries@);
                    assert(view_entries(entries@)[0] == entries@[0]@);
                    assert(view_entries(entries@)[1] == entries@[1]@);
                    assert(view_entries(entries@)[2] == entries@[2]@);
                    assert(view_entries(entries@)[3] == entries@[3]@);
                    assert(view_entries(entries@) =~= spec_dht_dict(self));
                }
                BencodeValue::Dict(entries)
            },
            DHTMessage::Response { transaction_id, args } => {
                let mut entries: Vec<DictEntry> = Vec::new();
                let args_copy: Vec<DictEntry> = copy_entries(args);
                entries.push(
                    DictEntry { key: single_byte(114), value: BencodeValue::Dict(args_copy) },
                );
                entries.push(
                    DictEntry {
                        key: single_byte(116),
                        value: BencodeValue::Bytes(util::copy_slice(transaction_id.as_slice())),
                    },
                );
                entries.push(
                    DictEntry {
                        key: single_byte(121),
                        value: BencodeValue::Bytes(single_byte(114)),
                    },
                );
                proof {
                    crate::bencode::lemma_view_entries(entries@);
                    assert(view_entries(entries@)[0] == entries@[0]@);
                    assert(view_entries(entries@)[1] == entries@[1]@);
                    assert(view_entries(entries@)[2] == entries@[2]@);
                    assert(view_entries(entries@) =~= spec_dht_dict(self));
                }
                BencodeValue::Dict(entries)
            },
            DHTMessage::Error { transaction_id, code, message } => {
                let mut entries: Vec<DictEntry> = Vec::new();
                let mut payload: Vec<BencodeValue> = Vec::new();
                payload.push(BencodeValue::Int(*code as i64));
                payload.push(BencodeValue::Bytes(string_bytes(message)));
                proof {
                    crate::bencode::lemma_view_elems(payload@);
                    assert(crate::bencode::view_elems(payload@)[0] == payload@[0]@);
                    assert(crate::bencode::view_elems(payload@)[1] == payload@[1]@);
                    assert(crate::bencode::view_elems(payload@) =~= seq![
                        BencodeSpecValue::Int(*code as int),
                        BencodeSpecValue::Bytes(utf8_bytes_of(message@)),
                    ]);
                }
                entries.push(DictEntry { key: single_byte(101), value: BencodeValue::List(payload) });
                entries.push(
                    DictEntry {
                        key: single_byte(116),
                        value: BencodeValue::Bytes(util::copy_slice(transaction_id.as_slice())),
                    },
                );
                entries.push(
                    DictEntry {
                        key: single_byte(121),
                        value: BencodeValue::Bytes(single_byte(101)),
                    },
                );
                proof {
                    crate::bencode::lemma_view_entries(entries@);
                    assert(view_entries(entries@)[0] == entries@[0]@);
                    assert(view_entries(entries@)[1] == entries@[1]@);
                    assert(view_entries(entries@)[2] == entries@[2]@);
                    assert(view_entries(entries@) =~= spec_dht_dict(self));
                }
                BencodeValue::Dict(entries)
            },
        }
    }
}

/// The transaction id a message carries.
pub open spec fn spec_message_tid(m: &DHTMessage) -> Seq<u8> {
    match m {
        DHTMessage::Query { transaction_id, .. } => transaction_id@,
        DHTMessage::Response { transaction_id, .. } => transaction_id@,
        DHTMessage::Error { transaction_id, .. } => transaction_id@,
    }
}

/// A one-byte vector.
fn single_byte(b: u8) -> (r: Vec<u8>)
    ensures
        r@ == seq![b],
{
    let mut out: Vec<u8> = Vec::new();
    out.push(b);
    proof {
        assert(out@ =~= seq![b]);
    }
    out
}

/// The bytes `id`.
fn id_key_bytes() -> (r: Vec<u8>)
    ensures
        r@ == seq![105u8, 100],
{
    let mut out: Vec<u8> = Vec::new();
    out.push(105);
    out.push(100);
    proof {
        assert(out@ =~= seq![105u8, 100]);
    }
    out
}

/// The bytes `target`.
fn target_key_bytes() -> (r: Vec<u8>)
    ensures
        r@ == seq![116u8, 97, 114, 103, 101, 116],
{
    let mut out: Vec<u8> = Vec::new();
    out.push(116);
    out.push(97);
    out.push(114);
    out.push(103);
    out.push(101);
    out.push(116);
    proof {
        assert(out@ =~= seq![116u8, 97, 114, 103, 101, 116]);
    }
    out
}

/// The bytes `info_hash`.
fn info_hash_key_bytes() -> (r: Vec<u8>)
    ensures
        r@ == seq![105u8, 110, 102, 111, 95, 104, 97, 115, 104],
{
    let mut out: Vec<u8> = Vec::new();
    out.push(105);
    out.push(110);
    out.push(102);
    out.push(111);
    out.push(95);
    out.push(104);
    out.push(97);
    out.push(115);
    out.push(104);
    proof {
        assert(out@ =~= seq![105u8, 110, 102, 111, 95, 104, 97, 115, 104]);
    }
    out
}

/// The bytes `port`.
fn port_key_bytes() -> (r: Vec<u8>)
    ensures
        r@ == seq![112u8, 111, 114, 116],
{
    let mut out: Vec<u8> = Vec::new();
    out.push(112);
    out.push(111);
    out.push(114);
    out.push(116);
    proof {
        assert(out@ =~= seq![112u8, 111, 114, 116]);
    }
    out
}

/// The bytes `token`.
fn token_key_bytes() -> (r: Vec<u8>)
    ensures
        r@ == seq![116u8, 111, 107, 101, 110],
{
    let mut out: Vec<u8> = Vec::new();
    out.push(116);
    out.push(111);
    out.push(107);
    out.push(101);
    out.push(110);
    proof {
        assert(out@ =~= seq![116u8, 111, 107, 101, 110]);
    }
    out
}

/// Relies on str::as_bytes: the UTF-8 bytes of the string, a function of
/// its characters alone. Decoding valid UTF-8 leniently gives the
/// characters back, so the lossy reading of these bytes is the string
/// itself.
#[verifier::external_body]
pub(crate) fn string_bytes(s: &String) -> (r: Vec<u8>)
    ensures
        r@ == utf8_bytes_of(s@),
        util::utf8_lossy_of(r@) == s@,
{
    s.as_bytes().to_vec()
}

/// A deep copy of dictionary entries, preserving their views.
fn copy_entries(entries: &Vec<DictEntry>) -> (r: Vec<DictEntry>)
    ensures
        view_entries(r@) == view_entries(entries@),
{
    let mut out: Vec<DictEntry> = Vec::new();
    let mut k: usize = 0;
    proof {
        crate::bencode::lemma_view_entries(entries@);
    }
    while k < entries.len()
        invariant
            k <= entries@.len(),
            out@.len() == k,
            forall|i: int| 0 <= i < entries@.len() ==> crate::bencode::view_entries(entries@)[i]
                == #[trigger] entries@[i]@,
            forall|i: int| 0 <= i < k ==> out@[i]@ == #[trigger] entries@[i]@,
        decreases entries@.len() - k,
    {
        let src = &entries[k];
        out.push(
            DictEntry { key: util::copy_slice(src.key.as_slice()), value: copy_value(&src.value) },
        );
        k = k + 1;
    }
    proof {
        crate::bencode::lemma_view_entries(out@);
        assert forall|i: int|
            0 <= i < out@.len() implies view_entries(out@)[i] == view_entries(entries@)[i] by {
            assert(view_entries(out@)[i] == out@[i]@);
            assert(view_entries(entries@)[i] == entries@[i]@);
        }
        assert(view_entries(out@) =~= view_entries(entries@));
    }
    out
}

/// A deep copy of a bencode value, preserving its view.
fn copy_value(v: &BencodeValue) -> (r: BencodeValue)
    ensures
        r@ == v@,
    decreases v,
{
    match v {
        BencodeValue::Int(i) => BencodeValue::Int(*i),
        BencodeValue::Bytes(b) => BencodeValue::Bytes(util::copy_slice(b.as_slice())),
        BencodeValue::List(l) => {
            let mut out: Vec<BencodeValue> = Vec::new();
            let mut k: usize = 0;
            proof {
                crate::bencode::lemma_view_elems(l@);
            }
            while k < l.len()
                invariant
                    k <= l@.len(),
                    out@.len() == k,
                    forall|i: int| 0 <= i < l@.len() ==> crate::bencode::view_elems(l@)[i]
                        == #[trigger] l@[i]@,
                    forall|i: int| 0 <= i < k ==> out@[i]@ == #[trigger] l@[i]@,
                    decreases_to!(*v => l@),
                decreases l@.len() - k,
            {
                proof {
                    assert(decreases_to!(l@ => l@[k as int]));
                }
                out.push(copy_value(&l[k]));
                k = k + 1;
            }
            proof {
                crate::bencode::lemma_view_elems(out@);
                assert forall|i: int|
                    0 <= i < out@.len() implies crate::bencode::view_elems(out@)[i]
                    == crate::bencode::view_elems(l@)[i] by {
                    assert(crate::bencode::view_elems(out@)[i] == out@[i]@);
                    assert(crate::bencode::view_elems(l@)[i] == l@[i]@);
                }
                assert(crate::bencode::view_elems(out@) =~= crate::bencode::view_elems(l@));
            }
            BencodeValue::List(out)
        },
        BencodeValue::Dict(d) => {
            let mut out: Vec<DictEntry> = Vec::new();
            let mut k: usize = 0;
            proof {
                crate::bencode::lemma_view_entries(d@);
            }
            while k < d.len()
                invariant
                    k <= d@.len(),
                    out@.len() == k,
                    forall|i: int| 0 <= i < d@.len() ==> crate::bencode::view_entries(d@)[i]
                        == #[trigger] d@[i]@,
                    forall|i: int| 0 <= i < k ==> out@[i]@ == #[trigger] d@[i]@,
                    decreases_to!(*v => d@),
                decreases d@.len() - k,
            {
                proof {
                    assert(decreases_to!(d@ => d@[k as int]));
                    assert(decreases_to!(d@[k as int] => d@[k as int].value));
                }
                let src = &d[k];
                out.push(
                    DictEntry {
                        key: util::copy_slice(src.key.as_slice()),
                        value: copy_value(&src.value),
                    },
                );
                k = k + 1;
            }
            proof {
                crate::bencode::lemma_view_entries(out@);
                assert forall|i: int|
                    0 <= i < out@.len() implies crate::bencode::view_entries(out@)[i]
                    == crate::bencode::view_entries(d@)[i] by {
                    assert(crate::bencode::view_entries(out@)[i] == out@[i]@);
                    assert(crate::bencode::view_entries(d@)[i] == d@[i]@);
                }
                assert(crate::bencode::view_entries(out@) =~= crate::bencode::view_entries(d@));
            }
            BencodeValue::Dict(out)
        },
    }
}

/// A fresh transaction id: four random bytes, hex encoded.
pub fn generate_transaction_id() -> (r: String)
    ensures
        r@.len() == 8,
{
    let mut bytes: Vec<u8> = Vec::new();
    let mut k: usize = 0;
    while k < 4
        invariant
            k <= 4,
            bytes@.len() == k,
        decreases 4 - k,
    {
        bytes.push(rand::random::<u8>());
        k = k + 1;
    }
    let r = util::hex_encode(bytes.as_slice());
    proof {
        util::lemma_hex_of_len(bytes@);
    }
    r
}


/// The difference of two multiples of `m` is a multiple of `m`.
proof fn lemma_mod_diff_zero(len: int, off: int, m: int)
    requires
        m > 0,
        0 <= off <= len,
        len % m == 0,
        off % m == 0,
    ensures
        (len - off) % m == 0,
{
    vstd::arithmetic::div_mod::lemma_fundamental_div_mod(len, m);
    vstd::arithmetic::div_mod::lemma_fundamental_div_mod(off, m);
    let q1 = len / m;
    let q2 = off / m;
    assert(len - off == m * q1 - m * q2);
    assert(m * q1 - m * q2 == (q1 - q2) * m) by (nonlinear_arith);
    vstd::arithmetic::div_mod::lemma_mod_multiples_basic(q1 - q2, m);
}

/// The 26 bytes of one compact node: 20 id bytes, 4 address bytes, 2 port
/// bytes, all big-endian.
pub open spec fn spec_compact_node(id: Seq<u8>, ep: Endpoint) -> Seq<u8> {
    id + spec_u32_be(ep.ip) + spec_u16_be(ep.port)
}

/// The concatenated compact encoding of a node list.
pub open spec fn spec_compact_nodes(xs: Seq<(Seq<u8>, Endpoint)>) -> Seq<u8>
    decreases xs,
{
    if xs.len() == 0 {
        Seq::empty()
    } else {
        spec_compact_node(xs[0].0, xs[0].1) + spec_compact_nodes(xs.drop_first())
    }
}

/// The node list read from 26-byte chunks.
pub open spec fn spec_parse_compact_nodes(data: Seq<u8>) -> Seq<(Seq<u8>, Endpoint)>
    decreases data.len(),
{
    if data.len() < 26 {
        Seq::empty()
    } else {
        seq![
            (
                data.subrange(0, 20),
                Endpoint {
                    ip: spec_u32_from_be(data.subrange(20, 24)),
                    port: spec_u16_from_be(data.subrange(24, 26)),
                },
            ),
        ] + spec_parse_compact_nodes(data.skip(26))
    }
}

/// The 6 bytes of one compact peer.
pub open spec fn spec_compact_peer(ep: Endpoint) -> Seq<u8> {
    spec_u32_be(ep.ip) + spec_u16_be(ep.port)
}

/// The concatenated compact encoding of a peer list.
pub open spec fn spec_compact_peers(xs: Seq<Endpoint>) -> Seq<u8>
    decreases xs,
{
    if xs.len() == 0 {
        Seq::empty()
    } else {
        spec_compact_peer(xs[0]) + spec_compact_peers(xs.drop_first())
    }
}

/// The peer list read from 6-byte chunks.
pub open spec fn spec_parse_compact_peers(data: Seq<u8>) -> Seq<Endpoint>
    decreases data.len(),
{
    if data.len() < 6 {
        Seq::empty()
    } else {
        seq![
            Endpoint {
                ip: spec_u32_from_be(data.subrange(0, 4)),
                port: spec_u16_from_be(data.subrange(4, 6)),
            },
        ] + spec_parse_compact_peers(data.skip(6))
    }
}

/// The views of a parsed node list.
pub open spec fn spec_node_pairs_view(s: Seq<(NodeId, Endpoint)>) -> Seq<(Seq<u8>, Endpoint)> {
    Seq::new(s.len(), |i: int| (s[i].0.0@, s[i].1))
}

/// Parses a compact node list: 26 bytes per node. Fails exactly when the
/// length is not a multiple of 26.
pub fn parse_compact_nodes(data: &[u8]) -> (r: Result<Vec<(NodeId, Endpoint)>, TorrentError>)
    ensures
        match r {
            Ok(nodes) => data@.len() % 26 == 0 && spec_node_pairs_view(nodes@)
                == spec_parse_compact_nodes(data@),
            Err(e) => data@.len() % 26 != 0 && e is ParseError,
        },
{
    if data.len() % 26 != 0 {
        return Err(TorrentError::parse_error("Invalid compact nodes data length"));
    }
    let mut nodes: Vec<(NodeId, Endpoint)> = Vec::new();
    proof {
        assert(data@.skip(0) =~= data@);
        assert(spec_node_pairs_view(nodes@) + spec_parse_compact_nodes(data@)
            =~= spec_parse_compact_nodes(data@));
    }
    let mut off: usize = 0;
    while off < data.len()
        invariant
            off <= data@.len(),
            off % 26 == 0,
            data@.len() % 26 == 0,
            spec_parse_compact_nodes(data@) == spec_node_pairs_view(nodes@)
                + spec_parse_compact_nodes(data@.skip(off as int)),
        decreases data@.len() - off,
    {
        proof {
            assert(data@.len() - off >= 26) by {
                assert(off < data@.len());
                assert((data@.len() - off) % 26 == 0) by {
                    lemma_mod_diff_zero(data@.len() as int, off as int, 26);
                }
                if data@.len() - off < 26 {
                    assert((data@.len() - off) % 26 == data@.len() - off) by {
                        vstd::arithmetic::div_mod::lemma_small_mod(
                            (data@.len() - off) as nat,
                            26nat,
                        );
                    }
                }
            }
        }
        let id = copy_range(data, off, off + 20);
        let ip = read_u32_be(data, off + 20);
        let port = read_u16_be(data, off + 24);
        let ghost nodes_before = nodes@;
        nodes.push((NodeId(id), Endpoint { ip, port }));
        off = off + 26;
        proof {
            let tail = data@.skip((off - 26) as int);
            assert(tail.subrange(0, 20) =~= data@.subrange(off - 26, off - 6));
            assert(tail.subrange(20, 24) =~= data@.subrange(off - 6, off - 2));
            assert(tail.subrange(24, 26) =~= data@.subrange(off - 2, off as int));
            assert(tail.skip(26) =~= data@.skip(off as int));
            assert(spec_node_pairs_view(nodes@) =~= spec_node_pairs_view(nodes_before) + seq![
                (data@.subrange(off - 26, off - 6), Endpoint { ip, port }),
            ]);
            assert(spec_parse_compact_nodes(data@) =~= spec_node_pairs_view(nodes@)
                + spec_parse_compact_nodes(data@.skip(off as int)));
        }
    }
    proof {
        assert(data@.skip(data@.len() as int).len() == 0);
        assert(spec_parse_compact_nodes(data@) =~= spec_node_pairs_view(nodes@));
    }
    Ok(nodes)
}

/// Serialises a node list to its compact encoding.
pub fn serialize_compact_nodes(nodes: &Vec<(NodeId, Endpoint)>) -> (r: Result<
    Vec<u8>,
    TorrentError,
>)
    requires
        forall|i: int| 0 <= i < nodes@.len() ==> (#[trigger] nodes@[i]).0.0@.len() == 20,
    ensures
        r matches Ok(b) && b@ == spec_compact_nodes(spec_node_pairs_view(nodes@)),
{
    let mut out: Vec<u8> = Vec::new();
    let ghost all = spec_node_pairs_view(nodes@);
    proof {
        assert(all.skip(0) =~= all);
        assert(out@ + spec_compact_nodes(all) =~= spec_compact_nodes(all));
    }
    let mut k: usize = 0;
    while k < nodes.len()
        invariant
            k <= nodes@.len(),
            all == spec_node_pairs_view(nodes@),
            forall|i: int| 0 <= i < nodes@.len() ==> (#[trigger] nodes@[i]).0.0@.len() == 20,
            spec_compact_nodes(all) == out@ + spec_compact_nodes(all.skip(k as int)),
        decreases nodes@.len() - k,
    {
        proof {
            let s = all.skip(k as int);
            assert(s[0] == all[k as int]);
            assert(s.drop_first() =~= all.skip(k + 1));
        }
        let entry = &nodes[k];
        let mut j: usize = 0;
        let ghost out_before = out@;
        while j < entry.0.0.len()
            invariant
                j <= entry.0.0@.len(),
                out@ == out_before + entry.0.0@.subrange(0, j as int),
            decreases entry.0.0@.len() - j,
        {
            out.push(entry.0.0[j]);
            j = j + 1;
            assert(entry.0.0@.subrange(0, j as int) =~= entry.0.0@.subrange(0, j - 1) + seq![
                entry.0.0@[j - 1],
            ]);
        }
        proof {
            assert(entry.0.0@.subrange(0, entry.0.0@.len() as int) == entry.0.0@);
        }
        push_u32_be(&mut out, entry.1.ip);
        push_u16_be(&mut out, entry.1.port);
        k = k + 1;
        proof {
            assert(out@ =~= out_before + spec_compact_node(all[k - 1 as int].0, all[k
                - 1 as int].1));
            assert(spec_compact_nodes(all) =~= out@ + spec_compact_nodes(all.skip(k as int)));
        }
    }
    proof {
        assert(all.skip(nodes@.len() as int) =~= Seq::<(Seq<u8>, Endpoint)>::empty());
        assert(out@ =~= spec_compact_nodes(all));
    }
    Ok(out)
}

/// Parses a compact peer list: 6 bytes per peer. Fails exactly when the
/// length is not a multiple of 6.
pub fn parse_compact_peers(data: &[u8]) -> (r: Result<Vec<Endpoint>, TorrentError>)
    ensures
        match r {
            Ok(peers) => data@.len() % 6 == 0 && peers@ == spec_parse_compact_peers(data@),
            Err(e) => data@.len() % 6 != 0 && e is ParseError,
        },
{
    if data.len() % 6 != 0 {
        return Err(TorrentError::parse_error("Invalid compact peers data length"));
    }
    let mut peers: Vec<Endpoint> = Vec::new();
    proof {
        assert(data@.skip(0) =~= data@);
        assert(peers@ + spec_parse_compact_peers(data@) =~= spec_parse_compact_peers(data@));
    }
    let mut off: usize = 0;
    while off < data.len()
        invariant
            off <= data@.len(),
            off % 6 == 0,
            data@.len() % 6 == 0,
            spec_parse_compact_peers(data@) == peers@ + spec_parse_compact_peers(
                data@.skip(off as int),
            ),
        decreases data@.len() - off,
    {
        proof {
            assert(data@.len() - off >= 6) by {
                assert((data@.len() - off) % 6 == 0) by {
                    lemma_mod_diff_zero(data@.len() as int, off as int, 6);
                }
                if data@.len() - off < 6 {
                    assert((data@.len() - off) % 6 == data@.len() - off) by {
                        vstd::arithmetic::div_mod::lemma_small_mod((data@.len() - off) as nat,
                            6nat);
                    }
                }
            }
        }
        let ip = read_u32_be(data, off);
        let port = read_u16_be(data, off + 4);
        let ghost peers_before = peers@;
        peers.push(Endpoint { ip, port });
        off = off + 6;
        proof {
            let tail = data@.skip((off - 6) as int);
            assert(tail.subrange(0, 4) =~= data@.subrange(off - 6, off - 2));
            assert(tail.subrange(4, 6) =~= data@.subrange(off - 2, off as int));
            assert(tail.skip(6) =~= data@.skip(off as int));
            assert(spec_parse_compact_peers(data@) =~= peers@ + spec_parse_compact_peers(
                data@.skip(off as int),
            ));
        }
    }
    proof {
        assert(data@.skip(data@.len() as int).len() == 0);
        assert(spec_parse_compact_peers(data@) =~= peers@);
    }
    Ok(peers)
}

/// Serialises a peer list to its compact encoding.
pub fn serialize_compact_peers(peers: &Vec<Endpoint>) -> (r: Result<Vec<u8>, TorrentError>)
    ensures
        r matches Ok(b) && b@ == spec_compact_peers(peers@),
{
    let mut out: Vec<u8> = Vec::new();
    proof {
        assert(peers@.skip(0) =~= peers@);
        assert(out@ + spec_compact_peers(peers@) =~= spec_compact_peers(peers@));
    }
    let mut k: usize = 0;
    while k < peers.len()
        invariant
            k <= peers@.len(),
            spec_compact_peers(peers@) == out@ + spec_compact_peers(peers@.skip(k as int)),
        decreases peers@.len() - k,
    {
        proof {
            let s = peers@.skip(k as int);
            assert(s[0] == peers@[k as int]);
            assert(s.drop_first() =~= peers@.skip(k + 1));
        }
        let ghost out_before = out@;
        push_u32_be(&mut out, peers[k].ip);
        push_u16_be(&mut out, peers[k].port);
        k = k + 1;
        proof {
            assert(out@ =~= out_before + spec_compact_peer(peers@[k - 1 as int]));
            assert(spec_compact_peers(peers@) =~= out@ + spec_compact_peers(
                peers@.skip(k as int),
            ));
        }
    }
    proof {
        assert(peers@.skip(peers@.len() as int) =~= Seq::<Endpoint>::empty());
        assert(out@ =~= spec_compact_peers(peers@));
    }
    Ok(out)
}

/// Reading back a compact node list yields the list: the round trip law of
/// the compact node encoding.
pub proof fn lemma_compact_nodes_round_trip(xs: Seq<(Seq<u8>, Endpoint)>)
    requires
        forall|i: int| 0 <= i < xs.len() ==> (#[trigger] xs[i]).0.len() == 20,
    ensures
        spec_parse_compact_nodes(spec_compact_nodes(xs)) == xs,
    decreases xs,
{
    if xs.len() == 0 {
        assert(spec_compact_nodes(xs).len() == 0);
        assert(spec_parse_compact_nodes(spec_compact_nodes(xs)) =~= xs);
    } else {
        let head = xs[0];
        let rest = xs.drop_first();
        assert(forall|i: int| 0 <= i < rest.len() ==> rest[i] == #[trigger] xs[i + 1]);
        lemma_compact_nodes_round_trip(rest);
        let b = spec_compact_nodes(xs);
        let chunk = spec_compact_node(head.0, head.1);
        assert(chunk.len() == 26);
        assert(b == chunk + spec_compact_nodes(rest));
        assert(b.subrange(0, 20) =~= head.0);
        assert(b.subrange(20, 24) =~= spec_u32_be(head.1.ip));
        assert(b.subrange(24, 26) =~= spec_u16_be(head.1.port));
        lemma_u32_be_round_trip(head.1.ip);
        lemma_u16_be_round_trip(head.1.port);
        assert(b.skip(26) =~= spec_compact_nodes(rest));
        assert(spec_parse_compact_nodes(b) =~= seq![head] + rest);
        assert(seq![head] + rest =~= xs);
    }
}

/// Reading back a compact peer list yields the list: the round trip law of
/// the compact peer encoding.
pub proof fn lemma_compact_peers_round_trip(xs: Seq<Endpoint>)
    ensures
        spec_parse_compact_peers(spec_compact_peers(xs)) == xs,
    decreases xs,
{
    if xs.len() == 0 {
        assert(spec_compact_peers(xs).len() == 0);
        assert(spec_parse_compact_peers(spec_compact_peers(xs)) =~= xs);
    } else {
        let head = xs[0];
        let rest = xs.drop_first();
        lemma_compact_peers_round_trip(rest);
        let b = spec_compact_peers(xs);
        let chunk = spec_compact_peer(head);
        assert(chunk.len() == 6);
        assert(b == chunk + spec_compact_peers(rest));
        assert(b.subrange(0, 4) =~= spec_u32_be(head.ip));
        assert(b.subrange(4, 6) =~= spec_u16_be(head.port));
        lemma_u32_be_round_trip(head.ip);
        lemma_u16_be_round_trip(head.port);
        assert(b.skip(6) =~= spec_compact_peers(rest));
        assert(spec_parse_compact_peers(b) =~= seq![head] + rest);
        assert(seq![head] + rest =~= xs);
    }
}

/// Whether a parsed root dictionary reads as this message: `t` carries its
/// transaction id, `y` its kind, and the kind's payload key holds its
/// content.
pub open spec fn spec_msg_matches(root: Seq<BencodeSpecEntry>, m: &DHTMessage) -> bool {
    match m {
        DHTMessage::Query { transaction_id, query_type, args } => {
            &&& crate::torrent::parser::spec_dict_get(root, seq![116u8]) == Some(
                BencodeSpecValue::Bytes(transaction_id@),
            )
            &&& crate::torrent::parser::spec_dict_get(root, seq![121u8]) == Some(
                BencodeSpecValue::Bytes(seq![113u8]),
            )
            &&& crate::torrent::parser::spec_dict_get(root, seq![113u8]) == Some(
                BencodeSpecValue::Bytes(spec_query_name(*query_type)),
            )
            &&& (crate::torrent::parser::spec_dict_get(root, seq![97u8]) matches Some(
                BencodeSpecValue::Dict(d),
            ) && view_entries(args@) == d)
        },
        DHTMessage::Response { transaction_id, args } => {
            &&& crate::torrent::parser::spec_dict_get(root, seq![116u8]) == Some(
                BencodeSpecValue::Bytes(transaction_id@),
            )
            &&& crate::torrent::parser::spec_dict_get(root, seq![121u8]) == Some(
                BencodeSpecValue::Bytes(seq![114u8]),
            )
            &&& (crate::torrent::parser::spec_dict_get(root, seq![114u8]) matches Some(
                BencodeSpecValue::Dict(d),
            ) && view_entries(args@) == d)
        },
        DHTMessage::Error { transaction_id, code, message } => {
            &&& crate::torrent::parser::spec_dict_get(root, seq![116u8]) == Some(
                BencodeSpecValue::Bytes(transaction_id@),
            )
            &&& crate::torrent::parser::spec_dict_get(root, seq![121u8]) == Some(
                BencodeSpecValue::Bytes(seq![101u8]),
            )
            &&& (crate::torrent::parser::spec_dict_get(root, seq![101u8]) matches Some(
                BencodeSpecValue::List(l),
            ) && l.len() >= 2 && l[0] == BencodeSpecValue::Int(*code as int) && (l[1] matches
            BencodeSpecValue::Bytes(msg) && message@ == util::utf8_lossy_of(msg)))
        },
    }
}

/// Whether a byte string spells one of the four query names.
pub open spec fn spec_name_known(n: Seq<u8>) -> bool {
    n == spec_query_name(QueryType::Ping) || n == spec_query_name(QueryType::FindNode) || n
        == spec_query_name(QueryType::GetPeers) || n == spec_query_name(QueryType::AnnouncePeer)
}

/// Whether a parsed root dictionary is a readable message: a byte-string
/// `t`, a one-letter `y` naming a known kind, and the kind's payload key
/// holding a value of the right shape.
pub open spec fn spec_dht_readable(root: Seq<BencodeSpecEntry>) -> bool {
    &&& (crate::torrent::parser::spec_dict_get(root, seq![116u8]) matches Some(
        BencodeSpecValue::Bytes(t),
    ))
    &&& (crate::torrent::parser::spec_dict_get(root, seq![121u8]) matches Some(
        BencodeSpecValue::Bytes(y),
    ) && ((y == seq![113u8] && (crate::torrent::parser::spec_dict_get(root, seq![113u8]) matches
    Some(BencodeSpecValue::Bytes(n)) && spec_name_known(n)) && (
    crate::torrent::parser::spec_dict_get(root, seq![97u8]) matches Some(
        BencodeSpecValue::Dict(d),
    ))) || (y == seq![114u8] && (crate::torrent::parser::spec_dict_get(root, seq![114u8]) matches
    Some(BencodeSpecValue::Dict(d)))) || (y == seq![101u8] && (
    crate::torrent::parser::spec_dict_get(root, seq![101u8]) matches Some(
        BencodeSpecValue::List(l),
    ) && l.len() >= 2 && (l[0] matches BencodeSpecValue::Int(c) && 0 <= c <= u32::MAX) && l[1]
        is Bytes))))
}

impl DHTMessage {
    /// Reads a message from its bencoded bytes, failing exactly when the
    /// input does not parse as a readable message dictionary: a
    /// byte-string `t`, a `y` of `q`, `r` or `e`, and for a query a known
    /// name under `q` with an arguments dictionary under `a`, for a
    /// response a dictionary under `r`, and for an error a list of a
    /// 32-bit code and a text under `e`.
    pub fn deserialize(data: &[u8]) -> (r: Result<DHTMessage, TorrentError>)
        ensures
            match r {
                Ok(m) => spec_parse_value(data@, 0, (data@.len() + 1) as nat) matches Some(
                    (v, end),
                ) && v matches BencodeSpecValue::Dict(root) && spec_dht_readable(root)
                    && spec_msg_matches(root, &m),
                Err(e) => e is ParseError && !(spec_parse_value(
                    data@,
                    0,
                    (data@.len() + 1) as nat,
                ) matches Some((v, end)) && v matches BencodeSpecValue::Dict(root)
                    && spec_dht_readable(root)),
            },
    {
        let mut idx: usize = 0;
        let parsed = crate::bencode::parse_value(data, &mut idx)?;
        let root = match parsed.as_dict() {
            Some(d) => d,
            None => {
                return Err(TorrentError::parse_error("DHT message must be a dictionary"));
            },
        };
        let t_key = single_byte(116);
        let tid_bytes = match crate::torrent::parser::dict_get(root, t_key.as_slice()) {
            Some(v) => match v.as_bytes() {
                Some(b) => b,
                None => {
                    return Err(TorrentError::parse_error("DHT transaction id must be bytes"));
                },
            },
            None => {
                return Err(TorrentError::parse_error("DHT message without transaction id"));
            },
        };
        let transaction_id = util::copy_slice(tid_bytes.as_slice());
        let y_key = single_byte(121);
        let ghost mut y_view: Seq<u8> = Seq::empty();
        let kind = match crate::torrent::parser::dict_get(root, y_key.as_slice()) {
            Some(v) => match v.as_bytes() {
                Some(b) => {
                    if b.len() != 1 {
                        return Err(TorrentError::parse_error("Unknown DHT message kind"));
                    }
                    proof {
                        y_view = b@;
                    }
                    b[0]
                },
                None => {
                    return Err(TorrentError::parse_error("Unknown DHT message kind"));
                },
            },
            None => {
                return Err(TorrentError::parse_error("DHT message without kind"));
            },
        };
        proof {
            assert(y_view.len() == 1 && y_view[0] == kind);
        }
        if kind == 113 {
            proof {
                assert(y_view =~= seq![113u8]);
                assert(seq![113u8] != seq![114u8] && seq![113u8] != seq![101u8]) by {
                    assert(seq![113u8][0] == 113u8 && seq![114u8][0] == 114u8 && seq![101u8][0]
                        == 101u8);
                }
            }
            let q_key = single_byte(113);
            let name = match crate::torrent::parser::dict_get(root, q_key.as_slice()) {
                Some(v) => match v.as_bytes() {
                    Some(b) => b,
                    None => {
                        return Err(TorrentError::parse_error("DHT query name must be bytes"));
                    },
                },
                None => {
                    return Err(TorrentError::parse_error("DHT query without name"));
                },
            };
            let query_type = if crate::protocol::wire::bytes_eq(
                name.as_slice(),
                QueryType::Ping.name_bytes().as_slice(),
            ) {
                QueryType::Ping
            } else if crate::protocol::wire::bytes_eq(
                name.as_slice(),
                QueryType::FindNode.name_bytes().as_slice(),
            ) {
                QueryType::FindNode
            } else if crate::protocol::wire::bytes_eq(
                name.as_slice(),
                QueryType::GetPeers.name_bytes().as_slice(),
            ) {
                QueryType::GetPeers
            } else if crate::protocol::wire::bytes_eq(
                name.as_slice(),
                QueryType::AnnouncePeer.name_bytes().as_slice(),
            ) {
                QueryType::AnnouncePeer
            } else {
                return Err(TorrentError::parse_error("Unknown DHT query name"));
            };
            let a_key = single_byte(97);
            let args = match crate::torrent::parser::dict_get(root, a_key.as_slice()) {
                Some(v) => match v.as_dict() {
                    Some(d) => copy_entries(d),
                    None => {
                        return Err(TorrentError::parse_error("DHT arguments must be a dictionary"));
                    },
                },
                None => {
                    return Err(TorrentError::parse_error("DHT query without arguments"));
                },
            };
            return Ok(DHTMessage::Query { transaction_id, query_type, args });
        }
        if kind == 114 {
            proof {
                assert(y_view =~= seq![114u8]);
                assert(seq![114u8] != seq![113u8] && seq![114u8] != seq![101u8]) by {
                    assert(seq![113u8][0] == 113u8 && seq![114u8][0] == 114u8 && seq![101u8][0]
                        == 101u8);
                }
            }
            let r_key = single_byte(114);
            let args = match crate::torrent::parser::dict_get(root, r_key.as_slice()) {
                Some(v) => match v.as_dict() {
                    Some(d) => copy_entries(d),
                    None => {
                        return Err(TorrentError::parse_error("DHT response must hold a dictionary"));
                    },
                },
                None => {
                    return Err(TorrentError::parse_error("DHT response without arguments"));
                },
            };
            return Ok(DHTMessage::Response { transaction_id, args });
        }
        if kind == 101 {
            proof {
                assert(y_view =~= seq![101u8]);
                assert(seq![101u8] != seq![113u8] && seq![101u8] != seq![114u8]) by {
                    assert(seq![113u8][0] == 113u8 && seq![114u8][0] == 114u8 && seq![101u8][0]
                        == 101u8);
                }
            }
            let e_key = single_byte(101);
            let payload = match crate::torrent::parser::dict_get(root, e_key.as_slice()) {
                Some(v) => match v.as_list() {
                    Some(l) => l,
                    None => {
                        return Err(TorrentError::parse_error("DHT error must hold a list"));
                    },
                },
                None => {
                    return Err(TorrentError::parse_error("DHT error without payload"));
                },
            };
            proof {
                crate::bencode::lemma_view_elems(payload@);
            }
            if payload.len() < 2 {
                return Err(TorrentError::parse_error("DHT error payload too short"));
            }
            let code = match payload[0].as_int() {
                Some(c) => {
                    if c < 0 || c > u32::MAX as i64 {
                        return Err(TorrentError::parse_error("DHT error code out of range"));
                    }
                    c as u32
                },
                None => {
                    return Err(TorrentError::parse_error("DHT error code must be an integer"));
                },
            };
            let message = match payload[1].as_bytes() {
                Some(b) => util::bytes_to_string_lossy(b.as_slice()),
                None => {
                    return Err(TorrentError::parse_error("DHT error text must be bytes"));
                },
            };
            return Ok(DHTMessage::Error { transaction_id, code, message });
        }
        proof {
            assert(y_view != seq![113u8] && y_view != seq![114u8] && y_view != seq![101u8]) by {
                assert(seq![113u8][0] == 113u8 && seq![114u8][0] == 114u8 && seq![101u8][0]
                    == 101u8);
            }
        }
        Err(TorrentError::parse_error("Unknown DHT message kind"))
    }
}

/// A key that stands at `j`, behind none of its equals, is what the
/// dictionary lookup finds.
proof fn lemma_dict_get_at(root: Seq<BencodeSpecEntry>, key: Seq<u8>, j: int)
    requires
        0 <= j < root.len(),
        root[j].key == key,
        forall|i: int| 0 <= i < j ==> (#[trigger] root[i].key) != key,
    ensures
        crate::torrent::parser::spec_dict_get(root, key) == Some(root[j].value),
    decreases j,
{
    if j > 0 {
        assert(root[0].key != key);
        assert forall|i: int|
            0 <= i < j - 1 implies (#[trigger] root.drop_first()[i].key) != key by {
            assert(root.drop_first()[i] == root[i + 1]);
        }
        assert(root.drop_first()[j - 1] == root[j]);
        lemma_dict_get_at(root.drop_first(), key, j - 1);
    }
}

/// A dictionary whose values are each well formed is well formed.
proof fn lemma_entries_wf_each(d: Seq<BencodeSpecEntry>)
    requires
        forall|i: int| 0 <= i < d.len() ==> crate::bencode::spec_value_wf((#[trigger] d[i]).value),
    ensures
        crate::bencode::spec_entries_wf(d),
    decreases d.len(),
{
    if d.len() > 0 {
        assert forall|i: int|
            0 <= i < d.drop_first().len() implies crate::bencode::spec_value_wf(
            (#[trigger] d.drop_first()[i]).value,
        ) by {
            assert(d.drop_first()[i] == d[i + 1]);
        }
        lemma_entries_wf_each(d.drop_first());
    }
}

/// The four query names begin with four different bytes, so no two kinds
/// share a name.
proof fn lemma_query_name_injective(a: QueryType, b: QueryType)
    requires
        spec_query_name(a) == spec_query_name(b),
    ensures
        a == b,
{
    let na = spec_query_name(a);
    let nb = spec_query_name(b);
    assert(na[0] == nb[0]);
    match a {
        QueryType::Ping => {
            match b {
                QueryType::Ping => {},
                QueryType::FindNode => {
                    assert(na[0] == 112 && nb[0] == 102);
                },
                QueryType::GetPeers => {
                    assert(na[0] == 112 && nb[0] == 103);
                },
                QueryType::AnnouncePeer => {
                    assert(na[0] == 112 && nb[0] == 97);
                },
            }
        },
        QueryType::FindNode => {
            match b {
                QueryType::Ping => {
                    assert(na[0] == 102 && nb[0] == 112);
                },
                QueryType::FindNode => {},
                QueryType::GetPeers => {
                    assert(na[0] == 102 && nb[0] == 103);
                },
                QueryType::AnnouncePeer => {
                    assert(na[0] == 102 && nb[0] == 97);
                },
            }
        },
        QueryType::GetPeers => {
            match b {
                QueryType::Ping => {
                    assert(na[0] == 103 && nb[0] == 112);
                },
                QueryType::FindNode => {
                    assert(na[0] == 103 && nb[0] == 102);
                },
                QueryType::GetPeers => {},
                QueryType::AnnouncePeer => {
                    assert(na[0] == 103 && nb[0] == 97);
                },
            }
        },
        QueryType::AnnouncePeer => {
            match b {
                QueryType::Ping => {
                    assert(na[0] == 97 && nb[0] == 112);
                },
                QueryType::FindNode => {
                    assert(na[0] == 97 && nb[0] == 102);
                },
                QueryType::GetPeers => {
                    assert(na[0] == 97 && nb[0] == 103);
                },
                QueryType::AnnouncePeer => {},
            }
        },
    }
}

/// Round trip, first half: the dictionary a message serialises to parses
/// back from its own encoding, reads as a message, and reads as this one.
/// Its payload must be well formed, and an error text must survive the
/// lossy reading of its UTF-8 bytes, which holds of every text.
pub proof fn lemma_message_round_trip(m: &DHTMessage)
    requires
        match m {
            DHTMessage::Query { args, .. } => crate::bencode::spec_entries_wf(view_entries(args@)),
            DHTMessage::Response { args, .. } => crate::bencode::spec_entries_wf(
                view_entries(args@),
            ),
            DHTMessage::Error { .. } => true,
        },
        m matches DHTMessage::Error { message, .. } ==> util::utf8_lossy_of(
            utf8_bytes_of(message@),
        ) == message@,
    ensures
        spec_dht_readable(spec_dht_dict(m)),
        spec_msg_matches(spec_dht_dict(m), m),
        ({
            let enc = spec_encode(BencodeSpecValue::Dict(spec_dht_dict(m)));
            spec_parse_value(enc, 0, (enc.len() + 1) as nat) == Some(
                (BencodeSpecValue::Dict(spec_dht_dict(m)), enc.len()),
            )
        }),
{
    let root = spec_dht_dict(m);
    match m {
        DHTMessage::Query { transaction_id, query_type, args } => {
            assert(seq![97u8][0] == 97u8 && seq![113u8][0] == 113u8 && seq![116u8][0] == 116u8
                && seq![121u8][0] == 121u8);
            assert(seq![97u8] != seq![113u8] && seq![97u8] != seq![116u8] && seq![97u8]
                != seq![121u8] && seq![113u8] != seq![116u8] && seq![113u8] != seq![121u8]
                && seq![116u8] != seq![121u8]);
            lemma_dict_get_at(root, seq![97u8], 0);
            lemma_dict_get_at(root, seq![113u8], 1);
            lemma_dict_get_at(root, seq![116u8], 2);
            lemma_dict_get_at(root, seq![121u8], 3);
            match *query_type {
                QueryType::Ping => {},
                QueryType::FindNode => {},
                QueryType::GetPeers => {},
                QueryType::AnnouncePeer => {},
            }
            assert(spec_name_known(spec_query_name(*query_type)));
            assert forall|i: int| 0 <= i < root.len() implies crate::bencode::spec_value_wf(
                (#[trigger] root[i]).value,
            ) by {
                if i == 0 {
                    assert(root[0].value == BencodeSpecValue::Dict(view_entries(args@)));
                }
            }
            lemma_entries_wf_each(root);
        },
        DHTMessage::Response { transaction_id, args } => {
            assert(seq![114u8][0] == 114u8 && seq![116u8][0] == 116u8 && seq![121u8][0] == 121u8);
            assert(seq![114u8] != seq![116u8] && seq![114u8] != seq![121u8] && seq![116u8]
                != seq![121u8]);
            lemma_dict_get_at(root, seq![114u8], 0);
            lemma_dict_get_at(root, seq![116u8], 1);
            lemma_dict_get_at(root, seq![121u8], 2);
            assert forall|i: int| 0 <= i < root.len() implies crate::bencode::spec_value_wf(
                (#[trigger] root[i]).value,
            ) by {
                if i == 0 {
                    assert(root[0].value == BencodeSpecValue::Dict(view_entries(args@)));
                }
            }
            lemma_entries_wf_each(root);
        },
        DHTMessage::Error { transaction_id, code, message } => {
            assert(seq![101u8][0] == 101u8 && seq![116u8][0] == 116u8 && seq![121u8][0] == 121u8);
            assert(seq![101u8] != seq![116u8] && seq![101u8] != seq![121u8] && seq![116u8]
                != seq![121u8]);
            lemma_dict_get_at(root, seq![101u8], 0);
            lemma_dict_get_at(root, seq![116u8], 1);
            lemma_dict_get_at(root, seq![121u8], 2);
            let l = seq![
                BencodeSpecValue::Int(*code as int),
                BencodeSpecValue::Bytes(utf8_bytes_of(message@)),
            ];
            let l1 = seq![BencodeSpecValue::Bytes(utf8_bytes_of(message@))];
            assert(l.drop_first() =~= l1);
            assert(l1.drop_first() =~= Seq::<BencodeSpecValue>::empty());
            assert(crate::bencode::spec_elems_wf(l1.drop_first()));
            assert(crate::bencode::spec_value_wf(l1[0]));
            assert(crate::bencode::spec_elems_wf(l1));
            assert(crate::bencode::spec_value_wf(l[0]));
            assert(crate::bencode::spec_elems_wf(l));
            assert forall|i: int| 0 <= i < root.len() implies crate::bencode::spec_value_wf(
                (#[trigger] root[i]).value,
            ) by {
                if i == 0 {
                    assert(root[0].value == BencodeSpecValue::List(l));
                }
            }
            lemma_entries_wf_each(root);
        },
    }
    let v = BencodeSpecValue::Dict(root);
    let enc = spec_encode(v);
    crate::bencode::lemma_height_le_encode(v);
    crate::bencode::lemma_bencode_round_trip(v, (enc.len() + 1) as nat);
}

/// Round trip, second half: one root dictionary reads as one message.
/// Two messages read from the same dictionary share their kind, their
/// transaction id and their payload, so with the first half, what
/// `deserialize` returns on serialised bytes is the serialised message.
pub proof fn lemma_msg_matches_determined(
    root: Seq<BencodeSpecEntry>,
    m1: &DHTMessage,
    m2: &DHTMessage,
)
    requires
        spec_msg_matches(root, m1),
        spec_msg_matches(root, m2),
    ensures
        spec_message_tid(m1) == spec_message_tid(m2),
        m1 matches DHTMessage::Query { query_type: q1, args: a1, .. } ==> (m2 matches
            DHTMessage::Query { query_type: q2, args: a2, .. } && q1 == q2 && view_entries(a1@)
            == view_entries(a2@)),
        m1 matches DHTMessage::Response { args: a1, .. } ==> (m2 matches DHTMessage::Response {
            args: a2, .. } && view_entries(a1@) == view_entries(a2@)),
        m1 matches DHTMessage::Error { code: c1, message: g1, .. } ==> (m2 matches
            DHTMessage::Error { code: c2, message: g2, .. } && c1 == c2 && g1@ == g2@),
{
    assert(seq![113u8][0] == 113u8 && seq![114u8][0] == 114u8 && seq![101u8][0] == 101u8);
    assert(seq![113u8] != seq![114u8] && seq![113u8] != seq![101u8] && seq![114u8]
        != seq![101u8]);
    match m1 {
        DHTMessage::Query { query_type: q1, .. } => {
            match m2 {
                DHTMessage::Query { query_type: q2, .. } => {
                    lemma_query_name_injective(*q1, *q2);
                },
                DHTMessage::Response { .. } => {
                    assert(false);
                },
                DHTMessage::Error { .. } => {
                    assert(false);
                },
            }
        },
        DHTMessage::Response { .. } => {
            match m2 {
                DHTMessage::Query { .. } => {
                    assert(false);
                },
                DHTMessage::Response { .. } => {},
                DHTMessage::Error { .. } => {
                    assert(false);
                },
            }
        },
        DHTMessage::Error { .. } => {
            match m2 {
                DHTMessage::Query { .. } => {
                    assert(false);
                },
                DHTMessage::Response { .. } => {
                    assert(false);
                },
                DHTMessage::Error { .. } => {},
            }
        },
    }
}

} // verus!
