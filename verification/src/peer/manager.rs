//! The peer population and the scoring that picks whom to ask for a piece.
//!
//! Sockets, handshakes and the periodic management loop live with the I/O
//! glue outside the library; this module owns the table of known peers and
//! every decision the loop takes over it.

use vstd::prelude::*;
use crate::dht::node::Endpoint;
use crate::peer::state::{Peer, PeerState};

verus! {

/// The position of the first peer at `addr`, or `-1`.
pub open spec fn spec_find_peer(s: Seq<Peer>, addr: Endpoint, from: int) -> int
    decreases s.len() - from,
{
    if from < 0 || from >= s.len() {
        -1
    } else if s[from].addr == addr {
        from
    } else {
        spec_find_peer(s, addr, from + 1)
    }
}

/// The score of a peer for a set of needed pieces: ten per needed piece it
/// has, five when it is not choking us, plus the pieces we downloaded from
/// it, minus half the pieces we served it.
pub open spec fn spec_score(p: &Peer, needed: Seq<usize>) -> int {
    10 * spec_needed_held(p, needed, needed.len() as int) + (if !p.peer_choking {
        5int
    } else {
        0int
    }) + p.pieces_downloaded - p.pieces_uploaded / 2
}

/// How many of the first `upto` needed pieces the peer has.
pub open spec fn spec_needed_held(p: &Peer, needed: Seq<usize>, upto: int) -> int
    decreases upto,
{
    if upto <= 0 {
        0
    } else {
        spec_needed_held(p, needed, upto - 1) + (if spec_has_piece(p, needed[upto - 1] as int) {
            1int
        } else {
            0int
        })
    }
}

/// Whether the peer's bitfield has this bit.
pub open spec fn spec_has_piece(p: &Peer, piece_index: int) -> bool {
    p.bitfield matches Some(bf) && 0 <= piece_index < 8 * bf@.len() && crate::bits::spec_bit_at(
        bf@,
        piece_index,
    )
}

/// Whether the peer may serve requests at all: an active connection that
/// is not choking us.
pub open spec fn spec_eligible(p: &Peer) -> bool {
    p.state == PeerState::Connected && !p.peer_choking
}

/// The order that breaks score ties: by address, then by port.
pub open spec fn spec_endpoint_le(a: Endpoint, b: Endpoint) -> bool {
    a.ip < b.ip || (a.ip == b.ip && a.port <= b.port)
}

/// Whether `a` comes strictly before `b` in endpoint order.
fn endpoint_lt(a: Endpoint, b: Endpoint) -> (r: bool)
    ensures
        r == (spec_endpoint_le(a, b) && a != b),
{
    a.ip < b.ip || (a.ip == b.ip && a.port < b.port)
}

/// The population of known peers for one torrent.
#[derive(Debug)]
pub struct PeerManager {
    /// Every peer we know of, in discovery order, one entry per address.
    pub peers: Vec<Peer>,
    /// The most connections the manager will open.
    pub max_connections: usize,
    /// The torrent's info hash (20 bytes).
    pub info_hash: Vec<u8>,
    /// Our peer id (20 bytes).
    pub our_peer_id: Vec<u8>,
}

impl PeerManager {
    /// A manager with no peers yet.
    pub fn new(max_connections: usize, info_hash: Vec<u8>, our_peer_id: Vec<u8>) -> (r:
        PeerManager)
        ensures
            r.peers@.len() == 0,
            r.max_connections == max_connections,
            r.info_hash@ == info_hash@,
            r.our_peer_id@ == our_peer_id@,
    {
        PeerManager { peers: Vec::new(), max_connections, info_hash, our_peer_id }
    }

    /// Adds a peer by address; a known address is left untouched.
    pub fn add_peer(&mut self, addr: Endpoint)
        ensures
            final(self).max_connections == old(self).max_connections,
            final(self).info_hash == old(self).info_hash,
            final(self).our_peer_id == old(self).our_peer_id,
            if spec_find_peer(old(self).peers@, addr, 0) >= 0 {
                final(self).peers@ == old(self).peers@
            } else {
                final(self).peers@.len() == old(self).peers@.len() + 1 && final(self).peers@.subrange(0, old(self).peers@.len() as int) == old(self).peers@ && final(self).peers@.last().addr == addr && final(self).peers@.last().state
                    == PeerState::Disconnected
            },
    {
        let mut k: usize = 0;
        while k < self.peers.len()
            invariant
                k <= self.peers@.len(),
                *self == *old(self),
                spec_find_peer(self.peers@, addr, 0) == spec_find_peer(self.peers@, addr, k as int),
            decreases self.peers@.len() - k,
        {
            if endpoint_eq(self.peers[k].addr, addr) {
                return ;
            }
            k = k + 1;
        }
        self.peers.push(Peer::new(addr));
        proof {
            assert(self.peers@.subrange(0, old(self).peers@.len() as int) =~= old(self).peers@);
        }
    }

    /// Adds a peer with its id; a known address is left untouched.
    pub fn add_peer_with_id(&mut self, addr: Endpoint, peer_id: Vec<u8>)
        ensures
            final(self).max_connections == old(self).max_connections,
            if spec_find_peer(old(self).peers@, addr, 0) >= 0 {
                final(self).peers@ == old(self).peers@
            } else {
                final(self).peers@.len() == old(self).peers@.len() + 1 && final(self).peers@.subrange(0, old(self).peers@.len() as int) == old(self).peers@ && final(self).peers@.last().addr == addr && (final(self).peers@.last().peer_id matches Some(id)
                    && id@ == peer_id@)
            },
    {
        let mut k: usize = 0;
        while k < self.peers.len()
            invariant
                k <= self.peers@.len(),
                *self == *old(self),
                spec_find_peer(self.peers@, addr, 0) == spec_find_peer(self.peers@, addr, k as int),
            decreases self.peers@.len() - k,
        {
            if endpoint_eq(self.peers[k].addr, addr) {
                return ;
            }
            k = k + 1;
        }
        self.peers.push(Peer::with_peer_id(addr, peer_id));
        proof {
            assert(self.peers@.subrange(0, old(self).peers@.len() as int) =~= old(self).peers@);
        }
    }

    /// Adds many peers; each address enters the table at most once.
    pub fn add_peers(&mut self, addrs: Vec<Endpoint>)
        ensures
            final(self).max_connections == old(self).max_connections,
            forall|i: int|
                0 <= i < addrs@.len() ==> spec_find_peer(
                    final(self).peers@,
                    #[trigger] addrs@[i],
                    0,
                ) >= 0,
    {
        let mut k: usize = 0;
        while k < addrs.len()
            invariant
                k <= addrs@.len(),
                self.max_connections == old(self).max_connections,
                forall|i: int|
                    0 <= i < k ==> spec_find_peer(self.peers@, #[trigger] addrs@[i], 0) >= 0,
            decreases addrs@.len() - k,
        {
            let ghost before = self.peers@;
            self.add_peer(addrs[k]);
            proof {
                lemma_find_peer_push(before, self.peers@, addrs@[k as int]);
                assert forall|i: int|
                    0 <= i < k + 1 implies spec_find_peer(self.peers@, #[trigger] addrs@[i], 0)
                    >= 0 by {
                    if i < k {
                        lemma_find_peer_push(before, self.peers@, addrs@[i]);
                    }
                }
            }
            k = k + 1;
        }
    }

    /// Removes every entry for this address.
    pub fn remove_peer(&mut self, addr: Endpoint)
        ensures
            final(self).max_connections == old(self).max_connections,
            forall|i: int| 0 <= i < final(self).peers@.len() ==> final(self).peers@[i].addr != addr,
    {
        let mut k: usize = 0;
        while k < self.peers.len()
            invariant
                k <= self.peers@.len(),
                self.max_connections == old(self).max_connections,
                forall|i: int| 0 <= i < k ==> self.peers@[i].addr != addr,
            decreases self.peers@.len() - k,
        {
            if endpoint_eq(self.peers[k].addr, addr) {
                self.peers.remove(k);
            } else {
                k = k + 1;
            }
        }
    }

    /// How many peers are known.
    pub fn peer_count(&self) -> (r: usize)
        ensures
            r == self.peers@.len(),
    {
        self.peers.len()
    }

    /// Every known address, in table order.
    pub fn peer_addresses(&self) -> (r: Vec<Endpoint>)
        ensures
            r@.len() == self.peers@.len(),
            forall|i: int| 0 <= i < r@.len() ==> r@[i] == #[trigger] self.peers@[i].addr,
    {
        let mut out: Vec<Endpoint> = Vec::new();
        let mut k: usize = 0;
        while k < self.peers.len()
            invariant
                k <= self.peers@.len(),
                out@.len() == k,
                forall|i: int| 0 <= i < k ==> out@[i] == #[trigger] self.peers@[i].addr,
            decreases self.peers@.len() - k,
        {
            out.push(self.peers[k].addr);
            k = k + 1;
        }
        out
    }

    /// Whether one more connection may be opened when `current` are open.
    pub fn can_add_connection(&self, current: usize) -> (r: bool)
        ensures
            r == (current < self.max_connections),
    {
        current < self.max_connections
    }

    /// The peer to ask for the needed pieces: the first eligible peer of
    /// highest score, or nothing while no peer is eligible.
    pub fn get_best_peer(&self, needed_pieces: &Vec<usize>) -> (r: Option<Endpoint>)
        requires
            needed_pieces@.len() <= 0x10000000,
        ensures
            match r {
                Some(addr) => exists|j: int|
                    0 <= j < self.peers@.len() && #[trigger] self.peers@[j].addr == addr
                        && spec_eligible(&self.peers@[j]) && (forall|i: int|
                        0 <= i < self.peers@.len() && spec_eligible(&self.peers@[i])
                            ==> #[trigger] spec_score(&self.peers@[i], needed_pieces@)
                        <= spec_score(&self.peers@[j], needed_pieces@)) && (forall|i: int|
                        0 <= i < self.peers@.len() && spec_eligible(&self.peers@[i])
                            && #[trigger] spec_score(&self.peers@[i], needed_pieces@)
                            == spec_score(&self.peers@[j], needed_pieces@) ==> spec_endpoint_le(
                            addr,
                            self.peers@[i].addr,
                        )),
                None => forall|i: int|
                    0 <= i < self.peers@.len() ==> !(#[trigger] spec_eligible(&self.peers@[i])),
            },
    {
        let mut best: Option<Endpoint> = None;
        let ghost mut best_index: int = -1;
        let mut best_score: i64 = 0;
        let mut k: usize = 0;
        while k < self.peers.len()
            invariant
                k <= self.peers@.len(),
                needed_pieces@.len() <= 0x10000000,
                match best {
                    Some(addr) => 0 <= best_index < k && self.peers@[best_index].addr == addr
                        && spec_eligible(&self.peers@[best_index]) && best_score == spec_score(
                        &self.peers@[best_index],
                        needed_pieces@,
                    ) && (forall|i: int|
                        0 <= i < k && spec_eligible(&self.peers@[i]) ==> #[trigger] spec_score(
                            &self.peers@[i],
                            needed_pieces@,
                        ) <= best_score) && (forall|i: int|
                        0 <= i < k && spec_eligible(&self.peers@[i]) && #[trigger] spec_score(
                            &self.peers@[i],
                            needed_pieces@,
                        ) == best_score ==> spec_endpoint_le(addr, self.peers@[i].addr)),
                    None => forall|i: int|
                        0 <= i < k ==> !(#[trigger] spec_eligible(&self.peers@[i])),
                },
            decreases self.peers@.len() - k,
        {
            let peer = &self.peers[k];
            if peer.state.is_connected() && !peer.peer_choking {
                let score = score_peer(peer, needed_pieces);
                let replace = match best {
                    Some(current) => score > best_score || (score == best_score && endpoint_lt(
                        peer.addr,
                        current,
                    )),
                    None => true,
                };
                if replace {
                    best = Some(peer.addr);
                    best_score = score;
                    proof {
                        best_index = k as int;
                    }
                }
            }
            k = k + 1;
        }
        best
    }
}

/// Computes the score of one peer for a set of needed pieces.
pub fn score_peer(peer: &Peer, needed_pieces: &Vec<usize>) -> (r: i64)
    requires
        needed_pieces@.len() <= 0x10000000,
    ensures
        r == spec_score(peer, needed_pieces@),
{
    let mut held: i64 = 0;
    let mut k: usize = 0;
    while k < needed_pieces.len()
        invariant
            k <= needed_pieces@.len(),
            needed_pieces@.len() <= 0x10000000,
            held == spec_needed_held(peer, needed_pieces@, k as int),
            0 <= held <= k,
        decreases needed_pieces@.len() - k,
    {
        if peer.has_piece(needed_pieces[k]) {
            held = held + 1;
        }
        k = k + 1;
    }
    let mut score: i64 = 10 * held;
    if !peer.peer_choking {
        score = score + 5;
    }
    score = score + (peer.pieces_downloaded as i64);
    score = score - ((peer.pieces_uploaded / 2) as i64);
    score
}

/// Compares two endpoints.
fn endpoint_eq(a: Endpoint, b: Endpoint) -> (r: bool)
    ensures
        r == (a == b),
{
    a.ip == b.ip && a.port == b.port
}

/// An address found in a table stays found when the table grows by one
/// entry, and a freshly appended address is found.
proof fn lemma_find_peer_push(before: Seq<Peer>, after: Seq<Peer>, addr: Endpoint)
    requires
        after == before || (after.len() == before.len() + 1 && after.subrange(
            0,
            before.len() as int,
        ) == before),
    ensures
        spec_find_peer(before, addr, 0) >= 0 ==> spec_find_peer(after, addr, 0) >= 0,
        after.len() == before.len() + 1 && after.last().addr == addr ==> spec_find_peer(
            after,
            addr,
            0,
        ) >= 0,
{
    if after == before {
    } else {
        lemma_find_peer_push_from(before, after, addr, 0);
    }
}

/// The inductive core of `lemma_find_peer_push`.
proof fn lemma_find_peer_push_from(before: Seq<Peer>, after: Seq<Peer>, addr: Endpoint, from: int)
    requires
        after.len() == before.len() + 1,
        after.subrange(0, before.len() as int) == before,
        0 <= from <= before.len(),
    ensures
        spec_find_peer(before, addr, from) >= 0 ==> spec_find_peer(after, addr, from) >= 0,
        after.last().addr == addr ==> spec_find_peer(after, addr, from) >= 0,
    decreases before.len() - from,
{
    assert(after[from] == before[from] || from == before.len());
    if from < before.len() {
        assert(after[from] == after.subrange(0, before.len() as int)[from]);
        if after[from].addr == addr {
        } else {
            lemma_find_peer_push_from(before, after, addr, from + 1);
        }
    } else {
        assert(spec_find_peer(after, addr, from) == if after[from].addr == addr {
            from
        } else {
            spec_find_peer(after, addr, from + 1)
        });
    }
}

} // verus!
