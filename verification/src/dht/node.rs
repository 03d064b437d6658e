//! DHT node identities and endpoints.

use vstd::prelude::*;
use crate::util;

verus! {

/// An IPv4 endpoint: address and port, both as plain integers.
#[derive(Debug, Clone, Copy, PartialEq, Eq, Hash, Structural)]
pub struct Endpoint {
    /// The address, as the big-endian number of its four octets.
    pub ip: u32,
    /// The UDP or TCP port.
    pub port: u16,
}

impl Endpoint {
    /// The endpoint `a.b.c.d:port`.
    pub fn from_octets(a: u8, b: u8, c: u8, d: u8, port: u16) -> (r: Endpoint)
        ensures
            r.ip == spec_ip_of(a, b, c, d),
            r.port == port,
    {
        Endpoint {
            ip: ((a as u32) << 24) | ((b as u32) << 16) | ((c as u32) << 8) | (d as u32),
            port,
        }
    }
}

/// The address number of four octets.
pub open spec fn spec_ip_of(a: u8, b: u8, c: u8, d: u8) -> u32 {
    (((a as u32) << 24) | ((b as u32) << 16) | ((c as u32) << 8) | (d as u32)) as u32
}

/// A DHT node identifier: 20 bytes, 160 bits.
#[derive(Debug, Clone, PartialEq, Eq, Hash)]
pub struct NodeId(pub Vec<u8>);

/// An identifier of the right width.
pub open spec fn spec_node_id_wf(id: &NodeId) -> bool {
    id.0@.len() == 20
}

impl NodeId {
    /// An identifier from its 20 bytes.
    pub fn new(id: Vec<u8>) -> (r: NodeId)
        requires
            id@.len() == 20,
        ensures
            r.0@ == id@,
            spec_node_id_wf(&r),
    {
        NodeId(id)
    }

    /// A fresh random identifier, drawn at startup and not tied to any
    /// address.
    pub fn random() -> (r: NodeId)
        ensures
            spec_node_id_wf(&r),
    {
        let mut id: Vec<u8> = Vec::new();
        let mut k: usize = 0;
        while k < 20
            invariant
                k <= 20,
                id@.len() == k,
            decreases 20 - k,
        {
            id.push(rand::random::<u8>());
            k = k + 1;
        }
        NodeId(id)
    }

    /// The identifier's bytes.
    pub fn as_bytes(&self) -> (r: &[u8])
        ensures
            r@ == self.0@,
    {
        self.0.as_slice()
    }

    /// The identifier as a lowercase hex string.
    pub fn to_hex(&self) -> (r: String)
        ensures
            r@ == util::spec_hex_of(self.0@),
    {
        util::hex_encode(self.0.as_slice())
    }

    /// The identifier spelled by forty hex digits, or nothing for any
    /// other input.
    pub fn from_hex(hex_str: &str) -> (r: Option<NodeId>)
        ensures
            match r {
                Some(id) => hex_str@.len() == 40 && id.0@ == util::spec_hex_bytes(hex_str@)
                    && spec_node_id_wf(&id),
                None => hex_str@.len() != 40 || exists|i: int|
                    0 <= i < hex_str@.len() && !util::spec_is_hex_char(#[trigger] hex_str@[i]),
            },
    {
        match util::hex_decode(hex_str) {
            Some(bytes) => {
                if bytes.len() == 20 {
                    proof {
                        assert(hex_str@.len() == 40);
                    }
                    Some(NodeId(bytes))
                } else {
                    proof {
                        assert(hex_str@.len() != 40);
                    }
                    None
                }
            },
            None => None,
        }
    }

    /// A copy of this identifier.
    pub fn duplicate(&self) -> (r: NodeId)
        ensures
            r.0@ == self.0@,
    {
        NodeId(util::copy_slice(self.0.as_slice()))
    }
}

/// The mathematical content of a node.
pub struct NodeSpec {
    pub id: Seq<u8>,
    pub endpoint: Endpoint,
    pub last_seen: u64,
}

/// One known DHT node.
#[derive(Debug, Clone)]
pub struct Node {
    /// Node identifier.
    pub id: NodeId,
    /// Node address.
    pub endpoint: Endpoint,
    /// When the node was last heard from, in milliseconds of the caller's
    /// clock.
    pub last_seen: u64,
}

impl View for Node {
    type V = NodeSpec;

    open spec fn view(&self) -> NodeSpec {
        NodeSpec { id: self.id.0@, endpoint: self.endpoint, last_seen: self.last_seen }
    }
}

/// A node is good while it was heard from within the last 15 minutes.
pub const NODE_GOOD_WINDOW_MS: u64 = 900000;

impl Node {
    /// A node first seen now.
    pub fn new(id: NodeId, endpoint: Endpoint, now: u64) -> (r: Node)
        ensures
            r@ == (NodeSpec { id: id.0@, endpoint: endpoint, last_seen: now }),
    {
        Node { id, endpoint, last_seen: now }
    }

    /// A node with a random identifier, first seen now.
    pub fn with_random_id(endpoint: Endpoint, now: u64) -> (r: Node)
        ensures
            r@.endpoint == endpoint,
            r@.last_seen == now,
            r@.id.len() == 20,
    {
        Node { id: NodeId::random(), endpoint, last_seen: now }
    }

    /// The XOR distance to another identifier, byte by byte.
    pub fn distance_to(&self, other: &NodeId) -> (r: Vec<u8>)
        requires
            spec_node_id_wf(&self.id),
            spec_node_id_wf(other),
        ensures
            r@.len() == 20,
            forall|i: int| 0 <= i < 20 ==> r@[i] == (self.id.0@[i] ^ other.0@[i]),
    {
        let mut distance: Vec<u8> = Vec::new();
        let mut k: usize = 0;
        while k < 20
            invariant
                k <= 20,
                distance@.len() == k,
                self.id.0@.len() == 20,
                other.0@.len() == 20,
                forall|i: int| 0 <= i < k ==> distance@[i] == (self.id.0@[i] ^ other.0@[i]),
            decreases 20 - k,
        {
            distance.push(self.id.0[k] ^ other.0[k]);
            k = k + 1;
        }
        distance
    }

    /// Whether the node was heard from within the last 15 minutes.
    pub fn is_good(&self, now: u64) -> (r: bool)
        ensures
            r == (spec_elapsed(self.last_seen, now) < NODE_GOOD_WINDOW_MS),
    {
        elapsed_ms(self.last_seen, now) < NODE_GOOD_WINDOW_MS
    }

    /// Records that the node was heard from now.
    pub fn update_last_seen(&mut self, now: u64)
        ensures
            final(self).id == old(self).id,
            final(self).endpoint == old(self).endpoint,
            final(self).last_seen == now,
    {
        self.last_seen = now;
    }

    /// Milliseconds since the node was last heard from; a clock that moved
    /// backwards reads as zero.
    pub fn time_since_seen(&self, now: u64) -> (r: u64)
        ensures
            r == spec_elapsed(self.last_seen, now),
    {
        elapsed_ms(self.last_seen, now)
    }
}

/// Elapsed milliseconds from `then` to `now`, clamped at zero.
pub open spec fn spec_elapsed(then: u64, now: u64) -> u64 {
    if now >= then {
        (now - then) as u64
    } else {
        0
    }
}

/// Reads the elapsed time.
pub fn elapsed_ms(then: u64, now: u64) -> (r: u64)
    ensures
        r == spec_elapsed(then, now),
{
    if now >= then {
        now - then
    } else {
        0
    }
}

} // verus!
