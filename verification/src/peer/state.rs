//! Per-peer state: the connection phase, the four choke/interest bits, the
//! peer's bitfield, and its transfer counters.

use vstd::prelude::*;
use crate::bits;
use crate::dht::node::Endpoint;
use crate::util;

verus! {

/// The connection phase of a peer.
#[derive(Debug, Clone, Copy, PartialEq, Eq, Structural)]
pub enum PeerState {
    /// Initial state, no connection.
    Disconnected,
    /// Attempting to connect.
    Connecting,
    /// Connected and ready.
    Connected,
    /// We are choking the peer.
    Choked,
    /// We are not choking the peer.
    Unchoked,
    /// We are interested in the peer.
    Interested,
    /// We are not interested in the peer.
    NotInterested,
}

impl PeerState {
    /// Whether the peer is connected.
    pub fn is_connected(&self) -> (r: bool)
        ensures
            r == (*self == PeerState::Connected),
    {
        match self {
            PeerState::Connected => true,
            _ => false,
        }
    }

    /// Whether data can be sent to the peer.
    pub fn can_send(&self) -> (r: bool)
        ensures
            r == (*self == PeerState::Connected),
    {
        match self {
            PeerState::Connected => true,
            _ => false,
        }
    }

    /// Whether data can be received from the peer.
    pub fn can_receive(&self) -> (r: bool)
        ensures
            r == (*self == PeerState::Connected),
    {
        match self {
            PeerState::Connected => true,
            _ => false,
        }
    }
}

impl Default for PeerState {
    /// A peer starts out disconnected.
    fn default() -> (r: PeerState)
        ensures
            r == PeerState::Disconnected,
    {
        PeerState::Disconnected
    }
}

/// Where a peer endpoint was learned from.
#[derive(Debug, Clone, Copy, PartialEq, Eq, Structural)]
pub enum PeerSource {
    Tracker,
    DHT,
    PEX,
    Manual,
}

/// A known peer endpoint and where it came from.
#[derive(Debug, Clone)]
pub struct PeerInfo {
    /// The peer's address.
    pub addr: Endpoint,
    /// The peer's id, learned only after a handshake.
    pub peer_id: Option<Vec<u8>>,
    /// How the peer was discovered.
    pub source: PeerSource,
}

impl PeerInfo {
    /// A peer known only by address.
    pub fn new(addr: Endpoint, source: PeerSource) -> (r: PeerInfo)
        ensures
            r.addr == addr,
            r.peer_id is None,
            r.source == source,
    {
        PeerInfo { addr, peer_id: None, source }
    }

    /// A peer whose id is already known.
    pub fn with_peer_id(addr: Endpoint, peer_id: Vec<u8>, source: PeerSource) -> (r: PeerInfo)
        ensures
            r.addr == addr,
            r.peer_id matches Some(id) && id@ == peer_id@,
            r.source == source,
    {
        PeerInfo { addr, peer_id: Some(peer_id), source }
    }

    /// The peer id as a hex string, if known.
    pub fn peer_id_hex(&self) -> (r: Option<String>)
        ensures
            match (&r, &self.peer_id) {
                (Some(s), Some(id)) => s@ == util::spec_hex_of(id@),
                (None, None) => true,
                _ => false,
            },
    {
        match &self.peer_id {
            Some(id) => Some(util::hex_encode(id.as_slice())),
            None => None,
        }
    }
}

/// One peer with its connection state and counters.
#[derive(Debug, Clone)]
pub struct Peer {
    /// Peer address.
    pub addr: Endpoint,
    /// Peer identifier, learned after the handshake.
    pub peer_id: Option<Vec<u8>>,
    /// Current connection phase.
    pub state: PeerState,
    /// We are choking them.
    pub am_choking: bool,
    /// We are interested in their pieces.
    pub am_interested: bool,
    /// They are choking us.
    pub peer_choking: bool,
    /// They are interested in our pieces.
    pub peer_interested: bool,
    /// The pieces they have, MSB-first, once a bitfield arrived.
    pub bitfield: Option<Vec<u8>>,
    /// Pieces downloaded from this peer.
    pub pieces_downloaded: u32,
    /// Pieces uploaded to this peer.
    pub pieces_uploaded: u32,
}

impl Peer {
    /// A fresh peer: both sides choked, neither side interested, nothing
    /// known about its pieces.
    pub fn new(addr: Endpoint) -> (r: Peer)
        ensures
            r.addr == addr,
            r.peer_id is None,
            r.state == PeerState::Disconnected,
            r.am_choking == true,
            r.am_interested == false,
            r.peer_choking == true,
            r.peer_interested == false,
            r.bitfield is None,
            r.pieces_downloaded == 0,
            r.pieces_uploaded == 0,
    {
        Peer {
            addr,
            peer_id: None,
            state: PeerState::Disconnected,
            am_choking: true,
            am_interested: false,
            peer_choking: true,
            peer_interested: false,
            bitfield: None,
            pieces_downloaded: 0,
            pieces_uploaded: 0,
        }
    }

    /// A fresh peer whose id is already known.
    pub fn with_peer_id(addr: Endpoint, peer_id: Vec<u8>) -> (r: Peer)
        ensures
            r.addr == addr,
            r.peer_id matches Some(id) && id@ == peer_id@,
            r.state == PeerState::Disconnected,
            r.am_choking && !r.am_interested && r.peer_choking && !r.peer_interested,
            r.bitfield is None,
            r.pieces_downloaded == 0 && r.pieces_uploaded == 0,
    {
        let mut peer = Self::new(addr);
        peer.peer_id = Some(peer_id);
        peer
    }

    /// Replaces what we know of the peer's pieces.
    pub fn update_bitfield(&mut self, bitfield: Vec<u8>)
        ensures
            final(self).bitfield matches Some(bf) && bf@ == bitfield@,
            final(self).addr == old(self).addr,
            final(self).peer_id == old(self).peer_id,
            final(self).state == old(self).state,
            final(self).am_choking == old(self).am_choking,
            final(self).am_interested == old(self).am_interested,
            final(self).peer_choking == old(self).peer_choking,
            final(self).peer_interested == old(self).peer_interested,
            final(self).pieces_downloaded == old(self).pieces_downloaded,
            final(self).pieces_uploaded == old(self).pieces_uploaded,
    {
        self.bitfield = Some(bitfield);
    }

    /// Whether the peer has piece `piece_index`: bit `piece_index` of its
    /// bitfield, MSB-first, and false without a bitfield or beyond it.
    pub fn has_piece(&self, piece_index: usize) -> (r: bool)
        ensures
            r == (self.bitfield matches Some(bf) && piece_index < 8 * bf@.len()
                && bits::spec_bit_at(bf@, piece_index as int)),
    {
        match &self.bitfield {
            Some(bf) => {
                if piece_index / 8 < bf.len() {
                    proof {
                        assert(piece_index < 8 * bf@.len());
                    }
                    bits::get_bit(bf.as_slice(), piece_index)
                } else {
                    proof {
                        assert(piece_index >= 8 * bf@.len());
                    }
                    false
                }
            },
            None => false,
        }
    }

    /// Whether a request may be issued to this peer: only when we are
    /// interested, the peer is not choking us, and the connection is
    /// active.
    pub fn can_request(&self) -> (r: bool)
        ensures
            r == (!self.peer_choking && self.am_interested && self.state == PeerState::Connected),
    {
        !self.peer_choking && self.am_interested && self.state.is_connected()
    }

    /// A snapshot of the peer's state for reporting.
    pub fn stats(&self) -> (r: PeerStats)
        ensures
            r.addr == self.addr,
            (match (&r.peer_id, &self.peer_id) {
                (Some(a), Some(b)) => a@ == b@,
                (None, None) => true,
                _ => false,
            }),
            r.state == self.state,
            r.am_choking == self.am_choking,
            r.am_interested == self.am_interested,
            r.peer_choking == self.peer_choking,
            r.peer_interested == self.peer_interested,
            r.pieces_downloaded == self.pieces_downloaded,
            r.pieces_uploaded == self.pieces_uploaded,
            r.has_bitfield == (self.bitfield is Some),
    {
        PeerStats {
            addr: self.addr,
            peer_id: match &self.peer_id {
                Some(id) => Some(util::copy_slice(id.as_slice())),
                None => None,
            },
            state: self.state,
            am_choking: self.am_choking,
            am_interested: self.am_interested,
            peer_choking: self.peer_choking,
            peer_interested: self.peer_interested,
            pieces_downloaded: self.pieces_downloaded,
            pieces_uploaded: self.pieces_uploaded,
            has_bitfield: self.bitfield.is_some(),
        }
    }

    /// Moves the connection to a new phase.
    pub fn set_state(&mut self, state: PeerState)
        ensures
            final(self).state == state,
            final(self).addr == old(self).addr,
            final(self).peer_id == old(self).peer_id,
            final(self).am_choking == old(self).am_choking,
            final(self).am_interested == old(self).am_interested,
            final(self).peer_choking == old(self).peer_choking,
            final(self).peer_interested == old(self).peer_interested,
            final(self).bitfield == old(self).bitfield,
            final(self).pieces_downloaded == old(self).pieces_downloaded,
            final(self).pieces_uploaded == old(self).pieces_uploaded,
    {
        self.state = state;
    }

    /// Records the peer id learned from its handshake.
    pub fn set_peer_id(&mut self, peer_id: Vec<u8>)
        ensures
            final(self).peer_id matches Some(id) && id@ == peer_id@,
            final(self).addr == old(self).addr,
            final(self).state == old(self).state,
            final(self).bitfield == old(self).bitfield,
            final(self).pieces_downloaded == old(self).pieces_downloaded,
            final(self).pieces_uploaded == old(self).pieces_uploaded,
            final(self).am_choking == old(self).am_choking,
            final(self).am_interested == old(self).am_interested,
            final(self).peer_choking == old(self).peer_choking,
            final(self).peer_interested == old(self).peer_interested,
    {
        self.peer_id = Some(peer_id);
    }

    /// Counts one more piece downloaded from this peer, saturating.
    pub fn increment_downloaded(&mut self)
        ensures
            final(self).pieces_downloaded == (if old(self).pieces_downloaded < u32::MAX {
                (old(self).pieces_downloaded + 1) as u32
            } else {
                u32::MAX
            }),
            final(self).pieces_uploaded == old(self).pieces_uploaded,
            final(self).addr == old(self).addr,
            final(self).state == old(self).state,
            final(self).bitfield == old(self).bitfield,
    {
        if self.pieces_downloaded < u32::MAX {
            self.pieces_downloaded = self.pieces_downloaded + 1;
        }
    }

    /// Counts one more piece uploaded to this peer, saturating.
    pub fn increment_uploaded(&mut self)
        ensures
            final(self).pieces_uploaded == (if old(self).pieces_uploaded < u32::MAX {
                (old(self).pieces_uploaded + 1) as u32
            } else {
                u32::MAX
            }),
            final(self).pieces_downloaded == old(self).pieces_downloaded,
            final(self).addr == old(self).addr,
            final(self).state == old(self).state,
            final(self).bitfield == old(self).bitfield,
    {
        if self.pieces_uploaded < u32::MAX {
            self.pieces_uploaded = self.pieces_uploaded + 1;
        }
    }

    /// How many pieces the peer's bitfield reports, zero without one.
    pub fn piece_count(&self) -> (r: usize)
        requires
            self.bitfield matches Some(bf) ==> bf@.len() <= usize::MAX / 8,
        ensures
            r == (match &self.bitfield {
                Some(bf) => bits::spec_count_set(bf@, 8 * bf@.len() as int),
                None => 0int,
            }),
    {
        match &self.bitfield {
            Some(bf) => {
                let mut count: usize = 0;
                let mut byte_index: usize = 0;
                while byte_index < bf.len()
                    invariant
                        byte_index <= bf@.len(),
                        bf@.len() <= usize::MAX / 8,
                        count == bits::spec_count_set(bf@, 8 * byte_index as int),
                        count <= 8 * byte_index,
                    decreases bf@.len() - byte_index,
                {
                    let mut bit: usize = 0;
                    while bit < 8
                        invariant
                            bit <= 8,
                            byte_index < bf@.len(),
                            bf@.len() <= usize::MAX / 8,
                            count == bits::spec_count_set(bf@, 8 * byte_index + bit as int),
                            count <= 8 * byte_index + bit,
                        decreases 8 - bit,
                    {
                        if bits::get_bit(bf.as_slice(), 8 * byte_index + bit) {
                            count = count + 1;
                        }
                        bit = bit + 1;
                    }
                    byte_index = byte_index + 1;
                }
                count
            },
            None => 0,
        }
    }
}

/// A reporting snapshot of one peer.
#[derive(Debug, Clone)]
pub struct PeerStats {
    /// Peer address.
    pub addr: Endpoint,
    /// Peer identifier, if learned.
    pub peer_id: Option<Vec<u8>>,
    /// Current connection phase.
    pub state: PeerState,
    /// We are choking them.
    pub am_choking: bool,
    /// We are interested.
    pub am_interested: bool,
    /// They are choking us.
    pub peer_choking: bool,
    /// They are interested.
    pub peer_interested: bool,
    /// Pieces downloaded from this peer.
    pub pieces_downloaded: u32,
    /// Pieces uploaded to this peer.
    pub pieces_uploaded: u32,
    /// Whether the peer has sent a bitfield.
    pub has_bitfield: bool,
}

impl PeerStats {
    /// The peer id as a hex string, if known.
    pub fn peer_id_hex(&self) -> (r: Option<String>)
        ensures
            match (&r, &self.peer_id) {
                (Some(s), Some(id)) => s@ == util::spec_hex_of(id@),
                (None, None) => true,
                _ => false,
            },
    {
        match &self.peer_id {
            Some(id) => Some(util::hex_encode(id.as_slice())),
            None => None,
        }
    }
}

} // verus!
