//! The 68-byte BitTorrent handshake: protocol string, extension bits,
//! info-hash and peer id.

use vstd::prelude::*;
use crate::error::TorrentError;

verus! {

/// Length of the protocol identifier string.
pub const PROTOCOL_LENGTH: u8 = 19;

/// The 19 bytes of `"BitTorrent protocol"`.
pub open spec fn spec_protocol_id() -> Seq<u8> {
    seq![66u8, 105, 116, 84, 111, 114, 114, 101, 110, 116, 32, 112, 114, 111, 116, 111, 99, 111,
        108]
}

/// The protocol identifier bytes, as a vector.
pub fn protocol_id_bytes() -> (r: Vec<u8>)
    ensures
        r@ == spec_protocol_id(),
{
    let mut out: Vec<u8> = Vec::new();
    out.push(66);
    out.push(105);
    out.push(116);
    out.push(84);
    out.push(111);
    out.push(114);
    out.push(114);
    out.push(101);
    out.push(110);
    out.push(116);
    out.push(32);
    out.push(112);
    out.push(114);
    out.push(111);
    out.push(116);
    out.push(111);
    out.push(99);
    out.push(111);
    out.push(108);
    assert(out@ =~= spec_protocol_id());
    out
}

/// The mathematical content of a handshake.
pub struct HandshakeSpec {
    pub protocol_id: Seq<u8>,
    pub extensions: u8,
    pub info_hash: Seq<u8>,
    pub peer_id: Seq<u8>,
}

/// A BitTorrent handshake message.
pub struct Handshake {
    /// Protocol identifier (19 bytes).
    pub protocol_id: Vec<u8>,
    /// Extension bits.
    pub extensions: u8,
    /// Torrent info hash (20 bytes).
    pub info_hash: Vec<u8>,
    /// Our peer id (20 bytes).
    pub peer_id: Vec<u8>,
}

impl View for Handshake {
    type V = HandshakeSpec;

    open spec fn view(&self) -> HandshakeSpec {
        HandshakeSpec {
            protocol_id: self.protocol_id@,
            extensions: self.extensions,
            info_hash: self.info_hash@,
            peer_id: self.peer_id@,
        }
    }
}

/// A handshake whose fields have the lengths the wire format fixes, and the
/// protocol identifier the protocol fixes.
pub open spec fn spec_handshake_wf(h: HandshakeSpec) -> bool {
    h.protocol_id == spec_protocol_id() && h.info_hash.len() == 20 && h.peer_id.len() == 20
}

/// The 68 bytes of a handshake: length byte, protocol string, extension
/// byte, seven reserved zero bytes, info-hash, peer id.
pub open spec fn spec_handshake_bytes(h: HandshakeSpec) -> Seq<u8> {
    seq![19u8] + h.protocol_id + seq![h.extensions] + seq![0u8, 0, 0, 0, 0, 0, 0] + h.info_hash
        + h.peer_id
}

/// The handshake read from `data`, or nothing where `data` does not begin
/// with a well-formed handshake.
pub open spec fn spec_parse_handshake(data: Seq<u8>) -> Option<HandshakeSpec> {
    if data.len() < 68 {
        None
    } else if data[0] != 19 {
        None
    } else if data.subrange(1, 20) != spec_protocol_id() {
        None
    } else {
        Some(
            HandshakeSpec {
                protocol_id: data.subrange(1, 20),
                extensions: data[20],
                info_hash: data.subrange(28, 48),
                peer_id: data.subrange(48, 68),
            },
        )
    }
}

impl Handshake {
    /// A handshake for `info_hash` under our `peer_id`, with no extension
    /// bits set.
    pub fn new(info_hash: Vec<u8>, peer_id: Vec<u8>) -> (r: Handshake)
        requires
            info_hash@.len() == 20,
            peer_id@.len() == 20,
        ensures
            r@ == (HandshakeSpec {
                protocol_id: spec_protocol_id(),
                extensions: 0u8,
                info_hash: info_hash@,
                peer_id: peer_id@,
            }),
            spec_handshake_wf(r@),
    {
        Handshake { protocol_id: protocol_id_bytes(), extensions: 0, info_hash, peer_id }
    }

    /// A handshake with the given extension bits.
    pub fn with_extensions(info_hash: Vec<u8>, peer_id: Vec<u8>, extensions: u8) -> (r: Handshake)
        requires
            info_hash@.len() == 20,
            peer_id@.len() == 20,
        ensures
            r@ == (HandshakeSpec {
                protocol_id: spec_protocol_id(),
                extensions: extensions,
                info_hash: info_hash@,
                peer_id: peer_id@,
            }),
            spec_handshake_wf(r@),
    {
        Handshake { protocol_id: protocol_id_bytes(), extensions, info_hash, peer_id }
    }

    /// A fresh 20-byte peer id: the fixed `-RU0000-` prefix followed by
    /// twelve random bytes.
    pub fn generate_peer_id() -> (r: Vec<u8>)
        ensures
            r@.len() == 20,
            r@.subrange(0, 8) == seq![45u8, 82, 85, 48, 48, 48, 48, 45],
    {
        let mut id: Vec<u8> = Vec::new();
        id.push(45);
        id.push(82);
        id.push(85);
        id.push(48);
        id.push(48);
        id.push(48);
        id.push(48);
        id.push(45);
        let ghost prefix = id@;
        let mut k: usize = 0;
        while k < 12
            invariant
                k <= 12,
                id@.len() == 8 + k,
                id@.subrange(0, 8) == prefix,
                prefix =~= seq![45u8, 82, 85, 48, 48, 48, 48, 45],
            decreases 12 - k,
        {
            id.push(rand::random::<u8>());
            k = k + 1;
            assert(id@.subrange(0, 8) =~= prefix);
        }
        id
    }

    /// Serialises the handshake to its 68 wire bytes.
    pub fn serialize(&self) -> (r: Vec<u8>)
        requires
            spec_handshake_wf(self@),
        ensures
            r@ == spec_handshake_bytes(self@),
            r@.len() == 68,
    {
        let mut out: Vec<u8> = Vec::new();
        out.push(PROTOCOL_LENGTH);
        let mut k: usize = 0;
        while k < self.protocol_id.len()
            invariant
                k <= self.protocol_id@.len(),
                out@ == seq![19u8] + self.protocol_id@.subrange(0, k as int),
            decreases self.protocol_id@.len() - k,
        {
            out.push(self.protocol_id[k]);
            k = k + 1;
            assert(self.protocol_id@.subrange(0, k as int) =~= self.protocol_id@.subrange(
                0,
                k - 1,
            ) + seq![self.protocol_id@[k - 1]]);
        }
        assert(self.protocol_id@.subrange(0, self.protocol_id@.len() as int)
            == self.protocol_id@);
        out.push(self.extensions);
        let mut z: usize = 0;
        while z < 7
            invariant
                z <= 7,
                out@ == seq![19u8] + self.protocol_id@ + seq![self.extensions] + Seq::new(
                    z as nat,
                    |i: int| 0u8,
                ),
            decreases 7 - z,
        {
            out.push(0);
            z = z + 1;
            assert(Seq::new(z as nat, |i: int| 0u8) =~= Seq::new((z - 1) as nat, |i: int| 0u8)
                + seq![0u8]);
        }
        assert(Seq::new(7nat, |i: int| 0u8) =~= seq![0u8, 0, 0, 0, 0, 0, 0]);
        let mut k: usize = 0;
        while k < self.info_hash.len()
            invariant
                k <= self.info_hash@.len(),
                out@ == seq![19u8] + self.protocol_id@ + seq![self.extensions] + seq![0u8, 0, 0, 0,
                    0, 0, 0] + self.info_hash@.subrange(0, k as int),
            decreases self.info_hash@.len() - k,
        {
            out.push(self.info_hash[k]);
            k = k + 1;
            assert(self.info_hash@.subrange(0, k as int) =~= self.info_hash@.subrange(0, k - 1)
                + seq![self.info_hash@[k - 1]]);
            assert(out@ =~= seq![19u8] + self.protocol_id@ + seq![self.extensions] + seq![0u8, 0,
                0, 0, 0, 0, 0] + self.info_hash@.subrange(0, k as int));
        }
        assert(self.info_hash@.subrange(0, self.info_hash@.len() as int) == self.info_hash@);
        let mut k: usize = 0;
        while k < self.peer_id.len()
            invariant
                k <= self.peer_id@.len(),
                out@ == seq![19u8] + self.protocol_id@ + seq![self.extensions] + seq![0u8, 0, 0, 0,
                    0, 0, 0] + self.info_hash@ + self.peer_id@.subrange(0, k as int),
            decreases self.peer_id@.len() - k,
        {
            out.push(self.peer_id[k]);
            k = k + 1;
            assert(self.peer_id@.subrange(0, k as int) =~= self.peer_id@.subrange(0, k - 1)
                + seq![self.peer_id@[k - 1]]);
            assert(out@ =~= seq![19u8] + self.protocol_id@ + seq![self.extensions] + seq![0u8, 0,
                0, 0, 0, 0, 0] + self.info_hash@ + self.peer_id@.subrange(0, k as int));
        }
        assert(self.peer_id@.subrange(0, self.peer_id@.len() as int) == self.peer_id@);
        assert(out@ =~= spec_handshake_bytes(self@));
        out
    }

    /// Reads a handshake from `data`, refusing short input, a wrong length
    /// byte and a wrong protocol string.
    pub fn deserialize(data: &[u8]) -> (r: Result<Handshake, TorrentError>)
        ensures
            match r {
                Ok(h) => spec_parse_handshake(data@) == Some(h@),
                Err(e) => spec_parse_handshake(data@) is None && e is ProtocolError,
            },
    {
        if data.len() < 68 {
            return Err(
                TorrentError::protocol_error_with_source(
                    "Handshake data too short",
                    "fewer than 68 bytes",
                ),
            );
        }
        if data[0] != PROTOCOL_LENGTH {
            return Err(TorrentError::protocol_error("Invalid protocol length"));
        }
        let protocol_id = super::wire::copy_range(data, 1, 20);
        let expected = protocol_id_bytes();
        if !super::wire::bytes_eq(protocol_id.as_slice(), expected.as_slice()) {
            return Err(TorrentError::protocol_error("Invalid protocol string"));
        }
        let extensions = data[20];
        let info_hash = super::wire::copy_range(data, 28, 48);
        let peer_id = super::wire::copy_range(data, 48, 68);
        Ok(Handshake { protocol_id, extensions, info_hash, peer_id })
    }

    /// True exactly when the protocol string is right and the info-hash is
    /// the expected one.
    pub fn validate(&self, expected_info_hash: &[u8]) -> (r: bool)
        ensures
            r == (self@.protocol_id == spec_protocol_id() && self@.info_hash
                == expected_info_hash@),
    {
        let expected = protocol_id_bytes();
        if !super::wire::bytes_eq(self.protocol_id.as_slice(), expected.as_slice()) {
            return false;
        }
        super::wire::bytes_eq(self.info_hash.as_slice(), expected_info_hash)
    }
}

/// Reading back a serialised handshake yields the handshake: the round trip
/// law of the handshake codec.
pub proof fn lemma_handshake_round_trip(h: HandshakeSpec)
    requires
        spec_handshake_wf(h),
    ensures
        spec_parse_handshake(spec_handshake_bytes(h)) == Some(h),
{
    let b = spec_handshake_bytes(h);
    assert(b.len() == 68);
    assert(b[0] == 19);
    assert(b.subrange(1, 20) =~= h.protocol_id);
    assert(b[20] == h.extensions);
    assert(b.subrange(28, 48) =~= h.info_hash);
    assert(b.subrange(48, 68) =~= h.peer_id);
}

} // verus!
