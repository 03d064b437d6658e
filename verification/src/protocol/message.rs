//! The framed peer messages: a four-byte big-endian length prefix, then a
//! one-byte id and its payload. Length zero is a keep-alive.

use vstd::prelude::*;
use crate::error::TorrentError;
use super::wire::{
    spec_u16_be, spec_u32_be, spec_u16_from_be, spec_u32_from_be, push_u16_be, push_u32_be,
    read_u16_be, read_u32_be, copy_range, lemma_u16_be_round_trip, lemma_u32_be_round_trip,
};

verus! {

/// The id byte of each non-keep-alive message.
#[derive(Debug, Clone, Copy, PartialEq, Eq, Structural)]
pub enum MessageId {
    Choke,
    Unchoke,
    Interested,
    NotInterested,
    Have,
    Bitfield,
    Request,
    Piece,
    Cancel,
    Port,
}

/// The wire byte of a message id.
pub open spec fn spec_id_byte(id: MessageId) -> u8 {
    match id {
        MessageId::Choke => 0,
        MessageId::Unchoke => 1,
        MessageId::Interested => 2,
        MessageId::NotInterested => 3,
        MessageId::Have => 4,
        MessageId::Bitfield => 5,
        MessageId::Request => 6,
        MessageId::Piece => 7,
        MessageId::Cancel => 8,
        MessageId::Port => 9,
    }
}

impl MessageId {
    /// The wire byte of this id.
    pub fn id_byte(&self) -> (r: u8)
        ensures
            r == spec_id_byte(*self),
    {
        match self {
            MessageId::Choke => 0,
            MessageId::Unchoke => 1,
            MessageId::Interested => 2,
            MessageId::NotInterested => 3,
            MessageId::Have => 4,
            MessageId::Bitfield => 5,
            MessageId::Request => 6,
            MessageId::Piece => 7,
            MessageId::Cancel => 8,
            MessageId::Port => 9,
        }
    }

    /// The id named by a wire byte; bytes 0 through 9 are known, all others
    /// are refused.
    pub fn try_from(value: u8) -> (r: Result<MessageId, TorrentError>)
        ensures
            match r {
                Ok(id) => spec_id_byte(id) == value,
                Err(e) => value > 9 && e is ProtocolError,
            },
    {
        match value {
            0 => Ok(MessageId::Choke),
            1 => Ok(MessageId::Unchoke),
            2 => Ok(MessageId::Interested),
            3 => Ok(MessageId::NotInterested),
            4 => Ok(MessageId::Have),
            5 => Ok(MessageId::Bitfield),
            6 => Ok(MessageId::Request),
            7 => Ok(MessageId::Piece),
            8 => Ok(MessageId::Cancel),
            9 => Ok(MessageId::Port),
            _ => Err(
                TorrentError::protocol_error_with_source("Invalid message ID", "unknown value"),
            ),
        }
    }
}

/// The mathematical content of a peer message.
pub enum MessageSpec {
    KeepAlive,
    Choke,
    Unchoke,
    Interested,
    NotInterested,
    Have { piece_index: u32 },
    Bitfield { bitfield: Seq<u8> },
    Request { index: u32, begin: u32, length: u32 },
    Piece { index: u32, begin: u32, block: Seq<u8> },
    Cancel { index: u32, begin: u32, length: u32 },
    Port { listen_port: u16 },
}

/// A peer wire message.
#[derive(Debug, Clone, PartialEq)]
pub enum Message {
    KeepAlive,
    Choke,
    Unchoke,
    Interested,
    NotInterested,
    Have { piece_index: u32 },
    Bitfield { bitfield: Vec<u8> },
    Request { index: u32, begin: u32, length: u32 },
    Piece { index: u32, begin: u32, block: Vec<u8> },
    Cancel { index: u32, begin: u32, length: u32 },
    Port { listen_port: u16 },
}

impl View for Message {
    type V = MessageSpec;

    open spec fn view(&self) -> MessageSpec {
        match self {
            Message::KeepAlive => MessageSpec::KeepAlive,
            Message::Choke => MessageSpec::Choke,
            Message::Unchoke => MessageSpec::Unchoke,
            Message::Interested => MessageSpec::Interested,
            Message::NotInterested => MessageSpec::NotInterested,
            Message::Have { piece_index } => MessageSpec::Have { piece_index: *piece_index },
            Message::Bitfield { bitfield } => MessageSpec::Bitfield { bitfield: bitfield@ },
            Message::Request { index, begin, length } => MessageSpec::Request {
                index: *index,
                begin: *begin,
                length: *length,
            },
            Message::Piece { index, begin, block } => MessageSpec::Piece {
                index: *index,
                begin: *begin,
                block: block@,
            },
            Message::Cancel { index, begin, length } => MessageSpec::Cancel {
                index: *index,
                begin: *begin,
                length: *length,
            },
            Message::Port { listen_port } => MessageSpec::Port { listen_port: *listen_port },
        }
    }
}

/// The id of a message; a keep-alive has none.
pub open spec fn spec_message_id(m: MessageSpec) -> Option<MessageId> {
    match m {
        MessageSpec::KeepAlive => None,
        MessageSpec::Choke => Some(MessageId::Choke),
        MessageSpec::Unchoke => Some(MessageId::Unchoke),
        MessageSpec::Interested => Some(MessageId::Interested),
        MessageSpec::NotInterested => Some(MessageId::NotInterested),
        MessageSpec::Have { .. } => Some(MessageId::Have),
        MessageSpec::Bitfield { .. } => Some(MessageId::Bitfield),
        MessageSpec::Request { .. } => Some(MessageId::Request),
        MessageSpec::Piece { .. } => Some(MessageId::Piece),
        MessageSpec::Cancel { .. } => Some(MessageId::Cancel),
        MessageSpec::Port { .. } => Some(MessageId::Port),
    }
}

/// The length a message announces in its prefix: the id byte plus the
/// payload, and zero for a keep-alive.
pub open spec fn spec_message_length(m: MessageSpec) -> int {
    match m {
        MessageSpec::KeepAlive => 0int,
        MessageSpec::Choke => 1int,
        MessageSpec::Unchoke => 1int,
        MessageSpec::Interested => 1int,
        MessageSpec::NotInterested => 1int,
        MessageSpec::Have { .. } => 5int,
        MessageSpec::Bitfield { bitfield } => 1int + bitfield.len(),
        MessageSpec::Request { .. } => 13int,
        MessageSpec::Piece { block, .. } => 9int + block.len(),
        MessageSpec::Cancel { .. } => 13int,
        MessageSpec::Port { .. } => 3int,
    }
}

/// A message whose announced length fits the four-byte prefix.
pub open spec fn spec_message_wf(m: MessageSpec) -> bool {
    spec_message_length(m) <= u32::MAX
}

/// The wire bytes of a message, length prefix included.
pub open spec fn spec_message_bytes(m: MessageSpec) -> Seq<u8> {
    let prefix = spec_u32_be(spec_message_length(m) as u32);
    match m {
        MessageSpec::KeepAlive => prefix,
        MessageSpec::Choke => prefix + seq![0u8],
        MessageSpec::Unchoke => prefix + seq![1u8],
        MessageSpec::Interested => prefix + seq![2u8],
        MessageSpec::NotInterested => prefix + seq![3u8],
        MessageSpec::Have { piece_index } => prefix + seq![4u8] + spec_u32_be(piece_index),
        MessageSpec::Bitfield { bitfield } => prefix + seq![5u8] + bitfield,
        MessageSpec::Request { index, begin, length } => prefix + seq![6u8] + spec_u32_be(index)
            + spec_u32_be(begin) + spec_u32_be(length),
        MessageSpec::Piece { index, begin, block } => prefix + seq![7u8] + spec_u32_be(index)
            + spec_u32_be(begin) + block,
        MessageSpec::Cancel { index, begin, length } => prefix + seq![8u8] + spec_u32_be(index)
            + spec_u32_be(begin) + spec_u32_be(length),
        MessageSpec::Port { listen_port } => prefix + seq![9u8] + spec_u16_be(listen_port),
    }
}

/// The message read from `data`, or nothing where `data` is not a
/// well-formed message. Bytes beyond a fixed-size payload are ignored, as a
/// stream reader that framed by the length prefix never presents them.
pub open spec fn spec_parse_message(data: Seq<u8>) -> Option<MessageSpec> {
    if data.len() < 4 {
        None
    } else if spec_u32_from_be(data.subrange(0, 4)) == 0 {
        Some(MessageSpec::KeepAlive)
    } else if data.len() < 5 {
        None
    } else {
        let id = data[4];
        let rem = data.len() - 5;
        if id == 0 {
            Some(MessageSpec::Choke)
        } else if id == 1 {
            Some(MessageSpec::Unchoke)
        } else if id == 2 {
            Some(MessageSpec::Interested)
        } else if id == 3 {
            Some(MessageSpec::NotInterested)
        } else if id == 4 {
            if rem >= 4 {
                Some(MessageSpec::Have { piece_index: spec_u32_from_be(data.subrange(5, 9)) })
            } else {
                None
            }
        } else if id == 5 {
            Some(MessageSpec::Bitfield { bitfield: data.subrange(5, data.len() as int) })
        } else if id == 6 {
            if rem >= 12 {
                Some(
                    MessageSpec::Request {
                        index: spec_u32_from_be(data.subrange(5, 9)),
                        begin: spec_u32_from_be(data.subrange(9, 13)),
                        length: spec_u32_from_be(data.subrange(13, 17)),
                    },
                )
            } else {
                None
            }
        } else if id == 7 {
            if rem >= 8 {
                Some(
                    MessageSpec::Piece {
                        index: spec_u32_from_be(data.subrange(5, 9)),
                        begin: spec_u32_from_be(data.subrange(9, 13)),
                        block: data.subrange(13, data.len() as int),
                    },
                )
            } else {
                None
            }
        } else if id == 8 {
            if rem >= 12 {
                Some(
                    MessageSpec::Cancel {
                        index: spec_u32_from_be(data.subrange(5, 9)),
                        begin: spec_u32_from_be(data.subrange(9, 13)),
                        length: spec_u32_from_be(data.subrange(13, 17)),
                    },
                )
            } else {
                None
            }
        } else if id == 9 {
            if rem >= 2 {
                Some(MessageSpec::Port { listen_port: spec_u16_from_be(data.subrange(5, 7)) })
            } else {
                None
            }
        } else {
            None
        }
    }
}

impl Message {
    /// The message id, or nothing for a keep-alive.
    pub fn message_id(&self) -> (r: Option<MessageId>)
        ensures
            r == spec_message_id(self@),
    {
        match self {
            Message::KeepAlive => None,
            Message::Choke => Some(MessageId::Choke),
            Message::Unchoke => Some(MessageId::Unchoke),
            Message::Interested => Some(MessageId::Interested),
            Message::NotInterested => Some(MessageId::NotInterested),
            Message::Have { .. } => Some(MessageId::Have),
            Message::Bitfield { .. } => Some(MessageId::Bitfield),
            Message::Request { .. } => Some(MessageId::Request),
            Message::Piece { .. } => Some(MessageId::Piece),
            Message::Cancel { .. } => Some(MessageId::Cancel),
            Message::Port { .. } => Some(MessageId::Port),
        }
    }

    /// The length this message announces in its prefix.
    pub fn length(&self) -> (r: u32)
        requires
            spec_message_wf(self@),
        ensures
            r == spec_message_length(self@),
    {
        match self {
            Message::KeepAlive => 0,
            Message::Choke => 1,
            Message::Unchoke => 1,
            Message::Interested => 1,
            Message::NotInterested => 1,
            Message::Have { .. } => 5,
            Message::Bitfield { bitfield } => 1 + bitfield.len() as u32,
            Message::Request { .. } => 13,
            Message::Piece { block, .. } => 9 + block.len() as u32,
            Message::Cancel { .. } => 13,
            Message::Port { .. } => 3,
        }
    }

    /// The block size carried, for a piece message only.
    pub fn block_len(&self) -> (r: Option<usize>)
        ensures
            match self@ {
                MessageSpec::Piece { block, .. } => r == Some(block.len() as usize),
                _ => r is None,
            },
    {
        match self {
            Message::Piece { block, .. } => Some(block.len()),
            _ => None,
        }
    }

    /// Serialises the message, length prefix included.
    pub fn serialize(&self) -> (r: Vec<u8>)
        requires
            spec_message_wf(self@),
        ensures
            r@ == spec_message_bytes(self@),
    {
        let mut out: Vec<u8> = Vec::new();
        push_u32_be(&mut out, self.length());
        match self {
            Message::KeepAlive => {},
            Message::Choke => {
                out.push(0);
            },
            Message::Unchoke => {
                out.push(1);
            },
            Message::Interested => {
                out.push(2);
            },
            Message::NotInterested => {
                out.push(3);
            },
            Message::Have { piece_index } => {
                out.push(4);
                push_u32_be(&mut out, *piece_index);
            },
            Message::Bitfield { bitfield } => {
                out.push(5);
                let mut k: usize = 0;
                while k < bitfield.len()
                    invariant
                        k <= bitfield@.len(),
                        out@ == spec_u32_be(spec_message_length(self@) as u32) + seq![5u8]
                            + bitfield@.subrange(0, k as int),
                        self@ matches MessageSpec::Bitfield { bitfield: bf } && bf == bitfield@,
                    decreases bitfield@.len() - k,
                {
                    out.push(bitfield[k]);
                    k = k + 1;
                    assert(bitfield@.subrange(0, k as int) =~= bitfield@.subrange(0, k - 1)
                        + seq![bitfield@[k - 1]]);
                    assert(out@ =~= spec_u32_be(spec_message_length(self@) as u32) + seq![5u8]
                        + bitfield@.subrange(0, k as int));
                }
                assert(bitfield@.subrange(0, bitfield@.len() as int) == bitfield@);
            },
            Message::Request { index, begin, length } => {
                out.push(6);
                push_u32_be(&mut out, *index);
                push_u32_be(&mut out, *begin);
                push_u32_be(&mut out, *length);
            },
            Message::Piece { index, begin, block } => {
                out.push(7);
                push_u32_be(&mut out, *index);
                push_u32_be(&mut out, *begin);
                let ghost head = spec_u32_be(spec_message_length(self@) as u32) + seq![7u8]
                    + spec_u32_be(*index) + spec_u32_be(*begin);
                assert(out@ =~= head);
                let mut k: usize = 0;
                while k < block.len()
                    invariant
                        k <= block@.len(),
                        out@ == head + block@.subrange(0, k as int),
                        self@ matches MessageSpec::Piece { block: b, .. } && b == block@,
                    decreases block@.len() - k,
                {
                    out.push(block[k]);
                    k = k + 1;
                    assert(block@.subrange(0, k as int) =~= block@.subrange(0, k - 1) + seq![
                        block@[k - 1],
                    ]);
                    assert(out@ =~= head + block@.subrange(0, k as int));
                }
                assert(block@.subrange(0, block@.len() as int) == block@);
            },
            Message::Cancel { index, begin, length } => {
                out.push(8);
                push_u32_be(&mut out, *index);
                push_u32_be(&mut out, *begin);
                push_u32_be(&mut out, *length);
            },
            Message::Port { listen_port } => {
                out.push(9);
                push_u16_be(&mut out, *listen_port);
            },
        }
        assert(out@ =~= spec_message_bytes(self@));
        out
    }

    /// Reads a message from `data`, length prefix included. Unknown ids and
    /// short payloads are refused.
    pub fn deserialize(data: &[u8]) -> (r: Result<Message, TorrentError>)
        ensures
            match r {
                Ok(m) => spec_parse_message(data@) == Some(m@),
                Err(e) => spec_parse_message(data@) is None && e is ProtocolError,
            },
    {
        if data.len() < 4 {
            return Err(TorrentError::protocol_error("Empty message data"));
        }
        let length = read_u32_be(data, 0);
        if length == 0 {
            return Ok(Message::KeepAlive);
        }
        if data.len() < 5 {
            return Err(
                TorrentError::protocol_error_with_source("Message too short", "missing message ID"),
            );
        }
        let id = data[4];
        let rem = data.len() - 5;
        if id == 0 {
            Ok(Message::Choke)
        } else if id == 1 {
            Ok(Message::Unchoke)
        } else if id == 2 {
            Ok(Message::Interested)
        } else if id == 3 {
            Ok(Message::NotInterested)
        } else if id == 4 {
            if rem >= 4 {
                Ok(Message::Have { piece_index: read_u32_be(data, 5) })
            } else {
                Err(
                    TorrentError::protocol_error_with_source(
                        "Have message too short",
                        "fewer than 4 payload bytes",
                    ),
                )
            }
        } else if id == 5 {
            Ok(Message::Bitfield { bitfield: copy_range(data, 5, data.len()) })
        } else if id == 6 {
            if rem >= 12 {
                Ok(
                    Message::Request {
                        index: read_u32_be(data, 5),
                        begin: read_u32_be(data, 9),
                        length: read_u32_be(data, 13),
                    },
                )
            } else {
                Err(
                    TorrentError::protocol_error_with_source(
                        "Request message too short",
                        "fewer than 12 payload bytes",
                    ),
                )
            }
        } else if id == 7 {
            if rem >= 8 {
                Ok(
                    Message::Piece {
                        index: read_u32_be(data, 5),
                        begin: read_u32_be(data, 9),
                        block: copy_range(data, 13, data.len()),
                    },
                )
            } else {
                Err(
                    TorrentError::protocol_error_with_source(
                        "Piece message too short",
                        "fewer than 8 payload bytes",
                    ),
                )
            }
        } else if id == 8 {
            if rem >= 12 {
                Ok(
                    Message::Cancel {
                        index: read_u32_be(data, 5),
                        begin: read_u32_be(data, 9),
                        length: read_u32_be(data, 13),
                    },
                )
            } else {
                Err(
                    TorrentError::protocol_error_with_source(
                        "Cancel message too short",
                        "fewer than 12 payload bytes",
                    ),
                )
            }
        } else if id == 9 {
            if rem >= 2 {
                Ok(Message::Port { listen_port: read_u16_be(data, 5) })
            } else {
                Err(
                    TorrentError::protocol_error_with_source(
                        "Port message too short",
                        "fewer than 2 payload bytes",
                    ),
                )
            }
        } else {
            Err(TorrentError::protocol_error_with_source("Invalid message ID", "unknown value"))
        }
    }
}

/// Reading back a serialised message yields the message: the round trip law
/// of the wire codec.
pub proof fn lemma_message_round_trip(m: MessageSpec)
    requires
        spec_message_wf(m),
    ensures
        spec_parse_message(spec_message_bytes(m)) == Some(m),
{
    let b = spec_message_bytes(m);
    let len = spec_message_length(m) as u32;
    assert(b.subrange(0, 4) =~= spec_u32_be(len));
    lemma_u32_be_round_trip(len);
    match m {
        MessageSpec::KeepAlive => {},
        MessageSpec::Choke => {
            assert(b[4] == 0);
        },
        MessageSpec::Unchoke => {
            assert(b[4] == 1);
        },
        MessageSpec::Interested => {
            assert(b[4] == 2);
        },
        MessageSpec::NotInterested => {
            assert(b[4] == 3);
        },
        MessageSpec::Have { piece_index } => {
            assert(b[4] == 4);
            assert(b.subrange(5, 9) =~= spec_u32_be(piece_index));
            lemma_u32_be_round_trip(piece_index);
        },
        MessageSpec::Bitfield { bitfield } => {
            assert(b[4] == 5);
            assert(b.subrange(5, b.len() as int) =~= bitfield);
        },
        MessageSpec::Request { index, begin, length } => {
            assert(b[4] == 6);
            assert(b.subrange(5, 9) =~= spec_u32_be(index));
            assert(b.subrange(9, 13) =~= spec_u32_be(begin));
            assert(b.subrange(13, 17) =~= spec_u32_be(length));
            lemma_u32_be_round_trip(index);
            lemma_u32_be_round_trip(begin);
            lemma_u32_be_round_trip(length);
        },
        MessageSpec::Piece { index, begin, block } => {
            assert(b[4] == 7);
            assert(b.subrange(5, 9) =~= spec_u32_be(index));
            assert(b.subrange(9, 13) =~= spec_u32_be(begin));
            assert(b.subrange(13, b.len() as int) =~= block);
            lemma_u32_be_round_trip(index);
            lemma_u32_be_round_trip(begin);
        },
        MessageSpec::Cancel { index, begin, length } => {
            assert(b[4] == 8);
            assert(b.subrange(5, 9) =~= spec_u32_be(index));
            assert(b.subrange(9, 13) =~= spec_u32_be(begin));
            assert(b.subrange(13, 17) =~= spec_u32_be(length));
            lemma_u32_be_round_trip(index);
            lemma_u32_be_round_trip(begin);
            lemma_u32_be_round_trip(length);
        },
        MessageSpec::Port { listen_port } => {
            assert(b[4] == 9);
            assert(b.subrange(5, 7) =~= spec_u16_be(listen_port));
            lemma_u16_be_round_trip(listen_port);
        },
    }
}

} // verus!
