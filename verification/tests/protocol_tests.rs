use torrent_core::protocol::handshake::Handshake;
use torrent_core::protocol::message::{Message, MessageId};
use torrent_core::protocol::wire;

#[test]
fn test_handshake_serialize_deserialize() {
    let info_hash = vec![1u8; 20];
    let peer_id = vec![2u8; 20];
    let handshake = Handshake::new(info_hash, peer_id);

    let serialized = handshake.serialize();
    assert_eq!(serialized.len(), 68);

    let deserialized = Handshake::deserialize(&serialized).unwrap();
    assert_eq!(deserialized.protocol_id, handshake.protocol_id);
    assert_eq!(deserialized.extensions, handshake.extensions);
    assert_eq!(deserialized.info_hash, handshake.info_hash);
    assert_eq!(deserialized.peer_id, handshake.peer_id);
}

#[test]
fn test_generate_peer_id() {
    let peer_id = Handshake::generate_peer_id();
    assert_eq!(&peer_id[0..3], b"-RU");
    assert_eq!(peer_id.len(), 20);
}

#[test]
fn test_handshake_validate() {
    let info_hash = vec![1u8; 20];
    let peer_id = vec![2u8; 20];
    let handshake = Handshake::new(info_hash.clone(), peer_id);

    assert!(handshake.validate(&info_hash));

    let wrong_info_hash = vec![3u8; 20];
    assert!(!handshake.validate(&wrong_info_hash));
}

#[test]
fn test_handshake_with_extensions() {
    let info_hash = vec![1u8; 20];
    let peer_id = vec![2u8; 20];
    let handshake = Handshake::with_extensions(info_hash, peer_id, 0x01);

    assert_eq!(handshake.extensions, 0x01);
}

#[test]
fn test_handshake_rejected_on_wrong_hash() {
    // Receive 68 bytes whose info-hash field is all ones while all twos
    // were expected: validation fails and the caller records a protocol
    // error and closes.
    let sent = Handshake::new(vec![1u8; 20], vec![9u8; 20]).serialize();
    let received = Handshake::deserialize(&sent).unwrap();
    let expected = vec![2u8; 20];
    assert!(!received.validate(&expected));
    let err = torrent_core::error::TorrentError::protocol_error("info hash mismatch");
    assert!(err.describe().contains("Protocol error"));
}

#[test]
fn test_message_serialize_deserialize_choke() {
    let message = Message::Choke;
    let serialized = message.serialize();
    let deserialized = Message::deserialize(&serialized).unwrap();
    assert_eq!(message.message_id(), deserialized.message_id());
}

#[test]
fn test_message_serialize_deserialize_keepalive() {
    let message = Message::KeepAlive;
    let serialized = message.serialize();
    assert_eq!(serialized, vec![0, 0, 0, 0]);
    let deserialized = Message::deserialize(&serialized).unwrap();
    assert_eq!(message.message_id(), deserialized.message_id());
}

#[test]
fn test_message_serialize_deserialize_have() {
    let message = Message::Have { piece_index: 42 };
    let serialized = message.serialize();
    let deserialized = Message::deserialize(&serialized).unwrap();
    match deserialized {
        Message::Have { piece_index } => assert_eq!(piece_index, 42),
        _ => panic!("Wrong message type"),
    }
}

#[test]
fn test_message_serialize_deserialize_request() {
    let message = Message::Request { index: 1, begin: 2, length: 3 };
    let serialized = message.serialize();
    let deserialized = Message::deserialize(&serialized).unwrap();
    match deserialized {
        Message::Request { index, begin, length } => {
            assert_eq!(index, 1);
            assert_eq!(begin, 2);
            assert_eq!(length, 3);
        }
        _ => panic!("Wrong message type"),
    }
}

#[test]
fn test_message_serialize_deserialize_piece() {
    let block = vec![1, 2, 3, 4, 5];
    let message = Message::Piece { index: 10, begin: 0, block: block.clone() };
    let serialized = message.serialize();
    let deserialized = Message::deserialize(&serialized).unwrap();
    match deserialized {
        Message::Piece { index, begin, block: got } => {
            assert_eq!(index, 10);
            assert_eq!(begin, 0);
            assert_eq!(got, block);
        }
        _ => panic!("Wrong message type"),
    }
}

#[test]
fn test_message_serialize_deserialize_port() {
    let message = Message::Port { listen_port: 6881 };
    let serialized = message.serialize();
    let deserialized = Message::deserialize(&serialized).unwrap();
    match deserialized {
        Message::Port { listen_port } => assert_eq!(listen_port, 6881),
        _ => panic!("Wrong message type"),
    }
}

#[test]
fn test_message_length() {
    assert_eq!(Message::KeepAlive.length(), 0);
    assert_eq!(Message::Choke.length(), 1);
    assert_eq!(Message::Have { piece_index: 0 }.length(), 5);
    assert_eq!(Message::Request { index: 0, begin: 0, length: 0 }.length(), 13);
    assert_eq!(Message::Piece { index: 0, begin: 0, block: vec![1, 2, 3] }.length(), 12);
    assert_eq!(Message::Port { listen_port: 0 }.length(), 3);
}

#[test]
fn test_message_id() {
    assert_eq!(Message::Choke.message_id(), Some(MessageId::Choke));
    assert_eq!(Message::Unchoke.message_id(), Some(MessageId::Unchoke));
    assert_eq!(Message::Interested.message_id(), Some(MessageId::Interested));
    assert_eq!(Message::NotInterested.message_id(), Some(MessageId::NotInterested));
    assert_eq!(Message::Have { piece_index: 0 }.message_id(), Some(MessageId::Have));
    assert_eq!(Message::Bitfield { bitfield: vec![] }.message_id(), Some(MessageId::Bitfield));
    assert_eq!(
        Message::Request { index: 0, begin: 0, length: 0 }.message_id(),
        Some(MessageId::Request)
    );
    assert_eq!(
        Message::Piece { index: 0, begin: 0, block: vec![] }.message_id(),
        Some(MessageId::Piece)
    );
    assert_eq!(
        Message::Cancel { index: 0, begin: 0, length: 0 }.message_id(),
        Some(MessageId::Cancel)
    );
    assert_eq!(Message::Port { listen_port: 0 }.message_id(), Some(MessageId::Port));
    assert_eq!(Message::KeepAlive.message_id(), None);
}

#[test]
fn test_message_id_from_u8() {
    assert_eq!(MessageId::try_from(0).unwrap(), MessageId::Choke);
    assert_eq!(MessageId::try_from(1).unwrap(), MessageId::Unchoke);
    assert_eq!(MessageId::try_from(9).unwrap(), MessageId::Port);
    assert!(MessageId::try_from(10).is_err());
}

#[test]
fn test_message_bitfield_round_trip() {
    let message = Message::Bitfield { bitfield: vec![0b10100000, 0b00000001] };
    let serialized = message.serialize();
    let deserialized = Message::deserialize(&serialized).unwrap();
    match deserialized {
        Message::Bitfield { bitfield } => assert_eq!(bitfield, vec![0b10100000, 0b00000001]),
        _ => panic!("Wrong message type"),
    }
}

#[test]
fn test_message_cancel_round_trip() {
    let message = Message::Cancel { index: 4, begin: 16384, length: 16384 };
    let serialized = message.serialize();
    let deserialized = Message::deserialize(&serialized).unwrap();
    match deserialized {
        Message::Cancel { index, begin, length } => {
            assert_eq!((index, begin, length), (4, 16384, 16384));
        }
        _ => panic!("Wrong message type"),
    }
}

#[test]
fn test_write_read_message() {
    let mut buf: Vec<u8> = Vec::new();
    let message = b"hello";
    wire::write_message(&mut buf, message);

    let result = wire::read_message(&mut buf).unwrap();
    assert_eq!(result, message);
}

#[test]
fn test_read_message_incomplete() {
    // A length prefix announcing ten bytes with only five present: the
    // frame is incomplete and the buffer stays untouched.
    let mut buf: Vec<u8> = vec![0, 0, 0, 10];
    buf.extend_from_slice(b"hello");

    let result = wire::read_message(&mut buf);
    assert!(result.is_none());
    assert_eq!(buf.len(), 9);
}

#[test]
fn test_read_message_empty() {
    let mut buf: Vec<u8> = Vec::new();
    let result = wire::read_message(&mut buf);
    assert!(result.is_none());
}

#[test]
fn test_write_read_empty_message() {
    let mut buf: Vec<u8> = Vec::new();
    let message = b"";
    wire::write_message(&mut buf, message);

    let result = wire::read_message(&mut buf).unwrap();
    assert_eq!(result, message);
}
