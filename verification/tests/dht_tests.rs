use torrent_core::dht::message::{
    generate_transaction_id, parse_compact_nodes, parse_compact_peers, serialize_compact_nodes,
    serialize_compact_peers, DHTMessage, QueryType, Transaction, TransactionTable,
    TRANSACTION_TIMEOUT_MS,
};
use torrent_core::bencode::{BencodeValue, DictEntry};
use torrent_core::dht::node::{Endpoint, Node, NodeId};
use torrent_core::dht::routing::{KBucket, RoutingTable, K};

#[test]
fn test_node_id_new() {
    let id_bytes = vec![1u8; 20];
    let node_id = NodeId::new(id_bytes.clone());
    assert_eq!(node_id.0, id_bytes);
}

#[test]
fn test_node_id_random() {
    let node_id1 = NodeId::random();
    let node_id2 = NodeId::random();
    assert_ne!(node_id1, node_id2);
}

#[test]
fn test_node_id_hex() {
    let node_id = NodeId::new(vec![0xABu8; 20]);
    let hex_str = node_id.to_hex();
    assert_eq!(hex_str.len(), 40);
    assert!(hex_str.chars().all(|c| c.is_ascii_hexdigit()));
}

#[test]
fn test_node_id_from_hex() {
    let hex_str = "ab".repeat(20);
    let node_id = NodeId::from_hex(&hex_str);
    assert!(node_id.is_some());
    assert_eq!(node_id.unwrap().0, vec![0xABu8; 20]);
}

#[test]
fn test_node_new() {
    let id = NodeId::new(vec![1u8; 20]);
    let addr = Endpoint::from_octets(127, 0, 0, 1, 6881);
    let node = Node::new(id.clone(), addr, 0);
    assert_eq!(node.id, id);
    assert_eq!(node.endpoint, addr);
    assert!(node.is_good(0));
}

#[test]
fn test_node_distance_to() {
    let id1 = NodeId::new(vec![0xFFu8; 20]);
    let id2 = NodeId::new(vec![0x00u8; 20]);
    let node = Node::new(id1, Endpoint::from_octets(127, 0, 0, 1, 6881), 0);
    let distance = node.distance_to(&id2);
    assert_eq!(distance, vec![0xFFu8; 20]);
}

#[test]
fn test_create_ping_query() {
    let our_id = NodeId::new(vec![1u8; 20]);
    let query = DHTMessage::create_ping_query("test".to_string(), our_id);
    assert!(matches!(query, DHTMessage::Query { .. }));
}

#[test]
fn test_create_find_node_query() {
    let our_id = NodeId::new(vec![1u8; 20]);
    let target = NodeId::new(vec![2u8; 20]);
    let query = DHTMessage::create_find_node_query("test".to_string(), our_id, target);
    assert!(matches!(query, DHTMessage::Query { query_type: QueryType::FindNode, .. }));
}

#[test]
fn test_create_get_peers_query() {
    let our_id = NodeId::new(vec![1u8; 20]);
    let query = DHTMessage::create_get_peers_query("test".to_string(), our_id, vec![3u8; 20]);
    assert!(matches!(query, DHTMessage::Query { query_type: QueryType::GetPeers, .. }));
}

#[test]
fn test_create_announce_peer_query() {
    let our_id = NodeId::new(vec![1u8; 20]);
    let query = DHTMessage::create_announce_peer_query(
        "test".to_string(),
        our_id,
        vec![3u8; 20],
        6881,
        "token".to_string(),
    );
    assert!(matches!(query, DHTMessage::Query { query_type: QueryType::AnnouncePeer, .. }));
}

#[test]
fn test_transaction_expired() {
    let transaction =
        Transaction::new("test".to_string(), NodeId::new(vec![1u8; 20]), QueryType::Ping, 0);
    assert!(!transaction.is_expired(1, 10_000));
    assert!(transaction.is_expired(1, 0));
}

#[test]
fn test_transaction_table_cleanup() {
    // The freshness invariant of the transaction map: after a cleanup,
    // every remaining transaction is younger than the timeout.
    let mut table = TransactionTable::new();
    table.insert(Transaction::new(
        "old".to_string(),
        NodeId::new(vec![1u8; 20]),
        QueryType::Ping,
        0,
    ));
    table.insert(Transaction::new(
        "fresh".to_string(),
        NodeId::new(vec![2u8; 20]),
        QueryType::GetPeers,
        50_000,
    ));
    table.cleanup(70_000, TRANSACTION_TIMEOUT_MS);
    assert_eq!(table.len(), 1);
    assert_eq!(table.transactions[0].transaction_id, "fresh");
}

#[test]
fn test_parse_compact_nodes() {
    let mut data = Vec::new();
    data.extend_from_slice(&[1u8; 20]); // Node id
    data.extend_from_slice(&[127, 0, 0, 1]); // Address
    data.extend_from_slice(&[26, 225]); // Port 6881, big-endian

    let nodes = parse_compact_nodes(&data).unwrap();
    assert_eq!(nodes.len(), 1);
    assert_eq!(nodes[0].0, NodeId::new(vec![1u8; 20]));
    assert_eq!(nodes[0].1, Endpoint::from_octets(127, 0, 0, 1, 6881));
}

#[test]
fn test_serialize_compact_nodes() {
    let nodes = vec![(NodeId::new(vec![1u8; 20]), Endpoint::from_octets(127, 0, 0, 1, 6881))];
    let data = serialize_compact_nodes(&nodes).unwrap();
    assert_eq!(data.len(), 26);
}

#[test]
fn test_parse_compact_peers() {
    // Compact peer decode: the bytes 7f 00 00 01 1a e1 name exactly the
    // endpoint 127.0.0.1:6881.
    let data = vec![0x7f, 0x00, 0x00, 0x01, 0x1a, 0xe1];
    let peers = parse_compact_peers(&data).unwrap();
    assert_eq!(peers.len(), 1);
    assert_eq!(peers[0], Endpoint::from_octets(127, 0, 0, 1, 6881));
}

#[test]
fn test_serialize_compact_peers() {
    let peers = vec![Endpoint::from_octets(127, 0, 0, 1, 6881)];
    let data = serialize_compact_peers(&peers).unwrap();
    assert_eq!(data.len(), 6);
    assert_eq!(data, vec![0x7f, 0x00, 0x00, 0x01, 0x1a, 0xe1]);
}

#[test]
fn test_compact_round_trips() {
    let nodes = vec![
        (NodeId::new(vec![9u8; 20]), Endpoint::from_octets(10, 0, 0, 7, 51413)),
        (NodeId::new(vec![4u8; 20]), Endpoint::from_octets(192, 168, 1, 2, 6881)),
    ];
    let bytes = serialize_compact_nodes(&nodes).unwrap();
    assert_eq!(parse_compact_nodes(&bytes).unwrap(), nodes);

    let peers = vec![
        Endpoint::from_octets(8, 8, 8, 8, 53),
        Endpoint::from_octets(127, 0, 0, 1, 6881),
    ];
    let bytes = serialize_compact_peers(&peers).unwrap();
    assert_eq!(parse_compact_peers(&bytes).unwrap(), peers);
}

#[test]
fn test_compact_parse_rejects_bad_length() {
    assert!(parse_compact_nodes(&[0u8; 27]).is_err());
    assert!(parse_compact_peers(&[0u8; 5]).is_err());
}

#[test]
fn test_generate_transaction_id() {
    let id1 = generate_transaction_id();
    let id2 = generate_transaction_id();
    assert_ne!(id1, id2);
    assert_eq!(id1.len(), 8); // Four bytes, hex encoded.
}

#[test]
fn test_routing_table_new() {
    let our_id = NodeId::new(vec![1u8; 20]);
    let table = RoutingTable::new(our_id.clone(), 0);
    assert_eq!(table.our_id, our_id);
    assert_eq!(table.buckets.len(), 160);
}

#[test]
fn test_add_node() {
    let our_id = NodeId::new(vec![1u8; 20]);
    let mut table = RoutingTable::new(our_id, 0);
    let node = Node::new(NodeId::new(vec![2u8; 20]), Endpoint::from_octets(127, 0, 0, 1, 6881), 0);

    assert!(table.add_node(node, 0));
    assert_eq!(table.node_count(), 1);
}

#[test]
fn test_remove_node() {
    let our_id = NodeId::new(vec![1u8; 20]);
    let mut table = RoutingTable::new(our_id, 0);
    let node_id = NodeId::new(vec![2u8; 20]);
    let node = Node::new(node_id.clone(), Endpoint::from_octets(127, 0, 0, 1, 6881), 0);

    table.add_node(node, 0);
    assert_eq!(table.node_count(), 1);

    table.remove_node(&node_id, 0);
    assert_eq!(table.node_count(), 0);
}

#[test]
fn test_bucket_index() {
    // The bucket index of any node id is the position of the first bit
    // where it differs from ours, MSB of byte zero first.
    let our_id = NodeId::new(vec![0x80u8; 20]);
    let table = RoutingTable::new(our_id.clone(), 0);

    // An identical id lands in the last bucket.
    assert_eq!(table.get_bucket_index(&our_id), 159);

    // An id whose first bit differs lands in bucket zero.
    let different_id = NodeId::new(vec![0x00u8; 20]);
    assert_eq!(table.get_bucket_index(&different_id), 0);
}

#[test]
fn test_kbucket_full() {
    let prefix = NodeId::new(vec![1u8; 20]);
    let mut bucket = KBucket::new(prefix, 0);

    for i in 0..K {
        let mut id = vec![2u8; 20];
        id[19] = i as u8;
        let node =
            Node::new(NodeId::new(id), Endpoint::from_octets(127, 0, 0, 1, 6881 + i as u16), 0);
        assert!(bucket.add_node(node, 0));
    }

    assert!(bucket.is_full());
    assert_eq!(bucket.len(), K);

    let mut id = vec![2u8; 20];
    id[19] = K as u8;
    let node = Node::new(NodeId::new(id), Endpoint::from_octets(127, 0, 0, 1, 7000), 0);
    assert!(!bucket.add_node(node, 0));
}

#[test]
fn test_kbucket_add_duplicate_updates() {
    let prefix = NodeId::new(vec![1u8; 20]);
    let mut bucket = KBucket::new(prefix, 0);

    let node_id = NodeId::new(vec![2u8; 20]);
    let addr = Endpoint::from_octets(127, 0, 0, 1, 6881);
    assert!(bucket.add_node(Node::new(node_id.clone(), addr, 0), 0));
    assert_eq!(bucket.len(), 1);

    // Adding the same id refreshes its last-seen time instead of adding a
    // duplicate.
    assert!(bucket.add_node(Node::new(node_id.clone(), addr, 10), 10));
    assert_eq!(bucket.len(), 1);
    assert_eq!(bucket.find_node(&node_id).unwrap().last_seen, 10);
}

#[test]
fn test_find_node_in_routing_table() {
    let our_id = NodeId::new(vec![1u8; 20]);
    let mut table = RoutingTable::new(our_id, 0);

    let node_id = NodeId::new(vec![2u8; 20]);
    let node = Node::new(node_id.clone(), Endpoint::from_octets(127, 0, 0, 1, 6881), 0);
    table.add_node(node, 0);

    assert!(table.find_node(&node_id).is_some());
    assert!(table.find_node(&NodeId::new(vec![3u8; 20])).is_none());
}

#[test]
fn test_get_stale_buckets() {
    let our_id = NodeId::new(vec![1u8; 20]);
    let table = RoutingTable::new(our_id, 0);

    // With a long timeout, nothing is stale yet.
    let stale = table.get_stale_buckets(0, 1_000_000);
    assert_eq!(stale.len(), 0);

    // With a zero timeout, every just-created bucket is stale a moment
    // later.
    let stale = table.get_stale_buckets(1, 0);
    assert_eq!(stale.len(), 160);
}

#[test]
fn test_dht_message_serializes_canonically() {
    let our_id = NodeId::new(vec![1u8; 20]);
    let query = DHTMessage::create_ping_query("aa".to_string(), our_id);
    let bytes = query.serialize().unwrap();
    // A bencoded dictionary whose keys arrive in canonical order.
    assert_eq!(bytes[0], b'd');
    assert_eq!(*bytes.last().unwrap(), b'e');
    let text = String::from_utf8_lossy(&bytes).to_string();
    let a_pos = text.find("1:a").unwrap();
    let q_pos = text.find("1:q4:ping").unwrap();
    let y_pos = text.find("1:y1:q").unwrap();
    assert!(a_pos < q_pos && q_pos < y_pos);
}

#[test]
fn test_dht_message_round_trip() {
    let our_id = NodeId::new(vec![3u8; 20]);
    let query = DHTMessage::create_get_peers_query("t".to_string(), our_id, vec![9u8; 20]);
    let bytes = query.serialize().unwrap();
    match DHTMessage::deserialize(&bytes).unwrap() {
        DHTMessage::Query { transaction_id, query_type, args } => {
            assert_eq!(transaction_id, b"t".to_vec());
            assert_eq!(query_type, QueryType::GetPeers);
            assert_eq!(args.len(), 2);
        }
        _ => panic!("expected a query"),
    }
}

#[test]
fn test_dht_deserialize_rejects_garbage() {
    assert!(DHTMessage::deserialize(b"i42e").is_err());
    assert!(DHTMessage::deserialize(b"d1:y1:qe").is_err());
    assert!(DHTMessage::deserialize(b"not bencode").is_err());
}

#[test]
fn test_find_closest_nodes() {
    let our_id = NodeId::new(vec![0u8; 20]);
    let mut table = RoutingTable::new(our_id, 0);
    let target = NodeId::new(vec![0xFFu8; 20]);

    for i in 0..10 {
        let mut id = vec![0u8; 20];
        id[0] = i as u8;
        let node = Node::new(
            NodeId::new(id),
            Endpoint::from_octets(127, 0, 0, 1, 6881 + i as u16),
            0,
        );
        table.add_node(node, 0);
    }

    let closest = table.find_closest_nodes(&target);
    assert!(!closest.is_empty());
    assert!(closest.len() <= K);
}

#[test]
fn test_find_closest_nodes_sorted() {
    let our_id = NodeId::new(vec![0u8; 20]);
    let mut table = RoutingTable::new(our_id, 0);
    let target = NodeId::new(vec![0xFFu8; 20]);

    let node1 = Node::new(NodeId::new(vec![0xF0u8; 20]), Endpoint::from_octets(127, 0, 0, 1, 6881), 0);
    let node2 = Node::new(NodeId::new(vec![0x0Fu8; 20]), Endpoint::from_octets(127, 0, 0, 1, 6882), 0);
    let node3 = Node::new(NodeId::new(vec![0xFFu8; 20]), Endpoint::from_octets(127, 0, 0, 1, 6883), 0);

    table.add_node(node1, 0);
    table.add_node(node2, 0);
    table.add_node(node3, 0);

    let closest = table.find_closest_nodes(&target);

    // The node identical to the target comes first: its distance is zero.
    assert_eq!(closest.len(), 3);
    assert_eq!(closest[0].id.0, vec![0xFFu8; 20]);
    assert_eq!(closest[1].id.0, vec![0xF0u8; 20]);
    assert_eq!(closest[2].id.0, vec![0x0Fu8; 20]);
}

#[test]
fn test_dht_response_round_trip() {
    let args = vec![DictEntry { key: b"id".to_vec(), value: BencodeValue::Bytes(vec![7u8; 20]) }];
    let msg = DHTMessage::Response { transaction_id: b"aa".to_vec(), args };
    let bytes = msg.serialize().unwrap();
    match DHTMessage::deserialize(&bytes).unwrap() {
        DHTMessage::Response { transaction_id, args } => {
            assert_eq!(transaction_id, b"aa".to_vec());
            assert_eq!(args.len(), 1);
            assert_eq!(args[0].key, b"id".to_vec());
        }
        _ => panic!("expected a response"),
    }
}

#[test]
fn test_dht_error_round_trip() {
    let msg = DHTMessage::Error {
        transaction_id: b"xy".to_vec(),
        code: 201,
        message: "Generic Error".to_string(),
    };
    let bytes = msg.serialize().unwrap();
    match DHTMessage::deserialize(&bytes).unwrap() {
        DHTMessage::Error { transaction_id, code, message } => {
            assert_eq!(transaction_id, b"xy".to_vec());
            assert_eq!(code, 201);
            assert_eq!(message, "Generic Error");
        }
        _ => panic!("expected an error message"),
    }
}

#[test]
fn test_find_closest_nodes_caps_at_k() {
    let our_id = NodeId::new(vec![0u8; 20]);
    let mut table = RoutingTable::new(our_id, 0);
    let target = NodeId::new(vec![0xFFu8; 20]);

    // Each id sets the high bit of a different byte, so every node lands
    // in a bucket of its own and all twelve are kept.
    for i in 0..12 {
        let mut id = vec![0u8; 20];
        id[i] = 0x80;
        let node = Node::new(
            NodeId::new(id),
            Endpoint::from_octets(10, 0, 0, i as u8, 6881),
            0,
        );
        assert!(table.add_node(node, 0));
    }

    let closest = table.find_closest_nodes(&target);
    assert_eq!(closest.len(), K);
}
