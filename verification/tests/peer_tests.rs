use torrent_core::dht::node::Endpoint;
use torrent_core::peer::manager::PeerManager;
use torrent_core::peer::state::{Peer, PeerState};

#[test]
fn test_peer_state_defaults() {
    assert_eq!(PeerState::default(), PeerState::Disconnected);
}

#[test]
fn test_peer_connection_from_socket() {
    // Building a connection needs a live socket, which belongs to the I/O
    // glue outside the library; the per-connection state it wraps is
    // covered by the tests around `Peer`.
}

#[test]
fn test_peer_new() {
    let addr = Endpoint::from_octets(127, 0, 0, 1, 6881);
    let peer = Peer::new(addr);

    assert_eq!(peer.addr, addr);
    assert!(peer.peer_id.is_none());
    assert_eq!(peer.state, PeerState::Disconnected);
    assert!(peer.am_choking);
    assert!(!peer.am_interested);
    assert!(peer.peer_choking);
    assert!(!peer.peer_interested);
    assert_eq!(peer.pieces_downloaded, 0);
    assert_eq!(peer.pieces_uploaded, 0);
}

#[test]
fn test_has_piece() {
    let addr = Endpoint::from_octets(127, 0, 0, 1, 6881);
    let mut peer = Peer::new(addr);

    peer.update_bitfield(vec![0b11000000]); // Bits 0 and 1 set.

    assert!(peer.has_piece(0));
    assert!(peer.has_piece(1));
    assert!(!peer.has_piece(2));
    assert!(!peer.has_piece(7));
}

#[test]
fn test_can_request() {
    let addr = Endpoint::from_octets(127, 0, 0, 1, 6881);
    let mut peer = Peer::new(addr);

    // Fresh peers cannot be asked for anything.
    assert!(!peer.can_request());

    peer.set_state(PeerState::Connected);
    assert!(!peer.can_request());

    peer.peer_choking = false;
    assert!(!peer.can_request());

    peer.am_interested = true;
    assert!(peer.can_request());
}

#[test]
fn test_piece_count() {
    let addr = Endpoint::from_octets(127, 0, 0, 1, 6881);
    let mut peer = Peer::new(addr);

    assert_eq!(peer.piece_count(), 0);

    peer.update_bitfield(vec![0b11100000]);
    assert_eq!(peer.piece_count(), 3);

    peer.update_bitfield(vec![0b11111111, 0b00001111]);
    assert_eq!(peer.piece_count(), 12);
}

#[test]
fn test_increment_counters_saturate() {
    let addr = Endpoint::from_octets(127, 0, 0, 1, 6881);
    let mut peer = Peer::new(addr);
    peer.increment_downloaded();
    peer.increment_downloaded();
    assert_eq!(peer.pieces_downloaded, 2);
    peer.increment_uploaded();
    assert_eq!(peer.pieces_uploaded, 1);
    peer.pieces_uploaded = u32::MAX;
    peer.increment_uploaded();
    assert_eq!(peer.pieces_uploaded, u32::MAX);
}

#[test]
fn test_manager_add_peer_is_idempotent() {
    let mut manager = PeerManager::new(10, vec![0u8; 20], vec![1u8; 20]);
    let addr = Endpoint::from_octets(127, 0, 0, 1, 6881);

    manager.add_peer(addr);
    manager.add_peer(addr);
    assert_eq!(manager.peer_count(), 1);
    assert_eq!(manager.peer_addresses(), vec![addr]);
}

#[test]
fn test_manager_add_peers() {
    let mut manager = PeerManager::new(10, vec![0u8; 20], vec![1u8; 20]);
    let addrs = vec![
        Endpoint::from_octets(127, 0, 0, 1, 6881),
        Endpoint::from_octets(127, 0, 0, 1, 6882),
        Endpoint::from_octets(127, 0, 0, 1, 6883),
    ];

    manager.add_peers(addrs.clone());
    assert_eq!(manager.peer_count(), 3);
    let known = manager.peer_addresses();
    for addr in addrs {
        assert!(known.contains(&addr));
    }
}

#[test]
fn test_manager_remove_peer() {
    let mut manager = PeerManager::new(10, vec![0u8; 20], vec![1u8; 20]);
    let addr = Endpoint::from_octets(127, 0, 0, 1, 6881);
    manager.add_peer(addr);
    assert_eq!(manager.peer_count(), 1);
    manager.remove_peer(addr);
    assert_eq!(manager.peer_count(), 0);
}

#[test]
fn test_manager_can_add_connection() {
    let manager = PeerManager::new(2, vec![0u8; 20], vec![1u8; 20]);
    assert!(manager.can_add_connection(0));
    assert!(manager.can_add_connection(1));
    assert!(!manager.can_add_connection(2));
}

#[test]
fn test_best_peer_scoring() {
    // Scoring: ten per needed piece the peer has, five for unchoking us,
    // plus pieces downloaded from it, minus half the pieces served.
    let mut manager = PeerManager::new(10, vec![0u8; 20], vec![1u8; 20]);
    let a = Endpoint::from_octets(10, 0, 0, 1, 1);
    let b = Endpoint::from_octets(10, 0, 0, 2, 2);
    manager.add_peer(a);
    manager.add_peer(b);
    for peer in manager.peers.iter_mut() {
        peer.set_state(PeerState::Connected);
        peer.peer_choking = false;
    }
    // Peer a has both needed pieces; peer b has none.
    manager.peers[0].update_bitfield(vec![0b11000000]);
    manager.peers[1].update_bitfield(vec![0b00000000]);

    let best = manager.get_best_peer(&vec![0usize, 1usize]);
    assert_eq!(best, Some(a));
}

#[test]
fn test_best_peer_none_when_all_choking() {
    let mut manager = PeerManager::new(10, vec![0u8; 20], vec![1u8; 20]);
    let a = Endpoint::from_octets(10, 0, 0, 1, 1);
    manager.add_peer(a);
    manager.peers[0].set_state(PeerState::Connected);
    // Still choking us: not eligible.
    assert_eq!(manager.get_best_peer(&vec![0usize]), None);
}

#[test]
fn test_best_peer_tie_breaks_on_lowest_endpoint() {
    // Two eligible peers with equal scores: the lower endpoint wins,
    // whatever order they were added in.
    let mut manager = PeerManager::new(10, vec![0u8; 20], vec![1u8; 20]);
    let high = Endpoint::from_octets(10, 0, 0, 9, 9);
    let low = Endpoint::from_octets(10, 0, 0, 2, 2);
    manager.add_peer(high);
    manager.add_peer(low);
    for peer in manager.peers.iter_mut() {
        peer.set_state(PeerState::Connected);
        peer.peer_choking = false;
        peer.update_bitfield(vec![0b10000000]);
    }
    assert_eq!(manager.get_best_peer(&vec![0usize]), Some(low));

    // Same address, different port: the lower port wins.
    let mut manager = PeerManager::new(10, vec![0u8; 20], vec![1u8; 20]);
    let port_high = Endpoint::from_octets(10, 0, 0, 1, 7000);
    let port_low = Endpoint::from_octets(10, 0, 0, 1, 6000);
    manager.add_peer(port_high);
    manager.add_peer(port_low);
    for peer in manager.peers.iter_mut() {
        peer.set_state(PeerState::Connected);
        peer.peer_choking = false;
    }
    assert_eq!(manager.get_best_peer(&vec![0usize]), Some(port_low));
}
