use torrent_core::bencode::BencodeValue;
use torrent_core::torrent::info::{TorrentFile, TorrentInfo};
use torrent_core::torrent::magnet::MagnetParser;
use torrent_core::torrent::parser::TorrentParser;

fn hex(bytes: &[u8]) -> String {
    bytes.iter().map(|b| format!("{:02x}", b)).collect()
}

#[test]
fn test_torrent_file() {
    let file =
        TorrentFile { path: vec!["folder".to_string(), "file.txt".to_string()], length: 1024 };
    assert_eq!(file.path.len(), 2);
    assert_eq!(file.length, 1024);
}

#[test]
fn test_torrent_info_single_file() {
    let info = TorrentInfo {
        announce: "http://tracker.example.com".to_string(),
        announce_list: vec!["http://tracker.example.com".to_string()],
        info_hash: vec![1u8; 20],
        piece_length: 1024,
        pieces: vec![vec![2u8; 20], vec![3u8; 20]],
        name: "test.torrent".to_string(),
        length: Some(2048),
        files: None,
    };

    assert_eq!(info.total_size(), 2048);
    assert_eq!(info.piece_count(), 2);
    assert!(!info.is_multi_file());
    assert_eq!(info.info_hash_hex(), hex(&[1u8; 20]));
}

#[test]
fn test_torrent_info_multi_file() {
    let info = TorrentInfo {
        announce: "http://tracker.example.com".to_string(),
        announce_list: vec!["http://tracker.example.com".to_string()],
        info_hash: vec![1u8; 20],
        piece_length: 1024,
        pieces: vec![vec![2u8; 20]],
        name: "test.torrent".to_string(),
        length: None,
        files: Some(vec![
            TorrentFile { path: vec!["file1.txt".to_string()], length: 500 },
            TorrentFile { path: vec!["file2.txt".to_string()], length: 524 },
        ]),
    };

    assert_eq!(info.total_size(), 1024);
    assert!(info.is_multi_file());
}

#[test]
fn test_files_iter_single_file() {
    let info = TorrentInfo {
        announce: "http://tracker.example.com".to_string(),
        announce_list: vec![],
        info_hash: vec![1u8; 20],
        piece_length: 1024,
        pieces: vec![],
        name: "single.txt".to_string(),
        length: Some(2048),
        files: None,
    };

    let files = info.files_iter();
    assert_eq!(files.len(), 1);
    assert_eq!(files[0].path, vec!["single.txt"]);
    assert_eq!(files[0].length, 2048);
}

#[test]
fn test_generate_info_hash() {
    let data = b"test data";
    let hash = TorrentInfo::generate_info_hash(data);
    assert_eq!(hash.len(), 20);
}

#[test]
fn test_sha1_digest_matches_known_value() {
    // The digest of `abc` is a published SHA-1 value; this holds the
    // trusted digest wrapper to reality.
    let hash = TorrentInfo::generate_info_hash(b"abc");
    assert_eq!(hex(&hash), "a9993e364706816aba3e25717850c26c9cd0d89d");
}

#[test]
fn test_parse_piece_hashes_valid() {
    let hashes: Vec<u8> = (0..40).map(|i| i as u8).collect();
    let result = TorrentInfo::parse_piece_hashes(&hashes).unwrap();
    assert_eq!(result.len(), 2);
    let expected: Vec<u8> = (0..20).map(|i| i as u8).collect();
    assert_eq!(result[0], expected);
}

#[test]
fn test_parse_piece_hashes_invalid() {
    let hashes = vec![1u8; 21]; // Not a multiple of 20.
    assert!(TorrentInfo::parse_piece_hashes(&hashes).is_err());
}

#[test]
fn test_piece_hash() {
    let info = TorrentInfo {
        announce: "http://tracker.example.com".to_string(),
        announce_list: vec![],
        info_hash: vec![1u8; 20],
        piece_length: 1024,
        pieces: vec![vec![2u8; 20], vec![3u8; 20]],
        name: "test".to_string(),
        length: Some(2048),
        files: None,
    };

    assert_eq!(info.piece_hash(0), Some(vec![2u8; 20]));
    assert_eq!(info.piece_hash(1), Some(vec![3u8; 20]));
    assert_eq!(info.piece_hash(2), None);
}

#[test]
fn test_piece_range() {
    let info = TorrentInfo {
        announce: "http://tracker.example.com".to_string(),
        announce_list: vec![],
        info_hash: vec![1u8; 20],
        piece_length: 1024,
        pieces: vec![vec![2u8; 20], vec![3u8; 20]],
        name: "test".to_string(),
        length: Some(1500),
        files: None,
    };

    assert_eq!(info.piece_range(0), Some((0, 1024)));
    assert_eq!(info.piece_range(1), Some((1024, 1500))); // The last piece is shorter.
    assert_eq!(info.piece_range(2), None);
}

#[test]
fn test_parse_bencode_int() {
    let data = b"i42e";
    let mut idx = 0;
    let value = TorrentParser::parse_value(data, &mut idx).unwrap();
    assert_eq!(value.as_int(), Some(42));
}

#[test]
fn test_parse_bencode_string() {
    let data = b"4:test";
    let mut idx = 0;
    let value = TorrentParser::parse_value(data, &mut idx).unwrap();
    assert_eq!(value.as_bytes().map(|b| b.as_slice()), Some(b"test".as_ref()));
}

#[test]
fn test_parse_bencode_list() {
    let data = b"l4:testi42ee";
    let mut idx = 0;
    let value = TorrentParser::parse_value(data, &mut idx).unwrap();
    assert!(value.as_list().is_some());
}

#[test]
fn test_parse_bencode_dict() {
    let data = b"d4:testi42ee";
    let mut idx = 0;
    let value = TorrentParser::parse_value(data, &mut idx).unwrap();
    assert!(value.as_dict().is_some());
}

#[test]
fn test_bencode_rejects_malformed_input() {
    for bad in [
        b"i42".as_ref(),
        b"ie".as_ref(),
        b"i-e".as_ref(),
        b"5:abc".as_ref(),
        b"l4:test".as_ref(),
        b"d4:test".as_ref(),
        b"x".as_ref(),
        b"".as_ref(),
    ] {
        let mut idx = 0;
        assert!(TorrentParser::parse_value(bad, &mut idx).is_err());
    }
}

#[test]
fn test_bencode_byte_round_trip() {
    // Decoding a canonical dictionary and encoding it again yields the
    // original bytes.
    let original = b"d3:bar4:spam3:fooi42ee";
    let mut idx = 0;
    let value = TorrentParser::parse_value(original, &mut idx).unwrap();
    assert_eq!(idx, original.len());
    assert_eq!(value.encode(), original.to_vec());
}

#[test]
fn test_bencode_value_round_trip() {
    let value = BencodeValue::Int(-37);
    let encoded = value.encode();
    assert_eq!(encoded, b"i-37e".to_vec());
    let mut idx = 0;
    let decoded = torrent_core::bencode::parse_value(&encoded, &mut idx).unwrap();
    assert_eq!(decoded.as_int(), Some(-37));
}

#[test]
fn test_parse_whole_torrent() {
    // A minimal single-file torrent; the info-hash must be the digest of
    // the raw info value, located inside the original bytes.
    let mut data: Vec<u8> = Vec::new();
    data.extend_from_slice(b"d8:announce20:http://t.example/ann4:info");
    let info_start = data.len();
    data.extend_from_slice(b"d6:lengthi3e4:name1:f12:piece lengthi3e6:pieces20:");
    data.extend_from_slice(&TorrentInfo::generate_info_hash(b"abc"));
    data.extend_from_slice(b"e");
    let info_end = data.len();
    data.extend_from_slice(b"e");

    let torrent = TorrentParser::parse_bytes(&data).unwrap();
    assert_eq!(torrent.announce, "http://t.example/ann");
    assert_eq!(torrent.name, "f");
    assert_eq!(torrent.piece_length, 3);
    assert_eq!(torrent.length, Some(3));
    assert_eq!(torrent.pieces.len(), 1);
    let expected_hash = TorrentInfo::generate_info_hash(&data[info_start..info_end]);
    assert_eq!(torrent.info_hash, expected_hash);
}

#[test]
fn test_parse_multi_file_torrent() {
    let mut data: Vec<u8> = Vec::new();
    data.extend_from_slice(b"d8:announce5:http/4:infod5:filesl");
    data.extend_from_slice(b"d6:lengthi500e4:pathl9:file1.txtee");
    data.extend_from_slice(b"d6:lengthi524e4:pathl9:file2.txtee");
    data.extend_from_slice(b"e4:name5:multi12:piece lengthi1024e6:pieces20:");
    data.extend_from_slice(&[7u8; 20]);
    data.extend_from_slice(b"ee");

    let torrent = TorrentParser::parse_bytes(&data).unwrap();
    assert!(torrent.is_multi_file());
    let files = torrent.files_iter();
    assert_eq!(files.len(), 2);
    assert_eq!(files[0].path, vec!["file1.txt"]);
    assert_eq!(files[0].length, 500);
    assert_eq!(files[1].length, 524);
    assert_eq!(torrent.total_size(), 1024);
}

#[test]
fn test_is_magnet_link() {
    assert!(MagnetParser::is_magnet_link(
        "magnet:?xt=urn:btih:dd8255ecdc7ca55fb0bbf81323d87062db1f6d1c"
    ));
    assert!(MagnetParser::is_magnet_link(
        "magnet://?xt=urn:btih:dd8255ecdc7ca55fb0bbf81323d87062db1f6d1c"
    ));
    assert!(MagnetParser::is_magnet_link(
        "  magnet:?xt=urn:btih:dd8255ecdc7ca55fb0bbf81323d87062db1f6d1c  "
    ));
    assert!(!MagnetParser::is_magnet_link("http://example.com"));
    assert!(!MagnetParser::is_magnet_link("example.torrent"));
}

#[test]
fn test_parse_big_buck_bunny_magnet() {
    // The canonical sample: info-hash, display name and first tracker.
    let magnet = "magnet:?xt=urn:btih:dd8255ecdc7ca55fb0bbf81323d87062db1f6d1c&dn=Big+Buck+Bunny&tr=udp%3A%2F%2Fexplodie.org%3A6969";
    let info = MagnetParser::parse(magnet).unwrap();
    assert_eq!(
        info.info_hash,
        vec![
            0xdd, 0x82, 0x55, 0xec, 0xdc, 0x7c, 0xa5, 0x5f, 0xb0, 0xbb, 0xf8, 0x13, 0x23, 0xd8,
            0x70, 0x62, 0xdb, 0x1f, 0x6d, 0x1c
        ]
    );
    assert_eq!(info.display_name, Some("Big Buck Bunny".to_string()));
    assert!(info.trackers.contains(&"udp://explodie.org:6969".to_string()));
}

#[test]
fn test_parse_simple_magnet() {
    let magnet = "magnet:?xt=urn:btih:dd8255ecdc7ca55fb0bbf81323d87062db1f6d1c";
    let info = MagnetParser::parse(magnet).unwrap();

    assert_eq!(hex(&info.info_hash), "dd8255ecdc7ca55fb0bbf81323d87062db1f6d1c");
    assert!(info.display_name.is_none());
    assert!(info.trackers.is_empty());
}

#[test]
fn test_parse_magnet_with_trackers() {
    let magnet = "magnet:?xt=urn:btih:dd8255ecdc7ca55fb0bbf81323d87062db1f6d1c&tr=http://tracker1.com&tr=http://tracker2.com";
    let info = MagnetParser::parse(magnet).unwrap();

    assert_eq!(info.trackers.len(), 2);
    assert!(info.trackers.contains(&"http://tracker1.com".to_string()));
    assert!(info.trackers.contains(&"http://tracker2.com".to_string()));
}

#[test]
fn test_parse_magnet_with_size() {
    let magnet = "magnet:?xt=urn:btih:dd8255ecdc7ca55fb0bbf81323d87062db1f6d1c&xl=1234567890";
    let info = MagnetParser::parse(magnet).unwrap();

    assert_eq!(info.total_size, Some(1234567890));
}

#[test]
fn test_parse_invalid_magnet_no_info_hash() {
    let magnet = "magnet:?dn=Test+Torrent&tr=http://tracker.com";
    assert!(MagnetParser::parse(magnet).is_err());
}

#[test]
fn test_parse_invalid_scheme() {
    let magnet = "http:?xt=urn:btih:dd8255ecdc7ca55fb0bbf81323d87062db1f6d1c";
    assert!(MagnetParser::parse(magnet).is_err());
}

#[test]
fn test_extract_info_hash_valid() {
    let xt = "urn:btih:dd8255ecdc7ca55fb0bbf81323d87062db1f6d1c";
    let hash = MagnetParser::extract_info_hash(xt).unwrap().unwrap();
    assert_eq!(hex(&hash), "dd8255ecdc7ca55fb0bbf81323d87062db1f6d1c");
}

#[test]
fn test_extract_info_hash_invalid_length() {
    let xt = "urn:btih:dd8255ecdc7ca55fb0bbf81323d87062db1f6d";
    assert!(MagnetParser::extract_info_hash(xt).is_err());
}

#[test]
fn test_extract_info_hash_non_bittorrent() {
    let xt = "urn:sha1:dd8255ecdc7ca55fb0bbf81323d87062db1f6d1c";
    assert!(MagnetParser::extract_info_hash(xt).unwrap().is_none());
}
