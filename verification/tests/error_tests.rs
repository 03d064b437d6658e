use torrent_core::error::TorrentError;

#[test]
fn test_parse_error() {
    let err = TorrentError::parse_error("Invalid torrent file");
    assert_eq!(err.describe(), "Parse error: Invalid torrent file");
}

#[test]
fn test_parse_error_with_source() {
    let err = TorrentError::parse_error_with_source("Invalid torrent file", "bencode error");
    assert!(err.describe().contains("Parse error"));
    assert!(err.describe().contains("Invalid torrent file"));
    assert!(err.describe().contains("bencode error"));
}

#[test]
fn test_peer_error_with_peer() {
    let err = TorrentError::peer_error_with_peer("Connection failed", "127.0.0.1:6881");
    assert!(err.describe().contains("Peer error"));
    assert!(err.describe().contains("Connection failed"));
    assert!(err.describe().contains("127.0.0.1:6881"));
}

#[test]
fn test_storage_error_with_path() {
    let err = TorrentError::storage_error_with_path("File not found", "/path/to/file");
    assert!(err.describe().contains("Storage error"));
    assert!(err.describe().contains("File not found"));
    assert!(err.describe().contains("/path/to/file"));
}

#[test]
fn test_with_context() {
    let err = TorrentError::parse_error("Invalid data").with_context("while parsing torrent");
    assert!(err.describe().contains("while parsing torrent"));
}

#[test]
fn test_config_error_with_field() {
    let err = TorrentError::config_error_with_field("Invalid value", "max_connections");
    assert!(err.describe().contains("Config error"));
    assert!(err.describe().contains("max_connections"));
}

#[test]
fn test_validation_error_with_field() {
    let err = TorrentError::validation_error_with_field("Value out of range", "port");
    assert!(err.describe().contains("Validation error"));
    assert!(err.describe().contains("port"));
}

#[test]
fn test_cloud_storage_error() {
    let err = TorrentError::cloud_storage_error("Upload failed", "Google Drive");
    assert!(err.describe().contains("Cloud storage error"));
    assert!(err.describe().contains("Upload failed"));
    assert!(err.describe().contains("Google Drive"));
}

#[test]
fn test_cloud_storage_error_retryable() {
    let err =
        TorrentError::cloud_storage_error_retryable("Network timeout", "Google Drive", "timeout");
    assert!(err.describe().contains("Cloud storage error (retryable)"));
    assert!(err.describe().contains("Network timeout"));
}

#[test]
fn test_protocol_error_variants() {
    let err = TorrentError::protocol_error("Invalid protocol string");
    assert_eq!(err.describe(), "Protocol error: Invalid protocol string");
    let err = TorrentError::protocol_error_with_source("Handshake data too short", "68 needed");
    assert!(err.describe().contains("68 needed"));
}

#[test]
fn test_dht_and_network_errors() {
    let err = TorrentError::dht_error_full("query timed out", "node-a", "udp");
    assert!(err.describe().contains("DHT error"));
    assert!(err.describe().contains("node-a"));
    let err = TorrentError::network_error_with_address("unreachable", "10.0.0.1:1");
    assert!(err.describe().contains("Network error"));
    assert!(err.describe().contains("10.0.0.1:1"));
}
