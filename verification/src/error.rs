//! Error taxonomy of the library.
//!
//! Parse and configuration errors are fatal for their input; peer, node and
//! network errors are scoped to one remote party; storage errors may be
//! retryable. Each constructor pins the variant and every field it stores.

use vstd::prelude::*;

verus! {

/// An error of one of the library's subsystems, with the context that was
/// known where it arose.
#[derive(Debug, Clone)]
pub enum TorrentError {
    /// Malformed metainfo, bencode or magnet input.
    ParseError { message: String, source: Option<String> },
    /// A peer broke the wire protocol.
    ProtocolError { message: String, source: Option<String> },
    /// A failure scoped to one peer connection.
    PeerError { message: String, peer: Option<String>, source: Option<String> },
    /// A local storage failure.
    StorageError { message: String, path: Option<String>, source: Option<String> },
    /// A cloud backend failure; `is_retryable` drives the retry policy.
    CloudStorageError {
        message: String,
        provider: String,
        source: Option<String>,
        is_retryable: bool,
    },
    /// A failure scoped to one DHT node.
    DHTError { message: String, node: Option<String>, source: Option<String> },
    /// A bad configuration value.
    ConfigError { message: String, field: Option<String> },
    /// A socket-level failure.
    NetworkError { message: String, address: Option<String>, source: Option<String> },
    /// An impossible field value, from a bug or a hostile peer.
    ValidationError { message: String, field: Option<String> },
}

/// The view of an optional string.
pub open spec fn opt_view(o: Option<String>) -> Option<Seq<char>> {
    match o {
        Some(s) => Some(s@),
        None => None,
    }
}

impl TorrentError {
    /// A parse error with no underlying cause.
    pub fn parse_error(message: &str) -> (r: TorrentError)
        ensures
            r matches TorrentError::ParseError { message: m, source: s } && m@ == message@
                && s is None,
    {
        TorrentError::ParseError { message: message.to_owned(), source: None }
    }

    /// A parse error that records what failed underneath.
    pub fn parse_error_with_source(message: &str, source: &str) -> (r: TorrentError)
        ensures
            r matches TorrentError::ParseError { message: m, source: s } && m@ == message@
                && opt_view(s) == Some(source@),
    {
        TorrentError::ParseError { message: message.to_owned(), source: Some(source.to_owned()) }
    }

    /// A protocol error with no underlying cause.
    pub fn protocol_error(message: &str) -> (r: TorrentError)
        ensures
            r matches TorrentError::ProtocolError { message: m, source: s } && m@ == message@
                && s is None,
    {
        TorrentError::ProtocolError { message: message.to_owned(), source: None }
    }

    /// A protocol error that records what failed underneath.
    pub fn protocol_error_with_source(message: &str, source: &str) -> (r: TorrentError)
        ensures
            r matches TorrentError::ProtocolError { message: m, source: s } && m@ == message@
                && opt_view(s) == Some(source@),
    {
        TorrentError::ProtocolError {
            message: message.to_owned(),
            source: Some(source.to_owned()),
        }
    }

    /// A peer error that names no peer.
    pub fn peer_error(message: &str) -> (r: TorrentError)
        ensures
            r matches TorrentError::PeerError { message: m, peer: p, source: s } && m@ == message@
                && p is None && s is None,
    {
        TorrentError::PeerError { message: message.to_owned(), peer: None, source: None }
    }

    /// A peer error that names the peer it concerns.
    pub fn peer_error_with_peer(message: &str, peer: &str) -> (r: TorrentError)
        ensures
            r matches TorrentError::PeerError { message: m, peer: p, source: s } && m@ == message@
                && opt_view(p) == Some(peer@) && s is None,
    {
        TorrentError::PeerError {
            message: message.to_owned(),
            peer: Some(peer.to_owned()),
            source: None,
        }
    }

    /// A peer error with both the peer and the underlying cause.
    pub fn peer_error_full(message: &str, peer: &str, source: &str) -> (r: TorrentError)
        ensures
            r matches TorrentError::PeerError { message: m, peer: p, source: s } && m@ == message@
                && opt_view(p) == Some(peer@) && opt_view(s) == Some(source@),
    {
        TorrentError::PeerError {
            message: message.to_owned(),
            peer: Some(peer.to_owned()),
            source: Some(source.to_owned()),
        }
    }

    /// A storage error that names no path.
    pub fn storage_error(message: &str) -> (r: TorrentError)
        ensures
            r matches TorrentError::StorageError { message: m, path: p, source: s } && m@
                == message@ && p is None && s is None,
    {
        TorrentError::StorageError { message: message.to_owned(), path: None, source: None }
    }

    /// A storage error that names the path it concerns.
    pub fn storage_error_with_path(message: &str, path: &str) -> (r: TorrentError)
        ensures
            r matches TorrentError::StorageError { message: m, path: p, source: s } && m@
                == message@ && opt_view(p) == Some(path@) && s is None,
    {
        TorrentError::StorageError {
            message: message.to_owned(),
            path: Some(path.to_owned()),
            source: None,
        }
    }

    /// A storage error with both the path and the underlying cause.
    pub fn storage_error_full(message: &str, path: &str, source: &str) -> (r: TorrentError)
        ensures
            r matches TorrentError::StorageError { message: m, path: p, source: s } && m@
                == message@ && opt_view(p) == Some(path@) && opt_view(s) == Some(source@),
    {
        TorrentError::StorageError {
            message: message.to_owned(),
            path: Some(path.to_owned()),
            source: Some(source.to_owned()),
        }
    }

    /// A cloud storage error that is not retryable.
    pub fn cloud_storage_error(message: &str, provider: &str) -> (r: TorrentError)
        ensures
            r matches TorrentError::CloudStorageError {
                message: m,
                provider: pr,
                source: s,
                is_retryable: rt,
            } && m@ == message@ && pr@ == provider@ && s is None && rt == false,
    {
        TorrentError::CloudStorageError {
            message: message.to_owned(),
            provider: provider.to_owned(),
            source: None,
            is_retryable: false,
        }
    }

    /// A non-retryable cloud storage error with its underlying cause.
    pub fn cloud_storage_error_with_source(message: &str, provider: &str, source: &str) -> (r:
        TorrentError)
        ensures
            r matches TorrentError::CloudStorageError {
                message: m,
                provider: pr,
                source: s,
                is_retryable: rt,
            } && m@ == message@ && pr@ == provider@ && opt_view(s) == Some(source@) && rt == false,
    {
        TorrentError::CloudStorageError {
            message: message.to_owned(),
            provider: provider.to_owned(),
            source: Some(source.to_owned()),
            is_retryable: false,
        }
    }

    /// A retryable cloud storage error with its underlying cause.
    pub fn cloud_storage_error_retryable(message: &str, provider: &str, source: &str) -> (r:
        TorrentError)
        ensures
            r matches TorrentError::CloudStorageError {
                message: m,
                provider: pr,
                source: s,
                is_retryable: rt,
            } && m@ == message@ && pr@ == provider@ && opt_view(s) == Some(source@) && rt == true,
    {
        TorrentError::CloudStorageError {
            message: message.to_owned(),
            provider: provider.to_owned(),
            source: Some(source.to_owned()),
            is_retryable: true,
        }
    }

    /// A DHT error that names no node.
    pub fn dht_error(message: &str) -> (r: TorrentError)
        ensures
            r matches TorrentError::DHTError { message: m, node: n, source: s } && m@ == message@
                && n is None && s is None,
    {
        TorrentError::DHTError { message: message.to_owned(), node: None, source: None }
    }

    /// A DHT error that names the node it concerns.
    pub fn dht_error_with_node(message: &str, node: &str) -> (r: TorrentError)
        ensures
            r matches TorrentError::DHTError { message: m, node: n, source: s } && m@ == message@
                && opt_view(n) == Some(node@) && s is None,
    {
        TorrentError::DHTError {
            message: message.to_owned(),
            node: Some(node.to_owned()),
            source: None,
        }
    }

    /// A DHT error with both the node and the underlying cause.
    pub fn dht_error_full(message: &str, node: &str, source: &str) -> (r: TorrentError)
        ensures
            r matches TorrentError::DHTError { message: m, node: n, source: s } && m@ == message@
                && opt_view(n) == Some(node@) && opt_view(s) == Some(source@),
    {
        TorrentError::DHTError {
            message: message.to_owned(),
            node: Some(node.to_owned()),
            source: Some(source.to_owned()),
        }
    }

    /// A configuration error that names no field.
    pub fn config_error(message: &str) -> (r: TorrentError)
        ensures
            r matches TorrentError::ConfigError { message: m, field: f } && m@ == message@
                && f is None,
    {
        TorrentError::ConfigError { message: message.to_owned(), field: None }
    }

    /// A configuration error that names the offending field.
    pub fn config_error_with_field(message: &str, field: &str) -> (r: TorrentError)
        ensures
            r matches TorrentError::ConfigError { message: m, field: f } && m@ == message@
                && opt_view(f) == Some(field@),
    {
        TorrentError::ConfigError { message: message.to_owned(), field: Some(field.to_owned()) }
    }

    /// A network error that names no address.
    pub fn network_error(message: &str) -> (r: TorrentError)
        ensures
            r matches TorrentError::NetworkError { message: m, address: a, source: s } && m@
                == message@ && a is None && s is None,
    {
        TorrentError::NetworkError { message: message.to_owned(), address: None, source: None }
    }

    /// A network error that names the address it concerns.
    pub fn network_error_with_address(message: &str, address: &str) -> (r: TorrentError)
        ensures
            r matches TorrentError::NetworkError { message: m, address: a, source: s } && m@
                == message@ && opt_view(a) == Some(address@) && s is None,
    {
        TorrentError::NetworkError {
            message: message.to_owned(),
            address: Some(address.to_owned()),
            source: None,
        }
    }

    /// A network error with both the address and the underlying cause.
    pub fn network_error_full(message: &str, address: &str, source: &str) -> (r: TorrentError)
        ensures
            r matches TorrentError::NetworkError { message: m, address: a, source: s } && m@
                == message@ && opt_view(a) == Some(address@) && opt_view(s) == Some(source@),
    {
        TorrentError::NetworkError {
            message: message.to_owned(),
            address: Some(address.to_owned()),
            source: Some(source.to_owned()),
        }
    }

    /// A validation error that names no field.
    pub fn validation_error(message: &str) -> (r: TorrentError)
        ensures
            r matches TorrentError::ValidationError { message: m, field: f } && m@ == message@
                && f is None,
    {
        TorrentError::ValidationError { message: message.to_owned(), field: None }
    }

    /// A validation error that names the offending field.
    pub fn validation_error_with_field(message: &str, field: &str) -> (r: TorrentError)
        ensures
            r matches TorrentError::ValidationError { message: m, field: f } && m@ == message@
                && opt_view(f) == Some(field@),
    {
        TorrentError::ValidationError {
            message: message.to_owned(),
            field: Some(field.to_owned()),
        }
    }
}

/// What `with_context` makes of an existing source field: the context alone
/// when there was none, else the old source, a separator, and the context.
pub open spec fn spec_with_context(source: Option<Seq<char>>, ctx: Seq<char>) -> Seq<char> {
    match source {
        None => ctx,
        Some(s) => s + ": "@ + ctx,
    }
}

/// Extends `source` with `ctx` as `spec_with_context` describes.
fn join_context(source: Option<String>, ctx: &str) -> (r: String)
    ensures
        r@ == spec_with_context(opt_view(source), ctx@),
{
    match source {
        None => ctx.to_owned(),
        Some(mut s) => {
            s.append(": ");
            s.append(ctx);
            s
        },
    }
}

impl TorrentError {
    /// Folds extra context into the error's source field. Variants without a
    /// source field are returned unchanged.
    pub fn with_context(self, context: &str) -> (r: TorrentError)
        ensures
            match self {
                TorrentError::ParseError { message: m, source: s } => r matches
                    TorrentError::ParseError { message: m2, source: s2 } && m2 == m && opt_view(s2)
                    == Some(spec_with_context(opt_view(s), context@)),
                TorrentError::ProtocolError { message: m, source: s } => r matches
                    TorrentError::ProtocolError { message: m2, source: s2 } && m2 == m && opt_view(
                    s2,
                ) == Some(spec_with_context(opt_view(s), context@)),
                TorrentError::PeerError { message: m, peer: p, source: s } => r matches
                    TorrentError::PeerError { message: m2, peer: p2, source: s2 } && m2 == m && p2
                    == p && opt_view(s2) == Some(spec_with_context(opt_view(s), context@)),
                TorrentError::StorageError { message: m, path: p, source: s } => r matches
                    TorrentError::StorageError { message: m2, path: p2, source: s2 } && m2 == m
                    && p2 == p && opt_view(s2) == Some(spec_with_context(opt_view(s), context@)),
                TorrentError::CloudStorageError { message: m, provider: p, source: s, is_retryable: rt } => r
                    matches TorrentError::CloudStorageError {
                    message: m2,
                    provider: p2,
                    source: s2,
                    is_retryable: rt2,
                } && m2 == m && p2 == p && rt2 == rt && opt_view(s2) == Some(
                    spec_with_context(opt_view(s), context@),
                ),
                TorrentError::DHTError { message: m, node: n, source: s } => r matches
                    TorrentError::DHTError { message: m2, node: n2, source: s2 } && m2 == m && n2
                    == n && opt_view(s2) == Some(spec_with_context(opt_view(s), context@)),
                TorrentError::NetworkError { message: m, address: a, source: s } => r matches
                    TorrentError::NetworkError { message: m2, address: a2, source: s2 } && m2 == m
                    && a2 == a && opt_view(s2) == Some(spec_with_context(opt_view(s), context@)),
                TorrentError::ConfigError { .. } => r == self,
                TorrentError::ValidationError { .. } => r == self,
            },
    {
        match self {
            TorrentError::ParseError { message, source } => TorrentError::ParseError {
                message,
                source: Some(join_context(source, context)),
            },
            TorrentError::ProtocolError { message, source } => TorrentError::ProtocolError {
                message,
                source: Some(join_context(source, context)),
            },
            TorrentError::PeerError { message, peer, source } => TorrentError::PeerError {
                message,
                peer,
                source: Some(join_context(source, context)),
            },
            TorrentError::StorageError { message, path, source } => TorrentError::StorageError {
                message,
                path,
                source: Some(join_context(source, context)),
            },
            TorrentError::CloudStorageError {
                message,
                provider,
                source,
                is_retryable,
            } => TorrentError::CloudStorageError {
                message,
                provider,
                source: Some(join_context(source, context)),
                is_retryable,
            },
            TorrentError::DHTError { message, node, source } => TorrentError::DHTError {
                message,
                node,
                source: Some(join_context(source, context)),
            },
            TorrentError::NetworkError { message, address, source } => TorrentError::NetworkError {
                message,
                address,
                source: Some(join_context(source, context)),
            },
            TorrentError::ConfigError { message, field } => TorrentError::ConfigError {
                message,
                field,
            },
            TorrentError::ValidationError { message, field } => TorrentError::ValidationError {
                message,
                field,
            },
        }
    }
}

/// The one-line rendering of an error, used by `describe`.
pub open spec fn spec_describe(e: TorrentError) -> Seq<char> {
    match e {
        TorrentError::ParseError { message, source } => "Parse error: "@ + message@
            + spec_suffix_source(opt_view(source)),
        TorrentError::ProtocolError { message, source } => "Protocol error: "@ + message@
            + spec_suffix_source(opt_view(source)),
        TorrentError::PeerError { message, peer, source } => "Peer error: "@ + message@
            + spec_suffix_two("peer: "@, opt_view(peer), "source: "@, opt_view(source)),
        TorrentError::StorageError { message, path, source } => "Storage error: "@ + message@
            + spec_suffix_two("path: "@, opt_view(path), "source: "@, opt_view(source)),
        TorrentError::CloudStorageError { message, provider, source, is_retryable } => (
        if is_retryable {
            "Cloud storage error (retryable): "@
        } else {
            "Cloud storage error: "@
        }) + message@ + " ["@ + provider@ + "]"@ + spec_suffix_source(opt_view(source)),
        TorrentError::DHTError { message, node, source } => "DHT error: "@ + message@
            + spec_suffix_two("node: "@, opt_view(node), "source: "@, opt_view(source)),
        TorrentError::ConfigError { message, field } => "Config error: "@ + message@
            + spec_suffix_one("field: "@, opt_view(field)),
        TorrentError::NetworkError { message, address, source } => "Network error: "@ + message@
            + spec_suffix_two("address: "@, opt_view(address), "source: "@, opt_view(source)),
        TorrentError::ValidationError { message, field } => "Validation error: "@ + message@
            + spec_suffix_one("field: "@, opt_view(field)),
    }
}

/// ` (source: s)` when a source is present, else nothing.
pub open spec fn spec_suffix_source(source: Option<Seq<char>>) -> Seq<char> {
    spec_suffix_one("source: "@, source)
}

/// ` (label v)` when `v` is present, else nothing.
pub open spec fn spec_suffix_one(label: Seq<char>, v: Option<Seq<char>>) -> Seq<char> {
    match v {
        Some(s) => " ("@ + label + s + ")"@,
        None => Seq::empty(),
    }
}

/// The parenthesised tail for two optional labelled values.
pub open spec fn spec_suffix_two(
    label_a: Seq<char>,
    a: Option<Seq<char>>,
    label_b: Seq<char>,
    b: Option<Seq<char>>,
) -> Seq<char> {
    match (a, b) {
        (Some(x), Some(y)) => " ("@ + label_a + x + ", "@ + label_b + y + ")"@,
        (Some(x), None) => " ("@ + label_a + x + ")"@,
        (None, Some(y)) => " ("@ + label_b + y + ")"@,
        (None, None) => Seq::empty(),
    }
}

/// Appends ` (label v)` to `out` when `v` is present.
fn push_suffix_one(out: &mut String, label: &str, v: &Option<String>)
    ensures
        final(out)@ == old(out)@ + spec_suffix_one(label@, opt_view(*v)),
{
    match v {
        Some(s) => {
            out.append(" (");
            out.append(label);
            out.append(s.as_str());
            out.append(")");
        },
        None => {},
    }
}

/// Appends the two-value tail to `out`.
fn push_suffix_two(out: &mut String, label_a: &str, a: &Option<String>, label_b: &str, b: &Option<
    String,
>)
    ensures
        final(out)@ == old(out)@ + spec_suffix_two(label_a@, opt_view(*a), label_b@, opt_view(*b)),
{
    match (a, b) {
        (Some(x), Some(y)) => {
            out.append(" (");
            out.append(label_a);
            out.append(x.as_str());
            out.append(", ");
            out.append(label_b);
            out.append(y.as_str());
            out.append(")");
        },
        (Some(x), None) => {
            out.append(" (");
            out.append(label_a);
            out.append(x.as_str());
            out.append(")");
        },
        (None, Some(y)) => {
            out.append(" (");
            out.append(label_b);
            out.append(y.as_str());
            out.append(")");
        },
        (None, None) => {},
    }
}

impl TorrentError {
    /// One line that names the error class, the message, and the recorded
    /// context.
    pub fn describe(&self) -> (r: String)
        ensures
            r@ == spec_describe(*self),
    {
        match self {
            TorrentError::ParseError { message, source } => {
                let mut out = String::new();
                out.append("Parse error: ");
                out.append(message.as_str());
                push_suffix_one(&mut out, "source: ", source);
                out
            },
            TorrentError::ProtocolError { message, source } => {
                let mut out = String::new();
                out.append("Protocol error: ");
                out.append(message.as_str());
                push_suffix_one(&mut out, "source: ", source);
                out
            },
            TorrentError::PeerError { message, peer, source } => {
                let mut out = String::new();
                out.append("Peer error: ");
                out.append(message.as_str());
                push_suffix_two(&mut out, "peer: ", peer, "source: ", source);
                out
            },
            TorrentError::StorageError { message, path, source } => {
                let mut out = String::new();
                out.append("Storage error: ");
                out.append(message.as_str());
                push_suffix_two(&mut out, "path: ", path, "source: ", source);
                out
            },
            TorrentError::CloudStorageError { message, provider, source, is_retryable } => {
                let mut out = String::new();
                if *is_retryable {
                    out.append("Cloud storage error (retryable): ");
                } else {
                    out.append("Cloud storage error: ");
                }
                out.append(message.as_str());
                out.append(" [");
                out.append(provider.as_str());
                out.append("]");
                push_suffix_one(&mut out, "source: ", source);
                out
            },
            TorrentError::DHTError { message, node, source } => {
                let mut out = String::new();
                out.append("DHT error: ");
                out.append(message.as_str());
                push_suffix_two(&mut out, "node: ", node, "source: ", source);
                out
            },
            TorrentError::ConfigError { message, field } => {
                let mut out = String::new();
                out.append("Config error: ");
                out.append(message.as_str());
                push_suffix_one(&mut out, "field: ", field);
                out
            },
            TorrentError::NetworkError { message, address, source } => {
                let mut out = String::new();
                out.append("Network error: ");
                out.append(message.as_str());
                push_suffix_two(&mut out, "address: ", address, "source: ", source);
                out
            },
            TorrentError::ValidationError { message, field } => {
                let mut out = String::new();
                out.append("Validation error: ");
                out.append(message.as_str());
                push_suffix_one(&mut out, "field: ", field);
                out
            },
        }
    }
}

} // verus!
