//! Magnet link parsing: `magnet:?xt=urn:btih:<hex40>` plus optional display
//! name, trackers, web seeds, exact sources and size.
//!
//! Splitting the URI into query parameters is the url crate's work, behind
//! trusted declarations; everything read out of the parameters is verified.

use vstd::prelude::*;
use vstd::string::StrSliceExecFns;
use url::Url;
use crate::error::TorrentError;
use crate::util;

verus! {

/// The scheme of a parseable URI, a function of the text alone.
pub uninterp spec fn uri_scheme_of(s: Seq<char>) -> Option<Seq<char>>;

/// The decoded query parameters of a parseable URI, in order, a function
/// of the text alone.
pub uninterp spec fn uri_query_pairs_of(s: Seq<char>) -> Seq<(Seq<char>, Seq<char>)>;

/// The views of decoded query parameters.
pub open spec fn spec_pairs_view(pairs: Seq<(String, String)>) -> Seq<(Seq<char>, Seq<char>)> {
    Seq::new(pairs.len(), |i: int| (pairs[i].0@, pairs[i].1@))
}

/// Relies on url::Url::parse and Url::scheme: the scheme of the URI, or
/// nothing where the text is not a URI at all.
#[verifier::external_body]
fn uri_scheme(s: &str) -> (r: Option<String>)
    ensures
        match r {
            Some(scheme) => uri_scheme_of(s@) == Some(scheme@),
            None => uri_scheme_of(s@) is None,
        },
{
    match Url::parse(s) {
        Ok(u) => Some(u.scheme().to_string()),
        Err(_) => None,
    }
}

/// Relies on url::Url::parse and Url::query_pairs: the percent-decoded
/// query parameters, in order. Parsing succeeds exactly when the URI has a
/// scheme at all, since both calls parse the same text.
#[verifier::external_body]
fn uri_query_pairs(s: &str) -> (r: Option<Vec<(String, String)>>)
    ensures
        match r {
            Some(pairs) => uri_scheme_of(s@) is Some && spec_pairs_view(pairs@)
                == uri_query_pairs_of(s@),
            None => uri_scheme_of(s@) is None,
        },
{
    match Url::parse(s) {
        Ok(u) => Some(u.query_pairs().into_owned().collect()),
        Err(_) => None,
    }
}

/// Parsed magnet link information.
#[derive(Debug, Clone)]
pub struct MagnetInfo {
    /// SHA-1 info hash from the magnet link (20 bytes).
    pub info_hash: Vec<u8>,
    /// Display name (`dn` parameter).
    pub display_name: Option<String>,
    /// Tracker URLs (`tr` parameters).
    pub trackers: Vec<String>,
    /// Web seed URLs (`ws` parameters).
    pub web_seeds: Vec<String>,
    /// Exact source URLs (`xs` parameters).
    pub exact_sources: Vec<String>,
    /// Total size in bytes (`xl` parameter).
    pub total_size: Option<u64>,
}

/// The state accumulated while reading parameters, and the content of a
/// finished `MagnetInfo`.
pub struct MagnetSpecState {
    pub info_hash: Option<Seq<u8>>,
    pub display_name: Option<Seq<char>>,
    pub trackers: Seq<Seq<char>>,
    pub web_seeds: Seq<Seq<char>>,
    pub exact_sources: Seq<Seq<char>>,
    pub total_size: Option<u64>,
}

/// The empty starting state.
pub open spec fn spec_magnet_init() -> MagnetSpecState {
    MagnetSpecState {
        info_hash: None,
        display_name: None,
        trackers: Seq::empty(),
        web_seeds: Seq::empty(),
        exact_sources: Seq::empty(),
        total_size: None,
    }
}

/// The characters of `urn:btih:`.
pub open spec fn spec_btih_prefix() -> Seq<char> {
    seq!['u', 'r', 'n', ':', 'b', 't', 'i', 'h', ':']
}

/// What one `xt` parameter contributes: `None` refuses the magnet link;
/// `Some(None)` ignores the parameter; `Some(Some(h))` yields the hash.
pub open spec fn spec_xt_outcome(v: Seq<char>) -> Option<Option<Seq<u8>>> {
    if !(v.len() >= 9 && v.subrange(0, 9) == spec_btih_prefix()) {
        Some(None)
    } else {
        let h = v.skip(9);
        if h.len() == 40 && (forall|i: int| 0 <= i < h.len() ==> util::spec_is_hex_char(
            #[trigger] h[i],
        )) {
            Some(Some(util::spec_hex_bytes(h)))
        } else {
            None
        }
    }
}

/// The value of a decimal size parameter, or nothing where it is empty,
/// holds a non-digit, or exceeds the 64-bit range.
pub open spec fn spec_parse_u64(s: Seq<char>) -> Option<u64> {
    if s.len() > 0 && (forall|i: int| 0 <= i < s.len() ==> 48 <= (#[trigger] s[i]) as u32 <= 57)
        && spec_decimal_val(s) <= u64::MAX {
        Some(spec_decimal_val(s) as u64)
    } else {
        None
    }
}

/// The value of a run of decimal digit characters.
pub open spec fn spec_decimal_val(s: Seq<char>) -> nat
    decreases s.len(),
{
    if s.len() == 0 {
        0
    } else {
        spec_decimal_val(s.drop_last()) * 10 + (if 48 <= s.last() as u32 <= 57 {
            (s.last() as u32 - 48) as nat
        } else {
            0nat
        })
    }
}

/// Folds the query parameters over the state, in order.
pub open spec fn spec_magnet_fold(pairs: Seq<(Seq<char>, Seq<char>)>, st: MagnetSpecState) -> Option<
    MagnetSpecState,
>
    decreases pairs.len(),
{
    if pairs.len() == 0 {
        Some(st)
    } else {
        let key = pairs[0].0;
        let value = pairs[0].1;
        let next = if key == seq!['x', 't'] {
            match spec_xt_outcome(value) {
                None => None,
                Some(None) => Some(st),
                Some(Some(h)) => Some(MagnetSpecState { info_hash: Some(h), ..st }),
            }
        } else if key == seq!['d', 'n'] {
            Some(MagnetSpecState { display_name: Some(value), ..st })
        } else if key == seq!['t', 'r'] {
            Some(MagnetSpecState { trackers: st.trackers.push(value), ..st })
        } else if key == seq!['w', 's'] {
            Some(MagnetSpecState { web_seeds: st.web_seeds.push(value), ..st })
        } else if key == seq!['x', 's'] {
            Some(MagnetSpecState { exact_sources: st.exact_sources.push(value), ..st })
        } else if key == seq!['x', 'l'] {
            match spec_parse_u64(value) {
                Some(n) => Some(MagnetSpecState { total_size: Some(n), ..st }),
                None => Some(st),
            }
        } else {
            Some(st)
        };
        match next {
            Some(st2) => spec_magnet_fold(pairs.drop_first(), st2),
            None => None,
        }
    }
}

/// The views of a list of URL strings.
pub open spec fn spec_urls_view(s: Seq<String>) -> Seq<Seq<char>> {
    Seq::new(s.len(), |i: int| s[i]@)
}

/// Whether `m` carries exactly the content of the folded state `st`.
pub open spec fn spec_magnet_matches(m: &MagnetInfo, st: MagnetSpecState) -> bool {
    &&& st.info_hash == Some(m.info_hash@)
    &&& m.info_hash@.len() == 20
    &&& (match (&m.display_name, st.display_name) {
        (Some(d), Some(sd)) => d@ == sd,
        (None, None) => true,
        _ => false,
    })
    &&& spec_urls_view(m.trackers@) == st.trackers
    &&& spec_urls_view(m.web_seeds@) == st.web_seeds
    &&& spec_urls_view(m.exact_sources@) == st.exact_sources
    &&& m.total_size == st.total_size
}

/// Parser for magnet links.
pub struct MagnetParser;

impl MagnetParser {
    /// Extracts an info hash from one `xt` value: `urn:btih:` followed by
    /// forty hex digits yields the twenty bytes; other URN kinds are
    /// ignored; a `btih` of any other shape refuses the link. The 32-char
    /// base32 form is recognised in the refusal message but not supported.
    pub fn extract_info_hash(xt_value: &str) -> (r: Result<Option<Vec<u8>>, TorrentError>)
        ensures
            match r {
                Ok(Some(h)) => spec_xt_outcome(xt_value@) == Some(Some(h@)) && h@.len() == 20,
                Ok(None) => spec_xt_outcome(xt_value@) == Some(None::<Seq<u8>>),
                Err(e) => spec_xt_outcome(xt_value@) is None && e is ParseError,
            },
    {
        let n = xt_value.unicode_len();
        if n < 9 {
            proof {
                assert(!(xt_value@.len() >= 9 && xt_value@.subrange(0, 9) == spec_btih_prefix()));
            }
            return Ok(None);
        }
        let mut prefix_matches = true;
        if xt_value.get_char(0) != 'u' {
            prefix_matches = false;
        }
        if xt_value.get_char(1) != 'r' {
            prefix_matches = false;
        }
        if xt_value.get_char(2) != 'n' {
            prefix_matches = false;
        }
        if xt_value.get_char(3) != ':' {
            prefix_matches = false;
        }
        if xt_value.get_char(4) != 'b' {
            prefix_matches = false;
        }
        if xt_value.get_char(5) != 't' {
            prefix_matches = false;
        }
        if xt_value.get_char(6) != 'i' {
            prefix_matches = false;
        }
        if xt_value.get_char(7) != 'h' {
            prefix_matches = false;
        }
        if xt_value.get_char(8) != ':' {
            prefix_matches = false;
        }
        if !prefix_matches {
            proof {
                assert(xt_value@.subrange(0, 9) != spec_btih_prefix()) by {
                    if xt_value@.subrange(0, 9) == spec_btih_prefix() {
                        assert(xt_value@.subrange(0, 9)[0] == 'u');
                        assert(xt_value@.subrange(0, 9)[1] == 'r');
                        assert(xt_value@.subrange(0, 9)[2] == 'n');
                        assert(xt_value@.subrange(0, 9)[3] == ':');
                        assert(xt_value@.subrange(0, 9)[4] == 'b');
                        assert(xt_value@.subrange(0, 9)[5] == 't');
                        assert(xt_value@.subrange(0, 9)[6] == 'i');
                        assert(xt_value@.subrange(0, 9)[7] == 'h');
                        assert(xt_value@.subrange(0, 9)[8] == ':');
                    }
                }
            }
            return Ok(None);
        }
        proof {
            assert(xt_value@.subrange(0, 9) =~= spec_btih_prefix());
        }
        let hash_str = xt_value.substring_char(9, n);
        proof {
            assert(hash_str@ == xt_value@.skip(9));
        }
        if hash_str.unicode_len() != 40 {
            return Err(TorrentError::parse_error("Info hash has invalid length"));
        }
        match util::hex_decode(hash_str) {
            Some(bytes) => {
                proof {
                    assert(bytes@.len() == 20);
                }
                Ok(Some(bytes))
            },
            None => Err(TorrentError::parse_error("Info hash is not valid hex")),
        }
    }

    /// Builds a `MagnetInfo` from decoded query parameters: the last
    /// `urn:btih` hash wins, `tr`, `ws` and `xs` accumulate in order, the
    /// last `dn` and parseable `xl` win, and unknown parameters are
    /// ignored. Fails exactly when a `btih` hash is malformed or no hash
    /// is present at all.
    pub fn magnet_from_pairs(pairs: &Vec<(String, String)>) -> (r: Result<
        MagnetInfo,
        TorrentError,
    >)
        ensures
            match r {
                Ok(m) => spec_magnet_fold(spec_pairs_view(pairs@), spec_magnet_init()) matches Some(
                    st,
                ) && st.info_hash is Some && spec_magnet_matches(&m, st),
                Err(e) => e is ParseError && (spec_magnet_fold(
                    spec_pairs_view(pairs@),
                    spec_magnet_init(),
                ) is None || (spec_magnet_fold(spec_pairs_view(pairs@), spec_magnet_init())
                    matches Some(st) && st.info_hash is None)),
            },
    {
        let key_xt = String::from_str("xt");
        let key_dn = String::from_str("dn");
        let key_tr = String::from_str("tr");
        let key_ws = String::from_str("ws");
        let key_xs = String::from_str("xs");
        let key_xl = String::from_str("xl");
        proof {
            reveal_strlit("xt");
            reveal_strlit("dn");
            reveal_strlit("tr");
            reveal_strlit("ws");
            reveal_strlit("xs");
            reveal_strlit("xl");
            assert(key_xt@ =~= seq!['x', 't']);
            assert(key_dn@ =~= seq!['d', 'n']);
            assert(key_tr@ =~= seq!['t', 'r']);
            assert(key_ws@ =~= seq!['w', 's']);
            assert(key_xs@ =~= seq!['x', 's']);
            assert(key_xl@ =~= seq!['x', 'l']);
        }
        let mut info_hash: Option<Vec<u8>> = None;
        let mut display_name: Option<String> = None;
        let mut trackers: Vec<String> = Vec::new();
        let mut web_seeds: Vec<String> = Vec::new();
        let mut exact_sources: Vec<String> = Vec::new();
        let mut total_size: Option<u64> = None;
        let ghost all = spec_pairs_view(pairs@);
        proof {
            assert(all.skip(0) =~= all);
            assert(spec_urls_view(trackers@) =~= Seq::<Seq<char>>::empty());
            assert(spec_urls_view(web_seeds@) =~= Seq::<Seq<char>>::empty());
            assert(spec_urls_view(exact_sources@) =~= Seq::<Seq<char>>::empty());
        }
        let mut k: usize = 0;
        while k < pairs.len()
            invariant
                k <= pairs@.len(),
                all == spec_pairs_view(pairs@),
                all.len() == pairs@.len(),
                key_xt@ == seq!['x', 't'],
                key_dn@ == seq!['d', 'n'],
                key_tr@ == seq!['t', 'r'],
                key_ws@ == seq!['w', 's'],
                key_xs@ == seq!['x', 's'],
                key_xl@ == seq!['x', 'l'],
                spec_magnet_fold(all, spec_magnet_init()) == spec_magnet_fold(
                    all.skip(k as int),
                    MagnetSpecState {
                        info_hash: match &info_hash {
                            Some(h) => Some(h@),
                            None => None,
                        },
                        display_name: match &display_name {
                            Some(d) => Some(d@),
                            None => None,
                        },
                        trackers: spec_urls_view(trackers@),
                        web_seeds: spec_urls_view(web_seeds@),
                        exact_sources: spec_urls_view(exact_sources@),
                        total_size: total_size,
                    },
                ),
                info_hash matches Some(h) ==> h@.len() == 20,
            decreases pairs@.len() - k,
        {
            let ghost st_before = MagnetSpecState {
                info_hash: match &info_hash {
                    Some(h) => Some(h@),
                    None => None,
                },
                display_name: match &display_name {
                    Some(d) => Some(d@),
                    None => None,
                },
                trackers: spec_urls_view(trackers@),
                web_seeds: spec_urls_view(web_seeds@),
                exact_sources: spec_urls_view(exact_sources@),
                total_size: total_size,
            };
            proof {
                let s = all.skip(k as int);
                assert(s[0] == all[k as int]);
                assert(all[k as int] == (pairs@[k as int].0@, pairs@[k as int].1@));
                assert(s.drop_first() =~= all.skip(k + 1));
            }
            let key = &pairs[k].0;
            let value = &pairs[k].1;
            if *key == key_xt {
                match Self::extract_info_hash(value.as_str()) {
                    Ok(Some(h)) => {
                        info_hash = Some(h);
                    },
                    Ok(None) => {},
                    Err(e) => {
                        proof {
                            assert(spec_magnet_fold(all.skip(k as int), st_before) is None);
                        }
                        return Err(e);
                    },
                }
            } else if *key == key_dn {
                display_name = Some(value.clone());
            } else if *key == key_tr {
                trackers.push(value.clone());
                proof {
                    assert(spec_urls_view(trackers@) =~= st_before.trackers.push(
                        pairs@[k as int].1@,
                    ));
                }
            } else if *key == key_ws {
                web_seeds.push(value.clone());
                proof {
                    assert(spec_urls_view(web_seeds@) =~= st_before.web_seeds.push(
                        pairs@[k as int].1@,
                    ));
                }
            } else if *key == key_xs {
                exact_sources.push(value.clone());
                proof {
                    assert(spec_urls_view(exact_sources@) =~= st_before.exact_sources.push(
                        pairs@[k as int].1@,
                    ));
                }
            } else if *key == key_xl {
                match parse_u64_decimal(value.as_str()) {
                    Some(n) => {
                        total_size = Some(n);
                    },
                    None => {},
                }
            } else {
            }
            k = k + 1;
        }
        proof {
            assert(all.skip(pairs@.len() as int) =~= Seq::<(Seq<char>, Seq<char>)>::empty());
        }
        match info_hash {
            Some(h) => Ok(
                MagnetInfo {
                    info_hash: h,
                    display_name,
                    trackers,
                    web_seeds,
                    exact_sources,
                    total_size,
                },
            ),
            None => Err(
                TorrentError::parse_error(
                    "Magnet link must contain an info hash (xt=urn:btih:<hash>)",
                ),
            ),
        }
    }

    /// Parses a magnet link, failing exactly when the text is not a URI,
    /// its scheme is not `magnet`, a `btih` hash among its parameters is
    /// malformed, or no parameter yields an info hash at all.
    pub fn parse(magnet_uri: &str) -> (r: Result<MagnetInfo, TorrentError>)
        ensures
            match r {
                Ok(m) => uri_scheme_of(magnet_uri@) == Some("magnet"@) && (spec_magnet_fold(
                    uri_query_pairs_of(magnet_uri@),
                    spec_magnet_init(),
                ) matches Some(st) && st.info_hash is Some && spec_magnet_matches(&m, st)),
                Err(e) => e is ParseError && (uri_scheme_of(magnet_uri@) != Some("magnet"@)
                    || spec_magnet_fold(
                    uri_query_pairs_of(magnet_uri@),
                    spec_magnet_init(),
                ) is None || (spec_magnet_fold(
                    uri_query_pairs_of(magnet_uri@),
                    spec_magnet_init(),
                ) matches Some(st) && st.info_hash is None)),
            },
    {
        let magnet = String::from_str("magnet");
        let scheme = match uri_scheme(magnet_uri) {
            Some(s) => s,
            None => {
                return Err(TorrentError::parse_error("Invalid magnet URL format"));
            },
        };
        if !(scheme == magnet) {
            return Err(TorrentError::parse_error("URL is not a magnet link"));
        }
        proof {
            reveal_strlit("magnet");
        }
        let pairs = match uri_query_pairs(magnet_uri) {
            Some(p) => p,
            None => {
                return Err(TorrentError::parse_error("Invalid magnet URL format"));
            },
        };
        Self::magnet_from_pairs(&pairs)
    }

    /// Whether the trimmed input begins with `magnet:?` or `magnet://`.
    pub fn is_magnet_link(input: &str) -> (r: bool)
        ensures
            r == spec_is_magnet_text(input@),
    {
        let n = input.unicode_len();
        let mut a: usize = 0;
        while a < n && is_ascii_space(input.get_char(a))
            invariant
                a <= n,
                n == input@.len(),
                forall|i: int| 0 <= i < a ==> spec_is_space(#[trigger] input@[i]),
                spec_first_non_space(input@, a as int) == spec_first_non_space(input@, 0),
            decreases n - a,
        {
            a = a + 1;
        }
        proof {
            assert(spec_first_non_space(input@, a as int) == a);
        }
        if n - a < 8 {
            return false;
        }
        let mut matches_prefix = true;
        if input.get_char(a) != 'm' {
            matches_prefix = false;
        }
        if matches_prefix && input.get_char(a + 1) != 'a' {
            matches_prefix = false;
        }
        if matches_prefix && input.get_char(a + 2) != 'g' {
            matches_prefix = false;
        }
        if matches_prefix && input.get_char(a + 3) != 'n' {
            matches_prefix = false;
        }
        if matches_prefix && input.get_char(a + 4) != 'e' {
            matches_prefix = false;
        }
        if matches_prefix && input.get_char(a + 5) != 't' {
            matches_prefix = false;
        }
        if matches_prefix && input.get_char(a + 6) != ':' {
            matches_prefix = false;
        }
        if !matches_prefix {
            proof {
                lemma_prefix_mismatch(input@, a as int);
            }
            return false;
        }
        let tail = input.get_char(a + 7);
        let r = tail == '?' || (tail == '/' && a + 8 < n && input.get_char(a + 8) == '/');
        proof {
            assert(input@.subrange(a as int, a + 7) =~= seq!['m', 'a', 'g', 'n', 'e', 't', ':']);
        }
        r
    }
}

/// Whether `c` is an ASCII whitespace character.
pub open spec fn spec_is_space(c: char) -> bool {
    c == ' ' || c == '\t' || c == '\n' || c == '\r'
}

/// Reads whether `c` is an ASCII whitespace character.
fn is_ascii_space(c: char) -> (r: bool)
    ensures
        r == spec_is_space(c),
{
    c == ' ' || c == '\t' || c == '\n' || c == '\r'
}

/// The first position at or after `i` that holds a non-space character.
pub open spec fn spec_first_non_space(s: Seq<char>, i: int) -> int
    decreases s.len() - i,
{
    if 0 <= i < s.len() && spec_is_space(s[i]) {
        spec_first_non_space(s, i + 1)
    } else {
        i
    }
}

/// Whether the input, ignoring leading ASCII whitespace, begins with
/// `magnet:?` or `magnet://`.
pub open spec fn spec_is_magnet_text(s: Seq<char>) -> bool {
    let a = spec_first_non_space(s, 0);
    &&& s.len() - a >= 8
    &&& s.subrange(a, a + 7) == seq!['m', 'a', 'g', 'n', 'e', 't', ':']
    &&& (s[a + 7] == '?' || (s[a + 7] == '/' && s.len() - a >= 9 && s[a + 8] == '/'))
}

/// A character mismatch in the first seven positions refutes the prefix.
proof fn lemma_prefix_mismatch(s: Seq<char>, a: int)
    requires
        0 <= a,
        s.len() - a >= 8,
        !(s[a] == 'm' && s[a + 1] == 'a' && s[a + 2] == 'g' && s[a + 3] == 'n' && s[a + 4] == 'e'
            && s[a + 5] == 't' && s[a + 6] == ':'),
    ensures
        s.subrange(a, a + 7) != seq!['m', 'a', 'g', 'n', 'e', 't', ':'],
{
    if s.subrange(a, a + 7) == seq!['m', 'a', 'g', 'n', 'e', 't', ':'] {
        assert(s.subrange(a, a + 7)[0] == 'm');
        assert(s.subrange(a, a + 7)[1] == 'a');
        assert(s.subrange(a, a + 7)[2] == 'g');
        assert(s.subrange(a, a + 7)[3] == 'n');
        assert(s.subrange(a, a + 7)[4] == 'e');
        assert(s.subrange(a, a + 7)[5] == 't');
        assert(s.subrange(a, a + 7)[6] == ':');
    }
}

/// Parses a decimal `u64`, refusing empty input, non-digits and overflow.
fn parse_u64_decimal(s: &str) -> (r: Option<u64>)
    ensures
        r == spec_parse_u64(s@),
{
    let n = s.unicode_len();
    if n == 0 {
        return None;
    }
    let mut acc: u128 = 0;
    let mut k: usize = 0;
    while k < n
        invariant
            k <= n,
            n == s@.len(),
            forall|i: int| 0 <= i < k ==> 48 <= (#[trigger] s@[i]) as u32 <= 57,
            acc == spec_decimal_val(s@.take(k as int)),
            acc <= u64::MAX,
        decreases n - k,
    {
        let c = s.get_char(k);
        let code = c as u32;
        if code < 48 || code > 57 {
            proof {
                assert(!(48 <= (s@[k as int]) as u32 <= 57));
            }
            return None;
        }
        proof {
            assert(s@.take(k + 1).drop_last() =~= s@.take(k as int));
            assert(s@.take(k + 1).last() == s@[k as int]);
        }
        acc = acc * 10 + ((code - 48) as u128);
        if acc > 0xFFFFFFFFFFFFFFFFu128 {
            proof {
                lemma_decimal_val_mono(s@, k + 1, s@.len() as int);
                assert(s@.take(s@.len() as int) == s@);
                assert(spec_decimal_val(s@) > u64::MAX);
            }
            return None;
        }
        k = k + 1;
    }
    proof {
        assert(s@.take(n as int) == s@);
    }
    Some(acc as u64)
}

/// A longer digit run never has a smaller value.
proof fn lemma_decimal_val_mono(s: Seq<char>, j1: int, j2: int)
    requires
        0 <= j1 <= j2 <= s.len(),
    ensures
        spec_decimal_val(s.take(j2)) >= spec_decimal_val(s.take(j1)),
    decreases j2 - j1,
{
    if j2 > j1 {
        lemma_decimal_val_mono(s, j1, j2 - 1);
        assert(s.take(j2).drop_last() =~= s.take(j2 - 1));
    }
}

} // verus!
