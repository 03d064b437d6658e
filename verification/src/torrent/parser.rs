//! The torrent file parser: bencode in, `TorrentInfo` out.
//!
//! The info-hash is computed over the raw byte range of the `info` key's
//! value in the original input, never over a re-encoding, so torrents with
//! non-canonical quirks keep their identity.

use vstd::prelude::*;
use crate::bencode::{
    BencodeValue, BencodeSpecValue, BencodeSpecEntry, DictEntry, view_entries, lemma_view_entries,
    spec_parse_value,
};
use crate::error::TorrentError;
use crate::sha::sha1_of;
use crate::torrent::info::{TorrentInfo, TorrentFile, TorrentFileSpec, spec_files_view,
    spec_strings_view};
use crate::util;

verus! {

/// The bytes of the `announce` key.
pub open spec fn spec_key_announce() -> Seq<u8> {
    seq![97, 110, 110, 111, 117, 110, 99, 101u8]
}

/// The bytes of the `announce` key, as a vector.
fn key_announce() -> (r: Vec<u8>)
    ensures
        r@ == spec_key_announce(),
{
    let mut out: Vec<u8> = Vec::new();
    out.push(97);
    out.push(110);
    out.push(110);
    out.push(111);
    out.push(117);
    out.push(110);
    out.push(99);
    out.push(101);
    assert(out@ =~= spec_key_announce());
    out
}

/// The bytes of the `announce-list` key.
pub open spec fn spec_key_announce_list() -> Seq<u8> {
    seq![97, 110, 110, 111, 117, 110, 99, 101, 45, 108, 105, 115, 116u8]
}

/// The bytes of the `announce-list` key, as a vector.
fn key_announce_list() -> (r: Vec<u8>)
    ensures
        r@ == spec_key_announce_list(),
{
    let mut out: Vec<u8> = Vec::new();
    out.push(97);
    out.push(110);
    out.push(110);
    out.push(111);
    out.push(117);
    out.push(110);
    out.push(99);
    out.push(101);
    out.push(45);
    out.push(108);
    out.push(105);
    out.push(115);
    out.push(116);
    assert(out@ =~= spec_key_announce_list());
    out
}

/// The bytes of the `info` key.
pub open spec fn spec_key_info() -> Seq<u8> {
    seq![105, 110, 102, 111u8]
}

/// The bytes of the `info` key, as a vector.
fn key_info() -> (r: Vec<u8>)
    ensures
        r@ == spec_key_info(),
{
    let mut out: Vec<u8> = Vec::new();
    out.push(105);
    out.push(110);
    out.push(102);
    out.push(111);
    assert(out@ =~= spec_key_info());
    out
}

/// The bytes of the `name` key.
pub open spec fn spec_key_name() -> Seq<u8> {
    seq![110, 97, 109, 101u8]
}

/// The bytes of the `name` key, as a vector.
fn key_name() -> (r: Vec<u8>)
    ensures
        r@ == spec_key_name(),
{
    let mut out: Vec<u8> = Vec::new();
    out.push(110);
    out.push(97);
    out.push(109);
    out.push(101);
    assert(out@ =~= spec_key_name());
    out
}

/// The bytes of the `piece length` key.
pub open spec fn spec_key_piece_length() -> Seq<u8> {
    seq![112, 105, 101, 99, 101, 32, 108, 101, 110, 103, 116, 104u8]
}

/// The bytes of the `piece length` key, as a vector.
fn key_piece_length() -> (r: Vec<u8>)
    ensures
        r@ == spec_key_piece_length(),
{
    let mut out: Vec<u8> = Vec::new();
    out.push(112);
    out.push(105);
    out.push(101);
    out.push(99);
    out.push(101);
    out.push(32);
    out.push(108);
    out.push(101);
    out.push(110);
    out.push(103);
    out.push(116);
    out.push(104);
    assert(out@ =~= spec_key_piece_length());
    out
}

/// The bytes of the `pieces` key.
pub open spec fn spec_key_pieces() -> Seq<u8> {
    seq![112, 105, 101, 99, 101, 115u8]
}

/// The bytes of the `pieces` key, as a vector.
fn key_pieces() -> (r: Vec<u8>)
    ensures
        r@ == spec_key_pieces(),
{
    let mut out: Vec<u8> = Vec::new();
    out.push(112);
    out.push(105);
    out.push(101);
    out.push(99);
    out.push(101);
    out.push(115);
    assert(out@ =~= spec_key_pieces());
    out
}

/// The bytes of the `length` key.
pub open spec fn spec_key_length() -> Seq<u8> {
    seq![108, 101, 110, 103, 116, 104u8]
}

/// The bytes of the `length` key, as a vector.
fn key_length() -> (r: Vec<u8>)
    ensures
        r@ == spec_key_length(),
{
    let mut out: Vec<u8> = Vec::new();
    out.push(108);
    out.push(101);
    out.push(110);
    out.push(103);
    out.push(116);
    out.push(104);
    assert(out@ =~= spec_key_length());
    out
}

/// The bytes of the `files` key.
pub open spec fn spec_key_files() -> Seq<u8> {
    seq![102, 105, 108, 101, 115u8]
}

/// The bytes of the `files` key, as a vector.
fn key_files() -> (r: Vec<u8>)
    ensures
        r@ == spec_key_files(),
{
    let mut out: Vec<u8> = Vec::new();
    out.push(102);
    out.push(105);
    out.push(108);
    out.push(101);
    out.push(115);
    assert(out@ =~= spec_key_files());
    out
}

/// The bytes of the `path` key.
pub open spec fn spec_key_path() -> Seq<u8> {
    seq![112, 97, 116, 104u8]
}

/// The bytes of the `path` key, as a vector.
fn key_path() -> (r: Vec<u8>)
    ensures
        r@ == spec_key_path(),
{
    let mut out: Vec<u8> = Vec::new();
    out.push(112);
    out.push(97);
    out.push(116);
    out.push(104);
    assert(out@ =~= spec_key_path());
    out
}

/// The value of the first entry for `key`, or nothing.
pub open spec fn spec_dict_get(d: Seq<BencodeSpecEntry>, key: Seq<u8>) -> Option<BencodeSpecValue>
    decreases d,
{
    if d.len() == 0 {
        None
    } else if d[0].key == key {
        Some(d[0].value)
    } else {
        spec_dict_get(d.drop_first(), key)
    }
}

/// Looks `key` up among `entries`, first occurrence first.
pub fn dict_get<'a>(entries: &'a Vec<DictEntry>, key: &[u8]) -> (r: Option<&'a BencodeValue>)
    ensures
        match r {
            Some(v) => spec_dict_get(view_entries(entries@), key@) == Some(v@),
            None => spec_dict_get(view_entries(entries@), key@) is None,
        },
{
    proof {
        lemma_view_entries(entries@);
        assert(view_entries(entries@).skip(0) =~= view_entries(entries@));
    }
    let mut k: usize = 0;
    while k < entries.len()
        invariant
            k <= entries@.len(),
            view_entries(entries@).len() == entries@.len(),
            forall|i: int| 0 <= i < entries@.len() ==> view_entries(entries@)[i] == #[trigger]
                entries@[i]@,
            spec_dict_get(view_entries(entries@), key@) == spec_dict_get(
                view_entries(entries@).skip(k as int),
                key@,
            ),
        decreases entries@.len() - k,
    {
        if crate::protocol::wire::bytes_eq(entries[k].key.as_slice(), key) {
            proof {
                let s = view_entries(entries@).skip(k as int);
                assert(view_entries(entries@)[k as int] == entries@[k as int]@);
                assert(s[0] == view_entries(entries@)[k as int]);
                assert(s[0].key == key@);
            }
            return Some(&entries[k].value);
        }
        proof {
            let s = view_entries(entries@).skip(k as int);
            assert(view_entries(entries@)[k as int] == entries@[k as int]@);
            assert(s[0] == view_entries(entries@)[k as int]);
            assert(s[0].key != key@);
            assert(s.drop_first() =~= view_entries(entries@).skip(k + 1));
        }
        k = k + 1;
    }
    proof {
        assert(view_entries(entries@).skip(entries@.len() as int)
            =~= Seq::<BencodeSpecEntry>::empty());
    }
    None
}

/// Adds a tracker URL unless it is already present.
pub open spec fn spec_add_url(acc: Seq<Seq<char>>, u: BencodeSpecValue) -> Seq<Seq<char>> {
    match u {
        BencodeSpecValue::Bytes(b) => if acc.contains(util::utf8_lossy_of(b)) {
            acc
        } else {
            acc.push(util::utf8_lossy_of(b))
        },
        _ => acc,
    }
}

/// Adds every byte-string URL of one tier, in order.
pub open spec fn spec_add_urls(acc: Seq<Seq<char>>, urls: Seq<BencodeSpecValue>) -> Seq<Seq<char>>
    decreases urls,
{
    if urls.len() == 0 {
        acc
    } else {
        spec_add_urls(spec_add_url(acc, urls[0]), urls.drop_first())
    }
}

/// Adds every tier of the `announce-list`, in order; entries that are not
/// lists are ignored.
pub open spec fn spec_add_tiers(acc: Seq<Seq<char>>, tiers: Seq<BencodeSpecValue>) -> Seq<
    Seq<char>,
>
    decreases tiers,
{
    if tiers.len() == 0 {
        acc
    } else {
        match tiers[0] {
            BencodeSpecValue::List(urls) => spec_add_tiers(
                spec_add_urls(acc, urls),
                tiers.drop_first(),
            ),
            _ => spec_add_tiers(acc, tiers.drop_first()),
        }
    }
}

/// The deduplicated announce URLs: the primary first, then the tiers.
pub open spec fn spec_announce_urls(base: Seq<char>, root: Seq<BencodeSpecEntry>) -> Seq<
    Seq<char>,
> {
    match spec_dict_get(root, spec_key_announce_list()) {
        Some(BencodeSpecValue::List(tiers)) => spec_add_tiers(seq![base], tiers),
        _ => seq![base],
    }
}

/// The path components read from a `path` list; entries that are not byte
/// strings are ignored.
pub open spec fn spec_paths_of(pcs: Seq<BencodeSpecValue>) -> Seq<Seq<char>>
    decreases pcs,
{
    if pcs.len() == 0 {
        Seq::empty()
    } else {
        (match pcs[0] {
            BencodeSpecValue::Bytes(b) => seq![util::utf8_lossy_of(b)],
            _ => Seq::empty(),
        }) + spec_paths_of(pcs.drop_first())
    }
}

/// The files read from a `files` list. Entries that are not dictionaries
/// are skipped; a file dictionary without a non-negative integer `length`
/// and a `path` list refuses the whole torrent.
pub open spec fn spec_files_of(fl: Seq<BencodeSpecValue>) -> Option<Seq<TorrentFileSpec>>
    decreases fl,
{
    if fl.len() == 0 {
        Some(Seq::empty())
    } else {
        match fl[0] {
            BencodeSpecValue::Dict(fd) => match (
                spec_dict_get(fd, spec_key_length()),
                spec_dict_get(fd, spec_key_path()),
            ) {
                (Some(BencodeSpecValue::Int(l)), Some(BencodeSpecValue::List(pcs))) => if 0 <= l
                    <= u64::MAX {
                    match spec_files_of(fl.drop_first()) {
                        Some(rest) => Some(
                            seq![
                                TorrentFileSpec { path: spec_paths_of(pcs), length: l as u64 },
                            ] + rest,
                        ),
                        None => None,
                    }
                } else {
                    None
                },
                _ => None,
            },
            _ => spec_files_of(fl.drop_first()),
        }
    }
}

/// The walk `locate_info_value` makes over the root dictionary's entries
/// from position `i`: parse a byte-string key and its value, stop at the
/// first `info` key whose value is a dictionary, and yield that value's
/// byte range. `fuel` bounds the nesting depth, exactly as in the bencode
/// parser.
pub open spec fn spec_locate_info(data: Seq<u8>, i: nat, fuel: nat) -> Option<(int, int)>
    decreases fuel, data.len() - i,
{
    if fuel == 0 || i >= data.len() {
        None
    } else if data[i as int] == 101 {
        None
    } else {
        match spec_parse_value(data, i, fuel) {
            Some((k, j)) => if i < j && j <= data.len() && k is Bytes {
                match spec_parse_value(data, j, fuel) {
                    Some((v, j2)) => if j < j2 && j2 <= data.len() {
                        if k == BencodeSpecValue::Bytes(spec_key_info()) && v is Dict {
                            Some((j as int, j2 as int))
                        } else {
                            spec_locate_info(data, j2, fuel)
                        }
                    } else {
                        None
                    },
                    None => None,
                }
            } else {
                None
            },
            None => None,
        }
    }
}

/// The byte range of the top-level `info` key's dictionary value, or
/// nothing where the input does not begin with a dictionary that holds
/// one.
pub open spec fn spec_info_range(data: Seq<u8>) -> Option<(int, int)> {
    if data.len() > 0 && data[0] == 100 {
        spec_locate_info(data, 1, (data.len() + 1) as nat)
    } else {
        None
    }
}

/// Everything `convert_to_torrent_info` promises of a produced torrent:
/// each field is the exact reading of the root dictionary, and the
/// info-hash is the digest of an `info` value's raw byte range.
pub open spec fn spec_torrent_from(
    root: Seq<BencodeSpecEntry>,
    data: Seq<u8>,
    t: &TorrentInfo,
) -> bool {
    &&& (spec_dict_get(root, spec_key_announce()) matches Some(BencodeSpecValue::Bytes(ab))
        && t.announce@ == util::utf8_lossy_of(ab))
    &&& spec_strings_view(t.announce_list@) == spec_announce_urls(t.announce@, root)
    &&& (spec_dict_get(root, spec_key_info()) matches Some(BencodeSpecValue::Dict(info)) && {
        &&& (spec_dict_get(info, spec_key_name()) matches Some(BencodeSpecValue::Bytes(nb))
            && t.name@ == util::utf8_lossy_of(nb))
        &&& (spec_dict_get(info, spec_key_piece_length()) matches Some(
            BencodeSpecValue::Int(pl),
        ) && 0 <= pl && t.piece_length == pl)
        &&& (spec_dict_get(info, spec_key_pieces()) matches Some(BencodeSpecValue::Bytes(pb)) && {
            &&& pb.len() % 20 == 0
            &&& t.pieces@.len() == pb.len() / 20
            &&& forall|i: int|
                0 <= i < t.pieces@.len() ==> (#[trigger] t.pieces@[i])@ == pb.subrange(
                    i * 20,
                    i * 20 + 20,
                )
        })
        &&& (match spec_dict_get(info, spec_key_length()) {
            Some(lv) => lv matches BencodeSpecValue::Int(l) && 0 <= l && t.length == Some(
                l as u64,
            ) && t.files is None,
            None => {
                &&& t.length is None
                &&& (spec_dict_get(info, spec_key_files()) matches Some(
                    BencodeSpecValue::List(fl),
                ) && spec_files_of(fl) matches Some(fs) && t.files matches Some(tfs)
                    && spec_files_view(tfs@) == fs)
            },
        })
    })
    &&& (spec_info_range(data) matches Some((s, e)) && 0 <= s <= e <= data.len()
        && t.info_hash@ == sha1_of(data.subrange(s, e)))
    &&& t.info_hash@.len() == 20
}

/// Whether a parsed root value and the original bytes satisfy the torrent
/// grammar: the exact conditions under which `convert_to_torrent_info`
/// succeeds.
pub open spec fn spec_torrent_parseable(parsed: BencodeSpecValue, data: Seq<u8>) -> bool {
    &&& parsed matches BencodeSpecValue::Dict(root) && ({
        &&& (spec_dict_get(root, spec_key_announce()) matches Some(BencodeSpecValue::Bytes(ab)))
        &&& (spec_dict_get(root, spec_key_info()) matches Some(BencodeSpecValue::Dict(info)) && {
            &&& (spec_dict_get(info, spec_key_name()) matches Some(BencodeSpecValue::Bytes(nb)))
            &&& (spec_dict_get(info, spec_key_piece_length()) matches Some(
                BencodeSpecValue::Int(pl),
            ) && 0 <= pl)
            &&& (spec_dict_get(info, spec_key_pieces()) matches Some(
                BencodeSpecValue::Bytes(pb),
            ) && pb.len() % 20 == 0)
            &&& (match spec_dict_get(info, spec_key_length()) {
                Some(lv) => lv matches BencodeSpecValue::Int(l) && 0 <= l,
                None => spec_dict_get(info, spec_key_files()) matches Some(
                    BencodeSpecValue::List(fl),
                ) && spec_files_of(fl) is Some,
            })
        })
        &&& spec_info_range(data) is Some
    })
}

/// Parser for torrent metainfo.
pub struct TorrentParser;

impl TorrentParser {
    /// Parses the bencode value at `*idx`, leaving `*idx` just past it.
    pub fn parse_value(data: &[u8], idx: &mut usize) -> (r: Result<BencodeValue, TorrentError>)
        ensures
            match r {
                Ok(v) => *old(idx) < *final(idx) <= data@.len() && forall|f: nat|
                    f >= data@.len() - *old(idx) + 1 ==> spec_parse_value(
                        data@,
                        *old(idx) as nat,
                        f,
                    ) == Some((v@, *final(idx) as nat)),
                Err(e) => e is ParseError && forall|f: nat|
                    f >= data@.len() - *old(idx) + 1 ==> spec_parse_value(
                        data@,
                        *old(idx) as nat,
                        f,
                    ) is None,
            },
    {
        crate::bencode::parse_value(data, idx)
    }

    /// Parses a whole buffer as one bencode value; bytes after the value
    /// are tolerated and ignored.
    pub fn parse_bencode(data: &[u8]) -> (r: Result<BencodeValue, TorrentError>)
        ensures
            match r {
                Ok(v) => spec_parse_value(data@, 0, (data@.len() + 1) as nat) matches Some((sv, j))
                    && sv == v@,
                Err(e) => e is ParseError && spec_parse_value(
                    data@,
                    0,
                    (data@.len() + 1) as nat,
                ) is None,
            },
    {
        let mut idx: usize = 0;
        let value = crate::bencode::parse_value(data, &mut idx)?;
        Ok(value)
    }

    /// Finds the byte range of the top-level `info` key's value: walks the
    /// root dictionary's entries and returns the span of the first
    /// dictionary value that follows an `info` key, or nothing where the
    /// walk finds none.
    pub fn locate_info_value(data: &[u8]) -> (r: Option<(usize, usize)>)
        ensures
            match r {
                Some((s, e)) => s <= e <= data@.len() && spec_info_range(data@) == Some(
                    (s as int, e as int),
                ),
                None => spec_info_range(data@) is None,
            },
    {
        if data.len() == 0 || data[0] != 100 {
            return None;
        }
        let mut idx: usize = 1;
        loop
            invariant
                0 < idx <= data@.len(),
                data@.len() == data.len(),
                data@.len() > 0 && data@[0] == 100,
                forall|f: nat|
                    f >= data@.len() ==> spec_locate_info(data@, 1, f) == spec_locate_info(
                        data@,
                        idx as nat,
                        f,
                    ),
            decreases data@.len() - idx,
        {
            if idx >= data.len() {
                proof {
                    assert(spec_locate_info(data@, 1, (data@.len() + 1) as nat) is None);
                }
                return None;
            }
            if data[idx] == 101 {
                proof {
                    assert(spec_locate_info(data@, 1, (data@.len() + 1) as nat) is None);
                }
                return None;
            }
            let ghost cur = idx as nat;
            let key = match crate::bencode::parse_value(data, &mut idx) {
                Ok(BencodeValue::Bytes(kb)) => kb,
                Ok(other) => {
                    proof {
                        let ghost j = idx as nat;
                        assert forall|f: nat|
                            f >= data@.len() implies spec_locate_info(
                            data@,
                            cur,
                            f,
                        ) is None by {
                            assert(spec_parse_value(data@, cur, f) == Some((other@, j)));
                            assert(!(other@ is Bytes));
                        }
                        assert(spec_locate_info(data@, 1, (data@.len() + 1) as nat) is None);
                    }
                    return None;
                },
                Err(_) => {
                    proof {
                        assert forall|f: nat|
                            f >= data@.len() implies spec_locate_info(
                            data@,
                            cur,
                            f,
                        ) is None by {
                            assert(spec_parse_value(data@, cur, f) is None);
                        }
                        assert(spec_locate_info(data@, 1, (data@.len() + 1) as nat) is None);
                    }
                    return None;
                },
            };
            let value_start = idx;
            let value = match crate::bencode::parse_value(data, &mut idx) {
                Ok(v) => v,
                Err(_) => {
                    proof {
                        let ghost j = value_start as nat;
                        assert forall|f: nat|
                            f >= data@.len() implies spec_locate_info(
                            data@,
                            cur,
                            f,
                        ) is None by {
                            assert(spec_parse_value(data@, cur, f) == Some((
                                BencodeSpecValue::Bytes(key@),
                                j,
                            )));
                            assert(spec_parse_value(data@, j, f) is None);
                        }
                        assert(spec_locate_info(data@, 1, (data@.len() + 1) as nat) is None);
                    }
                    return None;
                },
            };
            let expected = key_info();
            let is_info = crate::protocol::wire::bytes_eq(key.as_slice(), expected.as_slice());
            let is_dict = match &value {
                BencodeValue::Dict(_) => true,
                _ => false,
            };
            if is_info && is_dict {
                proof {
                    let ghost j = value_start as nat;
                    let ghost j2 = idx as nat;
                    assert forall|f: nat|
                        f >= data@.len() implies spec_locate_info(data@, cur, f) == Some(
                        (value_start as int, idx as int),
                    ) by {
                        assert(spec_parse_value(data@, cur, f) == Some((
                            BencodeSpecValue::Bytes(key@),
                            j,
                        )));
                        assert(spec_parse_value(data@, j, f) == Some((value@, j2)));
                        assert(key@ == spec_key_info());
                        assert(value@ is Dict);
                    }
                    assert(spec_locate_info(data@, 1, (data@.len() + 1) as nat) == Some((
                        value_start as int,
                        idx as int,
                    )));
                }
                return Some((value_start, idx));
            }
            proof {
                let ghost j = value_start as nat;
                let ghost j2 = idx as nat;
                assert forall|f: nat|
                    f >= data@.len() implies spec_locate_info(data@, 1, f) == spec_locate_info(
                    data@,
                    idx as nat,
                    f,
                ) by {
                    assert(spec_parse_value(data@, cur, f) == Some((
                        BencodeSpecValue::Bytes(key@),
                        j,
                    )));
                    assert(spec_parse_value(data@, j, f) == Some((value@, j2)));
                    if is_info {
                        assert(!(value@ is Dict));
                    } else {
                        assert(key@ != spec_key_info());
                        assert(BencodeSpecValue::Bytes(key@) != BencodeSpecValue::Bytes(
                            spec_key_info(),
                        ));
                    }
                    assert(spec_locate_info(data@, cur, f) == spec_locate_info(data@, j2, f));
                }
            }
        }
    }

    /// Turns a parsed root dictionary plus the original bytes into a
    /// `TorrentInfo`, failing exactly when the input breaks the torrent
    /// grammar; the info-hash is taken over the raw `info` range of
    /// `original_data`.
    pub fn convert_to_torrent_info(parsed: &BencodeValue, original_data: &[u8]) -> (r: Result<
        TorrentInfo,
        TorrentError,
    >)
        ensures
            match r {
                Ok(t) => parsed@ matches BencodeSpecValue::Dict(root) && spec_torrent_from(
                    root,
                    original_data@,
                    &t,
                ),
                Err(e) => e is ParseError && !spec_torrent_parseable(parsed@, original_data@),
            },
    {
        let root = match parsed.as_dict() {
            Some(d) => d,
            None => {
                return Err(TorrentError::parse_error("Root must be a dictionary"));
            },
        };
        // Announce URL.
        let announce_key = key_announce();
        let announce_bytes = match dict_get(root, announce_key.as_slice()) {
            Some(v) => match v.as_bytes() {
                Some(b) => b,
                None => {
                    return Err(TorrentError::parse_error("Missing announce field"));
                },
            },
            None => {
                return Err(TorrentError::parse_error("Missing announce field"));
            },
        };
        let announce = util::bytes_to_string_lossy(announce_bytes.as_slice());
        // Announce list: the primary URL first, then each tier, without
        // duplicates.
        let mut announce_list: Vec<String> = Vec::new();
        announce_list.push(announce.clone());
        proof {
            assert(spec_strings_view(announce_list@) =~= seq![announce@]);
        }
        let announce_list_key = key_announce_list();
        match dict_get(root, announce_list_key.as_slice()) {
            Some(tiers_value) => match tiers_value.as_list() {
                Some(tiers) => {
                    add_tiers(&mut announce_list, tiers);
                },
                None => {},
            },
            None => {},
        }
        // Info dictionary.
        let info_key = key_info();
        let info = match dict_get(root, info_key.as_slice()) {
            Some(v) => match v.as_dict() {
                Some(d) => d,
                None => {
                    return Err(TorrentError::parse_error("Missing info dictionary"));
                },
            },
            None => {
                return Err(TorrentError::parse_error("Missing info dictionary"));
            },
        };
        let name_key = key_name();
        let name_bytes = match dict_get(info, name_key.as_slice()) {
            Some(v) => match v.as_bytes() {
                Some(b) => b,
                None => {
                    return Err(TorrentError::parse_error("Missing name field"));
                },
            },
            None => {
                return Err(TorrentError::parse_error("Missing name field"));
            },
        };
        let name = util::bytes_to_string_lossy(name_bytes.as_slice());
        let piece_length_key = key_piece_length();
        let piece_length = match dict_get(info, piece_length_key.as_slice()) {
            Some(v) => match v.as_int() {
                Some(i) => {
                    if i < 0 {
                        return Err(TorrentError::parse_error("Negative piece length"));
                    }
                    i as u64
                },
                None => {
                    return Err(TorrentError::parse_error("Missing piece length"));
                },
            },
            None => {
                return Err(TorrentError::parse_error("Missing piece length"));
            },
        };
        let pieces_key = key_pieces();
        let pieces = match dict_get(info, pieces_key.as_slice()) {
            Some(v) => match v.as_bytes() {
                Some(b) => TorrentInfo::parse_piece_hashes(b.as_slice())?,
                None => {
                    return Err(TorrentError::parse_error("Missing pieces field"));
                },
            },
            None => {
                return Err(TorrentError::parse_error("Missing pieces field"));
            },
        };
        // Single-file or multi-file mode.
        let length_key = key_length();
        let files_key = key_files();
        let mut length: Option<u64> = None;
        let mut files: Option<Vec<TorrentFile>> = None;
        match dict_get(info, length_key.as_slice()) {
            Some(v) => match v.as_int() {
                Some(l) => {
                    if l < 0 {
                        return Err(TorrentError::parse_error("Negative length field"));
                    }
                    length = Some(l as u64);
                },
                None => {
                    return Err(TorrentError::parse_error("Invalid length field"));
                },
            },
            None => {
                match dict_get(info, files_key.as_slice()) {
                    Some(v) => match v.as_list() {
                        Some(file_list) => {
                            files = Some(build_files(file_list)?);
                        },
                        None => {
                            return Err(
                                TorrentError::parse_error(
                                    "Neither length nor files found in info dict",
                                ),
                            );
                        },
                    },
                    None => {
                        return Err(
                            TorrentError::parse_error(
                                "Neither length nor files found in info dict",
                            ),
                        );
                    },
                }
            },
        }
        // Info hash over the raw info-dict byte range.
        let (info_start, info_end) = match Self::locate_info_value(original_data) {
            Some(range) => range,
            None => {
                return Err(TorrentError::parse_error("Could not find info dict"));
            },
        };
        let info_slice = crate::protocol::wire::copy_range(original_data, info_start, info_end);
        let info_hash = TorrentInfo::generate_info_hash(info_slice.as_slice());
        Ok(
            TorrentInfo {
                announce,
                announce_list,
                info_hash,
                piece_length,
                pieces,
                name,
                length,
                files,
            },
        )
    }

    /// Parses a whole torrent file, failing exactly when the bytes do not
    /// parse as bencode or the parsed value breaks the torrent grammar.
    pub fn parse_bytes(data: &[u8]) -> (r: Result<TorrentInfo, TorrentError>)
        ensures
            match r {
                Ok(t) => spec_parse_value(data@, 0, (data@.len() + 1) as nat) matches Some(
                    (v, j),
                ) && v matches BencodeSpecValue::Dict(root) && spec_torrent_from(
                    root,
                    data@,
                    &t,
                ),
                Err(e) => e is ParseError && (spec_parse_value(
                    data@,
                    0,
                    (data@.len() + 1) as nat,
                ) is None || (spec_parse_value(data@, 0, (data@.len() + 1) as nat) matches Some(
                    (v, j),
                ) && !spec_torrent_parseable(v, data@))),
            },
    {
        let parsed = Self::parse_bencode(data)?;
        let result = Self::convert_to_torrent_info(&parsed, data);
        match result {
            Ok(t) => {
                proof {
                    let root = parsed@->Dict_0;
                    assert(parsed@ == BencodeSpecValue::Dict(root));
                }
                Ok(t)
            },
            Err(e) => Err(e),
        }
    }

    /// The raw bytes of the bencode value beginning at `start`: the byte
    /// range scan used for info-hash computation.
    pub fn extract_info_dict(data: &[u8], start: usize) -> (r: Result<Vec<u8>, TorrentError>)
        ensures
            match r {
                Ok(bytes) => spec_parse_value(
                    data@,
                    start as nat,
                    (data@.len() - start + 1) as nat,
                ) matches Some((v, e)) && bytes@ == data@.subrange(start as int, e as int),
                Err(e) => e is ParseError,
            },
    {
        let mut idx: usize = start;
        match crate::bencode::parse_value(data, &mut idx) {
            Ok(_) => Ok(crate::protocol::wire::copy_range(data, start, idx)),
            Err(e) => Err(e),
        }
    }
}

/// Appends the deduplicated URLs of every tier to `acc`.
fn add_tiers(acc: &mut Vec<String>, tiers: &Vec<BencodeValue>)
    ensures
        spec_strings_view(final(acc)@) == spec_add_tiers(
            spec_strings_view(old(acc)@),
            crate::bencode::view_elems(tiers@),
        ),
{
    proof {
        crate::bencode::lemma_view_elems(tiers@);
    }
    let ghost tier_views = crate::bencode::view_elems(tiers@);
    proof {
        assert(tier_views.skip(0) =~= tier_views);
    }
    let mut k: usize = 0;
    while k < tiers.len()
        invariant
            k <= tiers@.len(),
            tier_views == crate::bencode::view_elems(tiers@),
            tier_views.len() == tiers@.len(),
            forall|i: int| 0 <= i < tiers@.len() ==> tier_views[i] == #[trigger] tiers@[i]@,
            spec_add_tiers(spec_strings_view(old(acc)@), tier_views) == spec_add_tiers(
                spec_strings_view(acc@),
                tier_views.skip(k as int),
            ),
        decreases tiers@.len() - k,
    {
        proof {
            let s = tier_views.skip(k as int);
            assert(s[0] == tier_views[k as int]);
            assert(s.drop_first() =~= tier_views.skip(k + 1));
        }
        match tiers[k].as_list() {
            Some(urls) => {
                add_urls(acc, urls);
            },
            None => {},
        }
        k = k + 1;
    }
    proof {
        assert(tier_views.skip(tiers@.len() as int) =~= Seq::<BencodeSpecValue>::empty());
    }
}

/// Appends the URLs of one tier to `acc`, skipping duplicates and entries
/// that are not byte strings.
fn add_urls(acc: &mut Vec<String>, urls: &Vec<BencodeValue>)
    ensures
        spec_strings_view(final(acc)@) == spec_add_urls(
            spec_strings_view(old(acc)@),
            crate::bencode::view_elems(urls@),
        ),
{
    proof {
        crate::bencode::lemma_view_elems(urls@);
    }
    let ghost url_views = crate::bencode::view_elems(urls@);
    proof {
        assert(url_views.skip(0) =~= url_views);
    }
    let mut k: usize = 0;
    while k < urls.len()
        invariant
            k <= urls@.len(),
            url_views == crate::bencode::view_elems(urls@),
            url_views.len() == urls@.len(),
            forall|i: int| 0 <= i < urls@.len() ==> url_views[i] == #[trigger] urls@[i]@,
            spec_add_urls(spec_strings_view(old(acc)@), url_views) == spec_add_urls(
                spec_strings_view(acc@),
                url_views.skip(k as int),
            ),
        decreases urls@.len() - k,
    {
        proof {
            let s = url_views.skip(k as int);
            assert(s[0] == url_views[k as int]);
            assert(s.drop_first() =~= url_views.skip(k + 1));
        }
        let ghost acc_before = acc@;
        match urls[k].as_bytes() {
            Some(b) => {
                let url = util::bytes_to_string_lossy(b.as_slice());
                if !contains_string(acc, &url) {
                    acc.push(url);
                    proof {
                        assert(spec_strings_view(acc@) =~= spec_strings_view(acc_before).push(
                            util::utf8_lossy_of(b@),
                        ));
                    }
                }
                proof {
                    assert(spec_strings_view(acc@) == spec_add_url(
                        spec_strings_view(acc_before),
                        url_views[k as int],
                    ));
                }
            },
            None => {},
        }
        k = k + 1;
    }
    proof {
        assert(url_views.skip(urls@.len() as int) =~= Seq::<BencodeSpecValue>::empty());
    }
}

/// True exactly when `s` already stands in `list`.
fn contains_string(list: &Vec<String>, s: &String) -> (r: bool)
    ensures
        r == spec_strings_view(list@).contains(s@),
{
    let mut k: usize = 0;
    while k < list.len()
        invariant
            k <= list@.len(),
            forall|i: int| 0 <= i < k ==> #[trigger] list@[i]@ != s@,
        decreases list@.len() - k,
    {
        let candidate = &list[k];
        if *candidate == *s {
            proof {
                assert(spec_strings_view(list@)[k as int] == s@);
            }
            return true;
        }
        k = k + 1;
    }
    proof {
        if spec_strings_view(list@).contains(s@) {
            let i = choose|i: int|
                0 <= i < spec_strings_view(list@).len() && spec_strings_view(list@)[i] == s@;
            assert(list@[i]@ == s@);
        }
    }
    false
}

/// Builds the file list of a multi-file torrent.
fn build_files(file_list: &Vec<BencodeValue>) -> (r: Result<Vec<TorrentFile>, TorrentError>)
    ensures
        match r {
            Ok(files) => spec_files_of(crate::bencode::view_elems(file_list@)) == Some(
                spec_files_view(files@),
            ),
            Err(e) => e is ParseError && spec_files_of(
                crate::bencode::view_elems(file_list@),
            ) is None,
        },
{
    proof {
        crate::bencode::lemma_view_elems(file_list@);
    }
    let ghost entry_views = crate::bencode::view_elems(file_list@);
    proof {
        assert(entry_views.skip(0) =~= entry_views);
        assert(spec_files_view(Seq::<TorrentFile>::empty()) =~= Seq::<TorrentFileSpec>::empty());
    }
    let mut files: Vec<TorrentFile> = Vec::new();
    let mut k: usize = 0;
    while k < file_list.len()
        invariant
            k <= file_list@.len(),
            entry_views == crate::bencode::view_elems(file_list@),
            entry_views.len() == file_list@.len(),
            forall|i: int| 0 <= i < file_list@.len() ==> entry_views[i] == #[trigger] file_list@[
                i]@,
            spec_files_of(entry_views) == (match spec_files_of(entry_views.skip(k as int)) {
                Some(rest) => Some(spec_files_view(files@) + rest),
                None => None,
            }),
        decreases file_list@.len() - k,
    {
        proof {
            let s = entry_views.skip(k as int);
            assert(s[0] == entry_views[k as int]);
            assert(s.drop_first() =~= entry_views.skip(k + 1));
        }
        let ghost files_before = files@;
        match file_list[k].as_dict() {
            Some(fd) => {
                let length_key = key_length();
                let file_len = match dict_get(fd, length_key.as_slice()) {
                    Some(v) => match v.as_int() {
                        Some(l) => {
                            if l < 0 {
                                return Err(TorrentError::parse_error("Missing file length"));
                            }
                            l as u64
                        },
                        None => {
                            return Err(TorrentError::parse_error("Missing file length"));
                        },
                    },
                    None => {
                        return Err(TorrentError::parse_error("Missing file length"));
                    },
                };
                let path_key = key_path();
                let path_list = match dict_get(fd, path_key.as_slice()) {
                    Some(v) => match v.as_list() {
                        Some(l) => l,
                        None => {
                            return Err(TorrentError::parse_error("Missing file path"));
                        },
                    },
                    None => {
                        return Err(TorrentError::parse_error("Missing file path"));
                    },
                };
                let path = build_paths(path_list);
                files.push(TorrentFile { path, length: file_len });
                proof {
                    assert(spec_files_view(files@) =~= spec_files_view(files_before).push(
                        files@[files@.len() - 1]@,
                    ));
                    assert(spec_files_view(files@) =~= spec_files_view(files_before) + seq![
                        TorrentFileSpec {
                            path: spec_paths_of(crate::bencode::view_elems(path_list@)),
                            length: file_len,
                        },
                    ]);
                }
            },
            None => {},
        }
        k = k + 1;
    }
    proof {
        assert(entry_views.skip(file_list@.len() as int) =~= Seq::<BencodeSpecValue>::empty());
    }
    Ok(files)
}

/// Splitting a path list splits its components.
proof fn lemma_paths_concat(a: Seq<BencodeSpecValue>, b: Seq<BencodeSpecValue>)
    ensures
        spec_paths_of(a + b) == spec_paths_of(a) + spec_paths_of(b),
    decreases a.len(),
{
    if a.len() == 0 {
        assert(a + b == b);
        assert(spec_paths_of(a) == Seq::<Seq<char>>::empty());
        assert(spec_paths_of(a) + spec_paths_of(b) == spec_paths_of(b));
    } else {
        lemma_paths_concat(a.drop_first(), b);
        assert((a + b).drop_first() == a.drop_first() + b);
        assert((a + b)[0] == a[0]);
    }
}

/// The components of one entry.
proof fn lemma_paths_singleton(x: BencodeSpecValue)
    ensures
        spec_paths_of(seq![x]) == (match x {
            BencodeSpecValue::Bytes(b) => seq![util::utf8_lossy_of(b)],
            _ => Seq::<Seq<char>>::empty(),
        }),
{
    let s = seq![x];
    assert(s[0] == x);
    assert(s.drop_first() =~= Seq::<BencodeSpecValue>::empty());
    assert(spec_paths_of(s.drop_first()) == Seq::<Seq<char>>::empty());
    assert((match x {
        BencodeSpecValue::Bytes(b) => seq![util::utf8_lossy_of(b)],
        _ => Seq::<Seq<char>>::empty(),
    }) + Seq::<Seq<char>>::empty() =~= (match x {
        BencodeSpecValue::Bytes(b) => seq![util::utf8_lossy_of(b)],
        _ => Seq::<Seq<char>>::empty(),
    }));
}

/// Builds the path components of one file entry.
fn build_paths(path_list: &Vec<BencodeValue>) -> (r: Vec<String>)
    ensures
        spec_strings_view(r@) == spec_paths_of(crate::bencode::view_elems(path_list@)),
{
    proof {
        crate::bencode::lemma_view_elems(path_list@);
    }
    let ghost pc_views = crate::bencode::view_elems(path_list@);
    let mut path: Vec<String> = Vec::new();
    let mut k: usize = 0;
    while k < path_list.len()
        invariant
            k <= path_list@.len(),
            pc_views == crate::bencode::view_elems(path_list@),
            pc_views.len() == path_list@.len(),
            forall|i: int| 0 <= i < path_list@.len() ==> pc_views[i] == #[trigger] path_list@[i]@,
            spec_strings_view(path@) == spec_paths_of(pc_views.take(k as int)),
        decreases path_list@.len() - k,
    {
        let ghost path_before = path@;
        match path_list[k].as_bytes() {
            Some(b) => {
                path.push(util::bytes_to_string_lossy(b.as_slice()));
                proof {
                    assert(spec_strings_view(path@) =~= spec_strings_view(path_before).push(
                        util::utf8_lossy_of(b@),
                    ));
                }
            },
            None => {},
        }
        k = k + 1;
        proof {
            let pre = pc_views.take(k - 1 as int);
            lemma_paths_concat(pre, seq![pc_views[k - 1 as int]]);
            lemma_paths_singleton(pc_views[k - 1 as int]);
            assert(pc_views.take(k as int) =~= pre + seq![pc_views[k - 1 as int]]);
            assert(spec_strings_view(path@) =~= spec_paths_of(pc_views.take(k as int)));
        }
    }
    proof {
        assert(pc_views.take(path_list@.len() as int) == pc_views);
    }
    path
}

} // verus!
