//! High-level information about a torrent: trackers, piece table, file
//! layout, and the geometry that ties total size to piece count.

use vstd::prelude::*;
use crate::error::TorrentError;
use crate::sha::{sha1_of, sha1_digest};
use crate::storage::piece::{spec_piece_count, spec_piece_len, lemma_piece_count_bounds};
use crate::util;

verus! {

/// The mathematical content of a file entry.
pub struct TorrentFileSpec {
    pub path: Seq<Seq<char>>,
    pub length: u64,
}

/// One file of a multi-file torrent.
#[derive(Debug, Clone)]
pub struct TorrentFile {
    /// Path components, in order.
    pub path: Vec<String>,
    /// File size in bytes.
    pub length: u64,
}

/// The views of a list of path components.
pub open spec fn spec_strings_view(s: Seq<String>) -> Seq<Seq<char>> {
    Seq::new(s.len(), |i: int| s[i]@)
}

impl View for TorrentFile {
    type V = TorrentFileSpec;

    open spec fn view(&self) -> TorrentFileSpec {
        TorrentFileSpec { path: spec_strings_view(self.path@), length: self.length }
    }
}

/// The views of a list of files.
pub open spec fn spec_files_view(s: Seq<TorrentFile>) -> Seq<TorrentFileSpec> {
    Seq::new(s.len(), |i: int| s[i]@)
}

/// The total length of the files, in order.
pub open spec fn spec_sum_lengths(s: Seq<TorrentFile>) -> int
    decreases s.len(),
{
    if s.len() == 0 {
        0
    } else {
        spec_sum_lengths(s.drop_last()) + s.last().length
    }
}

/// Partial sums never exceed the total.
pub proof fn lemma_sum_take_le(s: Seq<TorrentFile>, k: int)
    requires
        0 <= k <= s.len(),
    ensures
        spec_sum_lengths(s.take(k)) <= spec_sum_lengths(s),
        spec_sum_lengths(s.take(k)) >= 0,
    decreases s.len() - k,
{
    lemma_sum_nonneg(s.take(k));
    if k == s.len() {
        assert(s.take(k) == s);
        lemma_sum_nonneg(s);
    } else {
        lemma_sum_take_le(s, k + 1);
        assert(s.take(k + 1).drop_last() =~= s.take(k));
        assert(s.take(k + 1).last() == s[k]);
        assert(spec_sum_lengths(s.take(k + 1)) == spec_sum_lengths(s.take(k)) + s[k].length);
    }
}

/// A sum of lengths is never negative.
pub proof fn lemma_sum_nonneg(s: Seq<TorrentFile>)
    ensures
        spec_sum_lengths(s) >= 0,
    decreases s.len(),
{
    if s.len() > 0 {
        lemma_sum_nonneg(s.drop_last());
    }
}

/// High-level torrent information.
#[derive(Debug, Clone)]
pub struct TorrentInfo {
    /// Primary tracker announce URL.
    pub announce: String,
    /// All tracker announce URLs, the primary first, without duplicates.
    pub announce_list: Vec<String>,
    /// SHA-1 hash of the info dictionary (20 bytes).
    pub info_hash: Vec<u8>,
    /// Size of each piece in bytes.
    pub piece_length: u64,
    /// Piece hashes, 20 bytes each.
    pub pieces: Vec<Vec<u8>>,
    /// Torrent name.
    pub name: String,
    /// Single file size; absent for multi-file torrents.
    pub length: Option<u64>,
    /// Files of a multi-file torrent; absent for single-file torrents.
    pub files: Option<Vec<TorrentFile>>,
}

/// The files of the torrent's contiguous byte stream: the file list of a
/// multi-file torrent, one virtual file named after a single-file torrent,
/// and none otherwise.
pub open spec fn spec_stream_files(t: &TorrentInfo) -> Seq<TorrentFileSpec> {
    match &t.files {
        Some(fs) => spec_files_view(fs@),
        None => match t.length {
            Some(l) => seq![TorrentFileSpec { path: seq![t.name@], length: l }],
            None => Seq::empty(),
        },
    }
}

/// The total length of a stream file list.
pub open spec fn spec_sum_spec_lengths(s: Seq<TorrentFileSpec>) -> int
    decreases s.len(),
{
    if s.len() == 0 {
        0
    } else {
        spec_sum_spec_lengths(s.drop_last()) + s.last().length
    }
}

/// A file list and its views have the same total length.
pub proof fn lemma_sum_matches_views(a: Seq<TorrentFile>)
    ensures
        spec_sum_spec_lengths(spec_files_view(a)) == spec_sum_lengths(a),
    decreases a.len(),
{
    if a.len() > 0 {
        lemma_sum_matches_views(a.drop_last());
        assert(spec_files_view(a).drop_last() =~= spec_files_view(a.drop_last()));
        assert(spec_files_view(a).last() == a.last()@);
    }
}

/// The stream files' total length is the torrent's total size.
pub proof fn lemma_stream_total(t: &TorrentInfo)
    requires
        !(t.length is Some && t.files is Some),
    ensures
        spec_sum_spec_lengths(spec_stream_files(t)) == spec_total_size(t),
{
    match &t.files {
        Some(fs) => {
            lemma_sum_matches_views(fs@);
        },
        None => match t.length {
            Some(l) => {
                let s = spec_stream_files(t);
                assert(s.len() == 1);
                assert(s.last() == TorrentFileSpec { path: seq![t.name@], length: l });
                assert(s.drop_last() =~= Seq::<TorrentFileSpec>::empty());
                assert(spec_sum_spec_lengths(s.drop_last()) == 0);
                assert(spec_sum_spec_lengths(s) == l);
            },
            None => {},
        },
    }
}

/// The total number of bytes the torrent describes.
pub open spec fn spec_total_size(t: &TorrentInfo) -> int {
    match t.length {
        Some(l) => l as int,
        None => match &t.files {
            Some(fs) => spec_sum_lengths(fs@),
            None => 0,
        },
    }
}

/// A torrent whose hashes have their fixed sizes and whose sizes fit the
/// machine's arithmetic.
pub open spec fn spec_torrent_wf(t: &TorrentInfo) -> bool {
    &&& t.info_hash@.len() == 20
    &&& !(t.length is Some && t.files is Some)
    &&& forall|i: int| 0 <= i < t.pieces@.len() ==> (#[trigger] t.pieces@[i])@.len() == 20
    &&& spec_total_size(t) <= u64::MAX
    &&& (t.pieces@.len() as int) * (t.piece_length as int) <= u64::MAX
}

impl TorrentInfo {
    /// The total size of all files in the torrent.
    pub fn total_size(&self) -> (r: u64)
        requires
            spec_total_size(self) <= u64::MAX,
        ensures
            r == spec_total_size(self),
    {
        if let Some(length) = self.length {
            return length;
        }
        match &self.files {
            Some(files) => {
                let mut sum: u64 = 0;
                let mut k: usize = 0;
                while k < files.len()
                    invariant
                        k <= files@.len(),
                        sum == spec_sum_lengths(files@.take(k as int)),
                        spec_sum_lengths(files@) <= u64::MAX,
                        self.length is None,
                        self.files matches Some(fs) && fs@ == files@,
                    decreases files@.len() - k,
                {
                    proof {
                        lemma_sum_take_le(files@, k + 1);
                        assert(files@.take(k + 1).drop_last() =~= files@.take(k as int));
                        assert(files@.take(k + 1).last() == files@[k as int]);
                    }
                    sum = sum + files[k].length;
                    k = k + 1;
                }
                proof {
                    assert(files@.take(files@.len() as int) == files@);
                }
                sum
            },
            None => 0,
        }
    }

    /// The number of pieces in the torrent.
    pub fn piece_count(&self) -> (r: usize)
        ensures
            r == self.pieces@.len(),
    {
        self.pieces.len()
    }

    /// All files of the torrent, in order. A single-file torrent yields one
    /// entry named after the torrent; a torrent with neither a length nor a
    /// file list yields none.
    pub fn files_iter(&self) -> (r: Vec<TorrentFile>)
        ensures
            spec_files_view(r@) == spec_stream_files(self),
    {
        match &self.files {
            Some(files) => {
                let mut out: Vec<TorrentFile> = Vec::new();
                let mut k: usize = 0;
                while k < files.len()
                    invariant
                        k <= files@.len(),
                        out@.len() == k,
                        forall|i: int| 0 <= i < k ==> out@[i]@ == #[trigger] files@[i]@,
                    decreases files@.len() - k,
                {
                    let src = &files[k];
                    let mut path: Vec<String> = Vec::new();
                    let mut j: usize = 0;
                    while j < src.path.len()
                        invariant
                            j <= src.path@.len(),
                            path@.len() == j,
                            forall|i: int| 0 <= i < j ==> path@[i] == #[trigger] src.path@[i],
                        decreases src.path@.len() - j,
                    {
                        path.push(src.path[j].clone());
                        j = j + 1;
                    }
                    proof {
                        assert(spec_strings_view(path@) =~= spec_strings_view(src.path@));
                    }
                    out.push(TorrentFile { path, length: src.length });
                    k = k + 1;
                }
                proof {
                    assert(spec_files_view(out@) =~= spec_files_view(files@));
                }
                out
            },
            None => match self.length {
                Some(l) => {
                    let mut path: Vec<String> = Vec::new();
                    path.push(self.name.clone());
                    let mut out: Vec<TorrentFile> = Vec::new();
                    out.push(TorrentFile { path, length: l });
                    proof {
                        assert(out@[0]@.path =~= seq![self.name@]);
                        assert(spec_files_view(out@) =~= spec_stream_files(self));
                    }
                    out
                },
                None => {
                    let out: Vec<TorrentFile> = Vec::new();
                    proof {
                        assert(spec_files_view(out@) =~= spec_stream_files(self));
                    }
                    out
                },
            },
        }
    }

    /// Whether this is a multi-file torrent.
    pub fn is_multi_file(&self) -> (r: bool)
        ensures
            r == (self.files is Some),
    {
        self.files.is_some()
    }

    /// The info hash as a lowercase hex string.
    pub fn info_hash_hex(&self) -> (r: String)
        ensures
            r@ == util::spec_hex_of(self.info_hash@),
    {
        util::hex_encode(self.info_hash.as_slice())
    }

    /// The SHA-1 digest of the raw info-dictionary bytes: the swarm's
    /// identity.
    pub fn generate_info_hash(info_dict_bytes: &[u8]) -> (r: Vec<u8>)
        ensures
            r@ == sha1_of(info_dict_bytes@),
            r@.len() == 20,
    {
        sha1_digest(info_dict_bytes)
    }

    /// Splits the concatenated hash table into 20-byte piece hashes. Fails
    /// exactly when the input is not a multiple of 20 bytes.
    pub fn parse_piece_hashes(pieces_bytes: &[u8]) -> (r: Result<Vec<Vec<u8>>, TorrentError>)
        ensures
            match r {
                Ok(hashes) => pieces_bytes@.len() % 20 == 0 && hashes@.len() == pieces_bytes@.len()
                    / 20 && forall|i: int|
                    0 <= i < hashes@.len() ==> (#[trigger] hashes@[i])@ == pieces_bytes@.subrange(
                        i * 20,
                        i * 20 + 20,
                    ),
                Err(e) => pieces_bytes@.len() % 20 != 0 && e is ParseError,
            },
    {
        if pieces_bytes.len() % 20 != 0 {
            return Err(
                TorrentError::parse_error("Pieces field length must be a multiple of 20"),
            );
        }
        let total_len = pieces_bytes.len();
        let count = pieces_bytes.len() / 20;
        let mut hashes: Vec<Vec<u8>> = Vec::new();
        let mut k: usize = 0;
        while k < count
            invariant
                k <= count,
                count == pieces_bytes@.len() / 20,
                pieces_bytes@.len() % 20 == 0,
                count * 20 == pieces_bytes@.len(),
                total_len == pieces_bytes@.len(),
                total_len <= usize::MAX,
                hashes@.len() == k,
                forall|i: int|
                    0 <= i < k ==> (#[trigger] hashes@[i])@ == pieces_bytes@.subrange(
                        i * 20,
                        i * 20 + 20,
                    ),
            decreases count - k,
        {
            proof {
                assert((k as int) * 20 + 20 <= (count as int) * 20) by (nonlinear_arith)
                    requires
                        k < count,
                ;
                assert((k as int + 1) * 20 == (k as int) * 20 + 20) by (nonlinear_arith);
            }
            let hash = crate::protocol::wire::copy_range(pieces_bytes, k * 20, k * 20 + 20);
            hashes.push(hash);
            k = k + 1;
        }
        Ok(hashes)
    }

    /// The hash of piece `index`, while the index is in range.
    pub fn piece_hash(&self, index: usize) -> (r: Option<Vec<u8>>)
        ensures
            match r {
                Some(h) => index < self.pieces@.len() && h@ == self.pieces@[index as int]@,
                None => index >= self.pieces@.len(),
            },
    {
        if index < self.pieces.len() {
            Some(util::copy_slice(self.pieces[index].as_slice()))
        } else {
            None
        }
    }

    /// The byte range `[start, end)` of piece `index` within the torrent's
    /// byte stream; the last piece's range ends at the total size.
    pub fn piece_range(&self, index: usize) -> (r: Option<(u64, u64)>)
        requires
            spec_torrent_wf(self),
        ensures
            match r {
                Some((start, end)) => index < self.pieces@.len() && start == index
                    * self.piece_length && end == (if start + self.piece_length
                    <= spec_total_size(self) {
                    start + self.piece_length
                } else {
                    spec_total_size(self)
                }),
                None => index >= self.pieces@.len(),
            },
    {
        if index >= self.pieces.len() {
            return None;
        }
        proof {
            assert((index as int) * (self.piece_length as int) <= (self.pieces@.len() as int) * (
            self.piece_length as int)) by (nonlinear_arith)
                requires
                    index < self.pieces@.len(),
                    self.piece_length >= 0,
            ;
            assert((index as int + 1) * (self.piece_length as int) == (index as int) * (
            self.piece_length as int) + self.piece_length) by (nonlinear_arith);
            assert((index as int + 1) * (self.piece_length as int) <= (self.pieces@.len() as int)
                * (self.piece_length as int)) by (nonlinear_arith)
                requires
                    index as int + 1 <= self.pieces@.len(),
                    self.piece_length >= 0,
            ;
        }
        let start = (index as u64) * self.piece_length;
        let total = self.total_size();
        let end = if start + self.piece_length <= total {
            start + self.piece_length
        } else {
            total
        };
        Some((start, end))
    }
}

/// The file totals reconcile with the piece geometry: the torrent's size is
/// the full pieces minus what the last piece leaves unused.
pub proof fn lemma_size_reconciles_with_pieces(total: int, pl: int)
    requires
        pl > 0,
        total > 0,
    ensures
        total == spec_piece_count(total, pl) * pl - (pl - spec_piece_len(
            total,
            pl,
            spec_piece_count(total, pl) - 1,
        )),
{
    let n = spec_piece_count(total, pl);
    lemma_piece_count_bounds(total, pl);
    assert((n - 1) * pl == n * pl - pl) by (nonlinear_arith);
    let last = spec_piece_len(total, pl, n - 1);
    if total - (n - 1) * pl < pl {
        assert(last == total - (n - 1) * pl);
    } else {
        assert(last == pl);
        assert(total == n * pl);
    }
}

} // verus!
