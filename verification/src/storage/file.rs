//! The file backend's bookkeeping: a multi-file torrent as one contiguous
//! byte stream, the offset of each file in it, and the plan that maps a
//! piece write onto per-file ranges.
//!
//! Opening, preallocating, seeking and writing the files is I/O and lives
//! with the glue outside the library, which executes the plans computed
//! here.

use vstd::prelude::*;
use crate::storage::piece::{PieceStorage, spec_storage_wf, spec_piece_count};
use crate::storage::resume::PieceState;
use crate::torrent::info::{TorrentFile, TorrentInfo, TorrentFileSpec, spec_files_view,
    spec_stream_files, spec_sum_lengths, spec_sum_spec_lengths, spec_torrent_wf, spec_total_size,
    lemma_sum_matches_views, lemma_stream_total};
use crate::util;

verus! {

/// The stream offset where file `i` begins: the lengths of the files
/// before it.
pub open spec fn spec_file_start(files: Seq<TorrentFile>, i: int) -> int
    decreases i,
{
    if i <= 0 {
        0
    } else {
        spec_file_start(files, i - 1) + files[i - 1].length
    }
}

/// File starts never decrease, and stay within the total.
pub proof fn lemma_file_start_bounds(files: Seq<TorrentFile>, i: int)
    requires
        0 <= i <= files.len(),
    ensures
        0 <= spec_file_start(files, i) <= spec_sum_lengths(files),
        forall|j: int|
            0 <= j <= i ==> #[trigger] spec_file_start(files, j) <= spec_file_start(files, i),
    decreases i,
{
    if i == 0 {
        lemma_sum_eq_start(files, files.len() as int);
        crate::torrent::info::lemma_sum_nonneg(files);
    } else {
        lemma_file_start_bounds(files, i - 1);
        lemma_sum_eq_start(files, files.len() as int);
        assert forall|j: int|
            0 <= j <= i implies #[trigger] spec_file_start(files, j) <= spec_file_start(
            files,
            i,
        ) by {
            if j < i {
                assert(spec_file_start(files, j) <= spec_file_start(files, i - 1));
            }
        }
        assert(spec_file_start(files, i) <= spec_sum_lengths(files)) by {
            lemma_start_le_total(files, i);
        }
    }
}

/// The start of position `i` plus the remaining lengths is the total.
proof fn lemma_start_le_total(files: Seq<TorrentFile>, i: int)
    requires
        0 <= i <= files.len(),
    ensures
        spec_file_start(files, i) <= spec_sum_lengths(files),
    decreases files.len() - i,
{
    if i == files.len() {
        lemma_sum_eq_start(files, i);
        assert(files.take(i) == files);
    } else {
        lemma_start_le_total(files, i + 1);
        assert(spec_file_start(files, i + 1) == spec_file_start(files, i) + files[i].length);
    }
}

/// The total length equals the start just past the last file.
proof fn lemma_sum_eq_start(files: Seq<TorrentFile>, i: int)
    requires
        0 <= i <= files.len(),
    ensures
        spec_file_start(files, i) == spec_sum_lengths(files.take(i)),
    decreases i,
{
    if i > 0 {
        lemma_sum_eq_start(files, i - 1);
        assert(files.take(i).drop_last() =~= files.take(i - 1));
        assert(files.take(i).last() == files[i - 1]);
    } else {
        assert(files.take(0).len() == 0);
    }
}

/// One part of a write plan: a byte range inside one file.
#[derive(Debug, Clone, Copy, PartialEq, Eq, Structural)]
pub struct WriteSegment {
    /// Which file the bytes go to.
    pub file_index: usize,
    /// Where in that file they start.
    pub file_offset: u64,
    /// How many bytes go there.
    pub length: u64,
}

/// The bytes the first `k` segments place.
pub open spec fn spec_plan_sum(segs: Seq<WriteSegment>, k: int) -> int
    decreases k,
{
    if k <= 0 {
        0
    } else {
        spec_plan_sum(segs, k - 1) + segs[k - 1].length
    }
}

/// Splits the byte range `[offset, offset + length)` of the torrent's
/// contiguous stream into per-file segments, in stream order. Every
/// segment stays inside its file, the segments are contiguous from
/// `offset`, and a range that lies within the files is covered completely.
pub fn plan_write(files: &Vec<TorrentFile>, offset: u64, length: u64) -> (r: Vec<WriteSegment>)
    requires
        spec_sum_lengths(files@) <= u64::MAX,
        offset + length <= u64::MAX,
    ensures
        forall|k: int|
            0 <= k < r@.len() ==> {
                let seg = #[trigger] r@[k];
                &&& seg.file_index < files@.len()
                &&& seg.length > 0
                &&& seg.file_offset + seg.length <= files@[seg.file_index as int].length
                &&& spec_file_start(files@, seg.file_index as int) + seg.file_offset == offset
                    + spec_plan_sum(r@, k)
            },
        spec_plan_sum(r@, r@.len() as int) <= length,
        offset + length <= spec_sum_lengths(files@) ==> spec_plan_sum(r@, r@.len() as int)
            == length,
{
    let mut segments: Vec<WriteSegment> = Vec::new();
    let mut file_start: u64 = 0;
    let mut current: u64 = offset;
    let mut remaining: u64 = length;
    let mut i: usize = 0;
    proof {
        crate::torrent::info::lemma_sum_nonneg(files@);
    }
    while i < files.len() && remaining > 0
        invariant
            i <= files@.len(),
            spec_sum_lengths(files@) <= u64::MAX,
            offset + length <= u64::MAX,
            file_start == spec_file_start(files@, i as int),
            remaining <= length,
            current == offset + (length - remaining),
            remaining > 0 ==> current >= file_start,
            spec_plan_sum(segments@, segments@.len() as int) == length - remaining,
            forall|k: int|
                0 <= k < segments@.len() ==> {
                    let seg = #[trigger] segments@[k];
                    &&& seg.file_index < files@.len()
                    &&& seg.length > 0
                    &&& seg.file_offset + seg.length <= files@[seg.file_index as int].length
                    &&& spec_file_start(files@, seg.file_index as int) + seg.file_offset == offset
                        + spec_plan_sum(segments@, k)
                },
        decreases files@.len() - i,
    {
        let file_len = files[i].length;
        proof {
            lemma_file_start_bounds(files@, i + 1);
            assert(spec_file_start(files@, i + 1) == file_start + file_len);
        }
        let file_end = file_start + file_len;
        if file_end <= current {
            file_start = file_end;
            i = i + 1;
            continue ;
        }
        let write_offset = current - file_start;
        let available = file_len - write_offset;
        let write_length = if remaining < available {
            remaining
        } else {
            available
        };
        if write_length > 0 {
            let ghost before = segments@;
            segments.push(
                WriteSegment { file_index: i, file_offset: write_offset, length: write_length },
            );
            proof {
                assert(spec_plan_sum(segments@, segments@.len() as int) == spec_plan_sum(
                    segments@,
                    segments@.len() - 1,
                ) + write_length);
                assert forall|k: int|
                    0 <= k < segments@.len() - 1 implies spec_plan_sum(segments@, k)
                    == spec_plan_sum(before, k) by {
                    lemma_plan_sum_prefix(before, segments@, k);
                }
                assert(spec_plan_sum(segments@, segments@.len() - 1) == spec_plan_sum(
                    before,
                    before.len() as int,
                )) by {
                    lemma_plan_sum_prefix(before, segments@, before.len() as int);
                }
            }
            remaining = remaining - write_length;
            current = current + write_length;
        }
        file_start = file_end;
        i = i + 1;
    }
    proof {
        if offset + length <= spec_sum_lengths(files@) && remaining > 0 {
            assert(i == files@.len());
            lemma_sum_eq_start(files@, i as int);
            assert(files@.take(files@.len() as int) == files@);
            assert(current >= spec_sum_lengths(files@));
            assert(current < offset + length);
            assert(false);
        }
    }
    segments
}

/// Prefix sums agree on a common prefix.
proof fn lemma_plan_sum_prefix(a: Seq<WriteSegment>, b: Seq<WriteSegment>, k: int)
    requires
        0 <= k <= a.len(),
        a.len() <= b.len(),
        forall|i: int| 0 <= i < a.len() ==> #[trigger] b[i] == a[i],
    ensures
        spec_plan_sum(b, k) == spec_plan_sum(a, k),
    decreases k,
{
    if k > 0 {
        lemma_plan_sum_prefix(a, b, k - 1);
    }
}

/// The position of the first file with this path, or the number of files.
pub open spec fn spec_find_file(files: Seq<TorrentFile>, path: Seq<Seq<char>>, from: int) -> int
    decreases files.len() - from,
{
    if from < 0 || from >= files.len() {
        files.len() as int
    } else if crate::torrent::info::spec_strings_view(files[from].path@) == path {
        from
    } else {
        spec_find_file(files, path, from + 1)
    }
}

/// The first-match position lies between zero and the file count.
pub proof fn lemma_find_file_bounds(files: Seq<TorrentFile>, path: Seq<Seq<char>>, from: int)
    requires
        0 <= from <= files.len(),
    ensures
        from <= spec_find_file(files, path, from) <= files.len(),
    decreases files.len() - from,
{
    if from < files.len() {
        if crate::torrent::info::spec_strings_view(files[from].path@) == path {
        } else {
            lemma_find_file_bounds(files, path, from + 1);
        }
    }
}

/// The stream offset of a file among `files`: the lengths of the files
/// before the first entry with the same path, or the total when none
/// matches.
pub fn file_offset_in(files: &Vec<TorrentFile>, file: &TorrentFile) -> (r: u64)
    requires
        spec_sum_lengths(files@) <= u64::MAX,
    ensures
        r == spec_file_start(
            files@,
            spec_find_file(files@, crate::torrent::info::spec_strings_view(file.path@), 0),
        ),
{
    let mut offset: u64 = 0;
    let mut k: usize = 0;
    proof {
        crate::torrent::info::lemma_sum_nonneg(files@);
    }
    while k < files.len()
        invariant
            k <= files@.len(),
            spec_sum_lengths(files@) <= u64::MAX,
            offset == spec_file_start(files@, k as int),
            forall|i: int|
                0 <= i < k ==> crate::torrent::info::spec_strings_view(
                    (#[trigger] files@[i]).path@,
                ) != crate::torrent::info::spec_strings_view(file.path@),
            spec_find_file(files@, crate::torrent::info::spec_strings_view(file.path@), 0)
                == spec_find_file(
                files@,
                crate::torrent::info::spec_strings_view(file.path@),
                k as int,
            ),
        decreases files@.len() - k,
    {
        if paths_equal(&files[k].path, &file.path) {
            return offset;
        }
        proof {
            lemma_file_start_bounds(files@, k + 1);
            lemma_start_le_total(files@, k + 1);
        }
        offset = offset + files[k].length;
        k = k + 1;
    }
    offset
}

/// The file backend's bookkeeping for one torrent.
#[derive(Debug)]
pub struct FileStorage {
    /// Base download directory.
    pub base_path: String,
    /// The torrent being stored.
    pub torrent_info: TorrentInfo,
    /// All pieces with their blocks and verified flags.
    pub pieces: PieceStorage,
    /// Which pieces have been written out, by index.
    pub downloaded_pieces: Vec<bool>,
}

impl FileStorage {
    /// Bookkeeping for `torrent_info`, stored under `base_path`: one piece
    /// record per hash, nothing downloaded yet.
    pub fn new(base_path: String, torrent_info: TorrentInfo) -> (r: FileStorage)
        requires
            spec_torrent_wf(&torrent_info),
            torrent_info.piece_length <= u32::MAX,
            torrent_info.pieces@.len() <= u32::MAX,
            torrent_info.pieces@.len() == spec_piece_count(
                spec_total_size(&torrent_info),
                torrent_info.piece_length as int,
            ),
        ensures
            r.base_path@ == base_path@,
            r.torrent_info == torrent_info,
            spec_storage_wf(&r.pieces),
            r.pieces@.len() == torrent_info.pieces@.len(),
            r.downloaded_pieces@.len() == torrent_info.pieces@.len(),
            forall|i: int| 0 <= i < r.pieces@.len() ==> !(#[trigger] r.pieces@[i]).verified,
            forall|i: int| 0 <= i < r.downloaded_pieces@.len() ==> !r.downloaded_pieces@[i],
    {
        let mut hashes: Vec<Vec<u8>> = Vec::new();
        let mut k: usize = 0;
        while k < torrent_info.pieces.len()
            invariant
                k <= torrent_info.pieces@.len(),
                hashes@.len() == k,
                forall|i: int|
                    0 <= i < k ==> (#[trigger] hashes@[i])@ == torrent_info.pieces@[i]@,
            decreases torrent_info.pieces@.len() - k,
        {
            hashes.push(util::copy_slice(torrent_info.pieces[k].as_slice()));
            k = k + 1;
        }
        let total_size = torrent_info.total_size();
        let pieces = PieceStorage::new(hashes, torrent_info.piece_length as u32, total_size);
        let mut downloaded_pieces: Vec<bool> = Vec::new();
        let mut k2: usize = 0;
        let piece_total = torrent_info.pieces.len();
        while k2 < piece_total
            invariant
                k2 <= piece_total,
                downloaded_pieces@.len() == k2,
                forall|i: int| 0 <= i < k2 ==> !downloaded_pieces@[i],
            decreases piece_total - k2,
        {
            downloaded_pieces.push(false);
            k2 = k2 + 1;
        }
        FileStorage { base_path, torrent_info, pieces, downloaded_pieces }
    }

    /// True exactly when every piece is verified.
    pub fn is_complete(&self) -> (r: bool)
        ensures
            r == (forall|i: int| 0 <= i < self.pieces@.len() ==> self.pieces@[i].verified),
    {
        self.pieces.is_complete()
    }

    /// The base download directory.
    pub fn base_path(&self) -> (r: &String)
        ensures
            r@ == self.base_path@,
    {
        &self.base_path
    }

    /// The torrent being stored.
    pub fn torrent_info(&self) -> (r: &TorrentInfo)
        ensures
            r == &self.torrent_info,
    {
        &self.torrent_info
    }

    /// The piece store.
    pub fn pieces(&self) -> (r: &PieceStorage)
        ensures
            r == &self.pieces,
    {
        &self.pieces
    }

    /// Mutable access to the piece store.
    pub fn pieces_mut(&mut self) -> (r: &mut PieceStorage) {
        &mut self.pieces
    }

    /// Records that a piece was written out; indices beyond the table are
    /// ignored.
    pub fn mark_piece_downloaded(&mut self, piece_index: usize)
        ensures
            final(self).base_path == old(self).base_path,
            final(self).torrent_info == old(self).torrent_info,
            final(self).pieces == old(self).pieces,
            if piece_index < old(self).downloaded_pieces@.len() {
                final(self).downloaded_pieces@ == old(self).downloaded_pieces@.update(
                    piece_index as int,
                    true,
                )
            } else {
                final(self).downloaded_pieces == old(self).downloaded_pieces
            },
    {
        if piece_index < self.downloaded_pieces.len() {
            self.downloaded_pieces.set(piece_index, true);
        }
    }

    /// How many pieces have been written out.
    pub fn downloaded_count(&self) -> (r: usize)
        ensures
            r == crate::storage::resume::spec_count_true(
                self.downloaded_pieces@,
                self.downloaded_pieces@.len() as int,
            ),
    {
        let mut count: usize = 0;
        let mut k: usize = 0;
        while k < self.downloaded_pieces.len()
            invariant
                k <= self.downloaded_pieces@.len(),
                count == crate::storage::resume::spec_count_true(
                    self.downloaded_pieces@,
                    k as int,
                ),
                count <= k,
            decreases self.downloaded_pieces@.len() - k,
        {
            if self.downloaded_pieces[k] {
                count = count + 1;
            }
            k = k + 1;
        }
        count
    }

    /// The stream offset of a file: the lengths of the files that come
    /// before the first file with the same path in the torrent's stream.
    pub fn get_file_offset(&self, file: &TorrentFile) -> (r: u64)
        requires
            spec_torrent_wf(&self.torrent_info),
        ensures
            0 <= r <= spec_total_size(&self.torrent_info),
    {
        let files = self.torrent_info.files_iter();
        proof {
            lemma_sum_matches_views(files@);
            lemma_stream_total(&self.torrent_info);
            lemma_find_file_bounds(
                files@,
                crate::torrent::info::spec_strings_view(file.path@),
                0,
            );
            lemma_file_start_bounds(
                files@,
                spec_find_file(files@, crate::torrent::info::spec_strings_view(file.path@), 0),
            );
        }
        file_offset_in(&files, file)
    }

    /// The plan that writes piece `piece_index`'s bytes into the files:
    /// the per-file segments of the stream range the piece covers.
    pub fn plan_piece_write(&self, piece_index: u32, data_len: u64) -> (r: Vec<WriteSegment>)
        requires
            spec_torrent_wf(&self.torrent_info),
            (piece_index as int) * (self.torrent_info.piece_length as int) + data_len
                <= u64::MAX,
        ensures
            ({
                let stream = spec_stream_files(&self.torrent_info);
                let offset = (piece_index as int) * (self.torrent_info.piece_length as int);
                &&& forall|k: int|
                    0 <= k < r@.len() ==> {
                        let seg = #[trigger] r@[k];
                        &&& seg.file_index < stream.len()
                        &&& seg.length > 0
                        &&& seg.file_offset + seg.length <= stream[seg.file_index as int].length
                    }
                &&& spec_plan_sum(r@, r@.len() as int) <= data_len
                &&& (offset + data_len <= spec_total_size(&self.torrent_info) ==> spec_plan_sum(
                    r@,
                    r@.len() as int,
                ) == data_len)
            }),
    {
        let files = self.torrent_info.files_iter();
        proof {
            lemma_sum_matches_views(files@);
            lemma_stream_total(&self.torrent_info);
            assert((piece_index as int) * (self.torrent_info.piece_length as int) >= 0)
                by (nonlinear_arith)
                requires
                    piece_index >= 0,
                    self.torrent_info.piece_length >= 0,
            ;
        }
        let offset = (piece_index as u64) * self.torrent_info.piece_length;
        let r = plan_write(&files, offset, data_len);
        proof {
            let stream = spec_stream_files(&self.torrent_info);
            assert(stream == spec_files_view(files@));
            assert forall|k: int|
                0 <= k < r@.len() implies {
                let seg = #[trigger] r@[k];
                &&& seg.file_index < stream.len()
                &&& seg.length > 0
                &&& seg.file_offset + seg.length <= stream[seg.file_index as int].length
            } by {
                let seg = r@[k];
                assert(stream[seg.file_index as int] == files@[seg.file_index as int]@);
            }
        }
        r
    }

    /// The resume snapshot of the current state: the write bitfield and
    /// each piece's block flags.
    pub fn resume_data(&self) -> (r: ResumeData)
        ensures
            r.info_hash@ == util::spec_hex_of(self.torrent_info.info_hash@),
            r.downloaded_pieces@ == self.downloaded_pieces@,
            r.pieces@.len() == self.pieces@.len(),
    {
        let info_hash = util::hex_encode(self.torrent_info.info_hash.as_slice());
        let downloaded_pieces = copy_bools(&self.downloaded_pieces);
        let mut piece_states: Vec<PieceState> = Vec::new();
        let mut k: usize = 0;
        let count = self.pieces.piece_count();
        while k < count
            invariant
                k <= count,
                count == self.pieces@.len(),
                piece_states@.len() == k,
            decreases count - k,
        {
            match self.pieces.get_piece(k) {
                Some(piece) => {
                    let mut blocks: Vec<bool> = Vec::new();
                    let mut j: usize = 0;
                    let block_count = piece.block_count();
                    while j < block_count
                        invariant
                            j <= block_count,
                            block_count == piece.blocks@.len(),
                            blocks@.len() == j,
                        decreases block_count - j,
                    {
                        blocks.push(piece.blocks[j].is_some());
                        j = j + 1;
                    }
                    piece_states.push(PieceState { index: piece.index, blocks });
                },
                None => {
                    piece_states.push(PieceState { index: k as u32, blocks: Vec::new() });
                },
            }
            k = k + 1;
        }
        ResumeData { info_hash, downloaded_pieces, pieces: piece_states }
    }
}

/// Resume data in the file backend's shape: per-piece block flags plus the
/// write bitfield as booleans.
#[derive(Debug, Clone)]
pub struct ResumeData {
    /// Info hash as a hex string.
    pub info_hash: String,
    /// Which pieces have been written, one flag per piece.
    pub downloaded_pieces: Vec<bool>,
    /// Per-piece block flags.
    pub pieces: Vec<PieceState>,
}

impl ResumeData {
    /// Fresh resume data with nothing downloaded.
    pub fn new(info_hash: String, piece_count: usize) -> (r: ResumeData)
        ensures
            r.info_hash@ == info_hash@,
            r.downloaded_pieces@.len() == piece_count,
            forall|i: int| 0 <= i < piece_count ==> !r.downloaded_pieces@[i],
            r.pieces@.len() == 0,
    {
        let mut downloaded_pieces: Vec<bool> = Vec::new();
        let mut k: usize = 0;
        while k < piece_count
            invariant
                k <= piece_count,
                downloaded_pieces@.len() == k,
                forall|i: int| 0 <= i < k ==> !downloaded_pieces@[i],
            decreases piece_count - k,
        {
            downloaded_pieces.push(false);
            k = k + 1;
        }
        ResumeData { info_hash, downloaded_pieces, pieces: Vec::new() }
    }
}

/// A copy of a boolean vector.
fn copy_bools(v: &Vec<bool>) -> (r: Vec<bool>)
    ensures
        r@ == v@,
{
    util::copy_slice(v.as_slice())
}

/// Whether the files' total length fits the planner's arithmetic.
fn sum_fits(files: &Vec<TorrentFile>) -> (r: bool)
    ensures
        r ==> spec_sum_lengths(files@) <= u64::MAX,
{
    let mut sum: u64 = 0;
    let mut k: usize = 0;
    proof {
        assert(files@.take(0).len() == 0);
    }
    while k < files.len()
        invariant
            k <= files@.len(),
            sum == spec_sum_lengths(files@.take(k as int)),
        decreases files@.len() - k,
    {
        proof {
            assert(files@.take(k + 1).drop_last() =~= files@.take(k as int));
            assert(files@.take(k + 1).last() == files@[k as int]);
        }
        if files[k].length > u64::MAX - sum {
            return false;
        }
        sum = sum + files[k].length;
        k = k + 1;
    }
    proof {
        assert(files@.take(files@.len() as int) == files@);
    }
    true
}

/// Compares two path-component lists.
fn paths_equal(a: &Vec<String>, b: &Vec<String>) -> (r: bool)
    ensures
        r == (crate::torrent::info::spec_strings_view(a@) == crate::torrent::info::spec_strings_view(
            b@,
        )),
{
    if a.len() != b.len() {
        proof {
            assert(crate::torrent::info::spec_strings_view(a@).len() != crate::torrent::info::spec_strings_view(b@).len());
        }
        return false;
    }
    let mut k: usize = 0;
    while k < a.len()
        invariant
            k <= a@.len(),
            a@.len() == b@.len(),
            forall|i: int| 0 <= i < k ==> #[trigger] a@[i]@ == b@[i]@,
        decreases a@.len() - k,
    {
        let left = &a[k];
        if !(*left == b[k]) {
            proof {
                assert(crate::torrent::info::spec_strings_view(a@)[k as int] != crate::torrent::info::spec_strings_view(b@)[k as int]);
            }
            return false;
        }
        k = k + 1;
    }
    proof {
        assert(crate::torrent::info::spec_strings_view(a@) =~= crate::torrent::info::spec_strings_view(b@));
    }
    true
}

} // verus!
