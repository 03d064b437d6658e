//! Resume snapshots: which pieces are complete, and which blocks of partial
//! pieces have arrived.
//!
//! Reading and writing the snapshot file is I/O and lives outside the
//! library; everything here is the bookkeeping itself.

use vstd::prelude::*;
use crate::bits;

verus! {

/// Resume data for one torrent.
#[derive(Debug, Clone)]
pub struct ResumeData {
    /// Info hash as a hex string.
    pub info_hash: String,
    /// Which pieces are downloaded, MSB-first.
    pub downloaded_pieces: Vec<u8>,
    /// Partial piece states.
    pub pieces: Vec<PieceState>,
}

/// State of a single piece for resume.
#[derive(Debug, Clone)]
pub struct PieceState {
    /// Piece index.
    pub index: u32,
    /// Which blocks are downloaded.
    pub blocks: Vec<bool>,
}

/// The position of the first entry for `index`, or `-1` when there is none.
pub open spec fn spec_find_state(s: Seq<PieceState>, index: u32, from: int) -> int
    decreases s.len() - from,
{
    if from < 0 || from >= s.len() {
        -1
    } else if s[from].index == index {
        from
    } else {
        spec_find_state(s, index, from + 1)
    }
}

/// The entries of `s` whose index is not `index`, in order.
pub open spec fn spec_drop_state(s: Seq<PieceState>, index: u32) -> Seq<PieceState>
    decreases s,
{
    if s.len() == 0 {
        Seq::empty()
    } else {
        (if s[0].index == index {
            Seq::empty()
        } else {
            seq![s[0]]
        }) + spec_drop_state(s.drop_first(), index)
    }
}

/// Splitting the entries splits the drop.
pub proof fn lemma_drop_state_concat(a: Seq<PieceState>, b: Seq<PieceState>, index: u32)
    ensures
        spec_drop_state(a + b, index) == spec_drop_state(a, index) + spec_drop_state(b, index),
    decreases a.len(),
{
    if a.len() == 0 {
        assert(a + b == b);
        assert(spec_drop_state(a, index) == Seq::<PieceState>::empty());
        assert(spec_drop_state(a, index) + spec_drop_state(b, index) == spec_drop_state(b, index));
    } else {
        lemma_drop_state_concat(a.drop_first(), b, index);
        assert((a + b).drop_first() == a.drop_first() + b);
        assert((a + b)[0] == a[0]);
    }
}

/// The drop of one entry keeps or removes it.
pub proof fn lemma_drop_state_singleton(x: PieceState, index: u32)
    ensures
        spec_drop_state(seq![x], index) == (if x.index == index {
            Seq::<PieceState>::empty()
        } else {
            seq![x]
        }),
{
    let s = seq![x];
    assert(s[0] == x);
    assert(s.drop_first() =~= Seq::<PieceState>::empty());
    assert(spec_drop_state(s.drop_first(), index) == Seq::<PieceState>::empty());
    if x.index == index {
        assert(Seq::<PieceState>::empty() + Seq::<PieceState>::empty()
            =~= Seq::<PieceState>::empty());
    } else {
        assert(seq![x] + Seq::<PieceState>::empty() =~= seq![x]);
    }
}

/// No two entries describe the same piece.
pub open spec fn spec_states_unique(s: Seq<PieceState>) -> bool {
    forall|i: int, j: int|
        0 <= i < j < s.len() ==> (#[trigger] s[i]).index != (#[trigger] s[j]).index
}

/// Every entry of the drop is an entry of the input.
proof fn lemma_drop_state_members(s: Seq<PieceState>, index: u32)
    ensures
        forall|i: int|
            0 <= i < spec_drop_state(s, index).len() ==> exists|j: int|
                0 <= j < s.len() && s[j] == #[trigger] spec_drop_state(s, index)[i],
    decreases s,
{
    if s.len() > 0 {
        lemma_drop_state_members(s.drop_first(), index);
        let dropped = spec_drop_state(s, index);
        let rest = spec_drop_state(s.drop_first(), index);
        assert forall|i: int|
            0 <= i < dropped.len() implies exists|j: int|
            0 <= j < s.len() && s[j] == #[trigger] dropped[i] by {
            if s[0].index == index {
                assert(dropped =~= rest);
                let j = choose|j: int|
                    0 <= j < s.drop_first().len() && s.drop_first()[j] == rest[i];
                assert(s[j + 1] == dropped[i]);
            } else {
                if i == 0 {
                    assert(dropped[0] == s[0]);
                } else {
                    assert(dropped[i] == rest[i - 1]);
                    let j = choose|j: int|
                        0 <= j < s.drop_first().len() && s.drop_first()[j] == rest[i - 1];
                    assert(s[j + 1] == dropped[i]);
                }
            }
        }
    }
}

/// Dropping a piece's entries preserves index uniqueness.
proof fn lemma_drop_state_unique(s: Seq<PieceState>, index: u32)
    requires
        spec_states_unique(s),
    ensures
        spec_states_unique(spec_drop_state(s, index)),
    decreases s,
{
    if s.len() > 0 {
        assert(spec_states_unique(s.drop_first())) by {
            assert forall|i: int, j: int|
                0 <= i < j < s.drop_first().len() implies (
            #[trigger] s.drop_first()[i]).index != (#[trigger] s.drop_first()[j]).index by {
                assert(s.drop_first()[i] == s[i + 1] && s.drop_first()[j] == s[j + 1]);
            }
        }
        lemma_drop_state_unique(s.drop_first(), index);
        lemma_drop_state_members(s.drop_first(), index);
        let dropped = spec_drop_state(s, index);
        let rest = spec_drop_state(s.drop_first(), index);
        if s[0].index == index {
            assert(dropped =~= rest);
        } else {
            assert forall|i: int, j: int|
                0 <= i < j < dropped.len() implies (#[trigger] dropped[i]).index != (
            #[trigger] dropped[j]).index by {
                if i == 0 {
                    assert(dropped[j] == rest[j - 1]);
                    let j2 = choose|j2: int|
                        0 <= j2 < s.drop_first().len() && s.drop_first()[j2] == rest[j - 1];
                    assert(s[j2 + 1] == dropped[j]);
                    assert(s[0].index != s[j2 + 1].index);
                    assert(dropped[0] == s[0]);
                } else {
                    assert(dropped[i] == rest[i - 1] && dropped[j] == rest[j - 1]);
                }
            }
        }
    }
}

/// How many of the first `upto` flags are set.
pub open spec fn spec_count_true(s: Seq<bool>, upto: int) -> int
    decreases upto,
{
    if upto <= 0 {
        0
    } else {
        spec_count_true(s, upto - 1) + if s[upto - 1] {
            1int
        } else {
            0int
        }
    }
}

/// Bit `b` of a zero byte is clear.
proof fn lemma_zero_byte_bit(b: u8)
    requires
        b < 8,
    ensures
        (0u8 >> b) & 1 != 1,
{
    assert((0u8 >> b) & 1 != 1) by (bit_vector)
        requires
            b < 8,
    ;
}

impl ResumeData {
    /// Fresh resume data: a zeroed piece bitfield sized for `piece_count`
    /// pieces and no partial pieces.
    pub fn new(info_hash: String, piece_count: usize) -> (r: ResumeData)
        requires
            piece_count <= usize::MAX - 7,
        ensures
            r.info_hash@ == info_hash@,
            r.downloaded_pieces@.len() == (piece_count + 7) / 8,
            forall|i: int|
                0 <= i < 8 * r.downloaded_pieces@.len() ==> !bits::spec_bit_at(
                    r.downloaded_pieces@,
                    i,
                ),
            r.pieces@.len() == 0,
    {
        let len = (piece_count + 7) / 8;
        let mut downloaded_pieces: Vec<u8> = Vec::new();
        let mut k: usize = 0;
        while k < len
            invariant
                k <= len,
                downloaded_pieces@.len() == k,
                forall|i: int| 0 <= i < k ==> downloaded_pieces@[i] == 0,
            decreases len - k,
        {
            downloaded_pieces.push(0);
            k = k + 1;
        }
        proof {
            assert forall|i: int|
                0 <= i < 8 * downloaded_pieces@.len() implies !bits::spec_bit_at(
                downloaded_pieces@,
                i,
            ) by {
                lemma_zero_byte_bit((7 - (i % 8)) as u8);
            }
        }
        ResumeData { info_hash, downloaded_pieces, pieces: Vec::new() }
    }

    /// Marks a piece as downloaded; indices beyond the bitfield are
    /// ignored.
    pub fn set_piece_downloaded(&mut self, piece_index: usize)
        ensures
            final(self).info_hash == old(self).info_hash,
            final(self).pieces == old(self).pieces,
            final(self).downloaded_pieces@.len() == old(self).downloaded_pieces@.len(),
            if piece_index < 8 * old(self).downloaded_pieces@.len() {
                bits::spec_bit_at(final(self).downloaded_pieces@, piece_index as int) && forall|
                    j: int,
                |
                    0 <= j < 8 * old(self).downloaded_pieces@.len() && j != piece_index
                        ==> bits::spec_bit_at(final(self).downloaded_pieces@, j)
                        == bits::spec_bit_at(old(self).downloaded_pieces@, j)
            } else {
                final(self).downloaded_pieces == old(self).downloaded_pieces
            },
    {
        if piece_index / 8 < self.downloaded_pieces.len() {
            proof {
                assert(piece_index < 8 * self.downloaded_pieces@.len());
            }
            bits::set_bit(&mut self.downloaded_pieces, piece_index);
        } else {
            proof {
                assert(piece_index >= 8 * self.downloaded_pieces@.len());
            }
        }
    }

    /// Whether a piece is recorded as downloaded; indices beyond the
    /// bitfield are not.
    pub fn is_piece_downloaded(&self, piece_index: usize) -> (r: bool)
        ensures
            r == (piece_index < 8 * self.downloaded_pieces@.len() && bits::spec_bit_at(
                self.downloaded_pieces@,
                piece_index as int,
            )),
    {
        if piece_index / 8 >= self.downloaded_pieces.len() {
            proof {
                assert(piece_index >= 8 * self.downloaded_pieces@.len());
            }
            return false;
        }
        proof {
            assert(piece_index < 8 * self.downloaded_pieces@.len());
        }
        bits::get_bit(self.downloaded_pieces.as_slice(), piece_index)
    }

    /// How many pieces the bitfield records as downloaded.
    pub fn downloaded_count(&self) -> (r: usize)
        requires
            self.downloaded_pieces@.len() <= usize::MAX / 8,
        ensures
            r == bits::spec_count_set(
                self.downloaded_pieces@,
                8 * self.downloaded_pieces@.len() as int,
            ),
    {
        let mut count: usize = 0;
        let mut byte_index: usize = 0;
        while byte_index < self.downloaded_pieces.len()
            invariant
                byte_index <= self.downloaded_pieces@.len(),
                self.downloaded_pieces@.len() <= usize::MAX / 8,
                count == bits::spec_count_set(self.downloaded_pieces@, 8 * byte_index as int),
                count <= 8 * byte_index,
            decreases self.downloaded_pieces@.len() - byte_index,
        {
            let mut bit: usize = 0;
            while bit < 8
                invariant
                    bit <= 8,
                    byte_index < self.downloaded_pieces@.len(),
                    self.downloaded_pieces@.len() <= usize::MAX / 8,
                    count == bits::spec_count_set(
                        self.downloaded_pieces@,
                        8 * byte_index + bit as int,
                    ),
                    count <= 8 * byte_index + bit,
                decreases 8 - bit,
            {
                if bits::get_bit(self.downloaded_pieces.as_slice(), 8 * byte_index + bit) {
                    count = count + 1;
                }
                bit = bit + 1;
            }
            byte_index = byte_index + 1;
        }
        count
    }

    /// Replaces the entry for this piece, or appends one when the piece has
    /// none yet; entries for distinct pieces stay distinct.
    pub fn update_piece_state(&mut self, piece_state: PieceState)
        ensures
            final(self).info_hash == old(self).info_hash,
            final(self).downloaded_pieces == old(self).downloaded_pieces,
            ({
                let j = spec_find_state(old(self).pieces@, piece_state.index, 0);
                if j >= 0 {
                    final(self).pieces@ == old(self).pieces@.update(j, piece_state)
                } else {
                    final(self).pieces@ == old(self).pieces@.push(piece_state)
                }
            }),
            spec_states_unique(old(self).pieces@) ==> spec_states_unique(final(self).pieces@),
    {
        let mut k: usize = 0;
        while k < self.pieces.len()
            invariant
                k <= self.pieces@.len(),
                *self == *old(self),
                forall|j: int| 0 <= j < k ==> self.pieces@[j].index != piece_state.index,
                spec_find_state(self.pieces@, piece_state.index, 0) == spec_find_state(
                    self.pieces@,
                    piece_state.index,
                    k as int,
                ),
            decreases self.pieces@.len() - k,
        {
            if self.pieces[k].index == piece_state.index {
                let ghost before = self.pieces@;
                self.pieces.set(k, piece_state);
                proof {
                    if spec_states_unique(before) {
                        assert forall|i: int, j: int|
                            0 <= i < j < self.pieces@.len() implies (
                        #[trigger] self.pieces@[i]).index != (#[trigger] self.pieces@[j]).index by {
                            if i != k {
                                assert(self.pieces@[i] == before[i]);
                            }
                            if j != k {
                                assert(self.pieces@[j] == before[j]);
                            }
                            assert(self.pieces@[k as int].index == before[k as int].index);
                        }
                    }
                }
                return ;
            }
            k = k + 1;
        }
        self.pieces.push(piece_state);
        proof {
            if spec_states_unique(old(self).pieces@) {
                assert forall|i: int, j: int|
                    0 <= i < j < self.pieces@.len() implies (#[trigger] self.pieces@[i]).index
                    != (#[trigger] self.pieces@[j]).index by {
                    if j == self.pieces@.len() - 1 {
                        assert(self.pieces@[i] == old(self).pieces@[i]);
                    }
                }
            }
        }
    }

    /// The recorded state of a piece, if any.
    pub fn get_piece_state(&self, index: u32) -> (r: Option<&PieceState>)
        ensures
            ({
                let j = spec_find_state(self.pieces@, index, 0);
                match r {
                    Some(p) => j >= 0 && *p == self.pieces@[j],
                    None => j == -1,
                }
            }),
    {
        let mut k: usize = 0;
        while k < self.pieces.len()
            invariant
                k <= self.pieces@.len(),
                forall|j: int| 0 <= j < k ==> self.pieces@[j].index != index,
                spec_find_state(self.pieces@, index, 0) == spec_find_state(
                    self.pieces@,
                    index,
                    k as int,
                ),
            decreases self.pieces@.len() - k,
        {
            if self.pieces[k].index == index {
                return Some(&self.pieces[k]);
            }
            k = k + 1;
        }
        None
    }

    /// Removes every entry recorded for this piece; entries for distinct
    /// pieces stay distinct.
    pub fn remove_piece_state(&mut self, index: u32)
        ensures
            final(self).info_hash == old(self).info_hash,
            final(self).downloaded_pieces == old(self).downloaded_pieces,
            final(self).pieces@ == spec_drop_state(old(self).pieces@, index),
            spec_states_unique(old(self).pieces@) ==> spec_states_unique(final(self).pieces@),
    {
        proof {
            if spec_states_unique(self.pieces@) {
                lemma_drop_state_unique(self.pieces@, index);
            }
        }
        let ghost orig = self.pieces@;
        let mut k: usize = 0;
        let ghost consumed: int = 0;
        while k < self.pieces.len()
            invariant
                self.info_hash == old(self).info_hash,
                self.downloaded_pieces == old(self).downloaded_pieces,
                0 <= k <= self.pieces@.len(),
                0 <= consumed <= orig.len(),
                self.pieces@ == spec_drop_state(orig.subrange(0, consumed), index) + orig.subrange(
                    consumed,
                    orig.len() as int,
                ),
                k == spec_drop_state(orig.subrange(0, consumed), index).len(),
            decreases orig.len() - consumed,
        {
            proof {
                assert(orig.subrange(0, consumed + 1) =~= orig.subrange(0, consumed) + seq![
                    orig[consumed],
                ]);
                lemma_drop_state_concat(orig.subrange(0, consumed), seq![orig[consumed]], index);
                lemma_drop_state_singleton(orig[consumed], index);
                assert(self.pieces@[k as int] == orig[consumed]);
            }
            if self.pieces[k].index == index {
                self.pieces.remove(k);
                proof {
                    let kept = spec_drop_state(orig.subrange(0, consumed), index);
                    assert(self.pieces@ =~= kept + orig.subrange(consumed + 1, orig.len() as int));
                    assert(spec_drop_state(orig.subrange(0, consumed + 1), index) =~= kept);
                }
            } else {
                k = k + 1;
                proof {
                    let kept = spec_drop_state(orig.subrange(0, consumed), index);
                    assert(spec_drop_state(orig.subrange(0, consumed + 1), index) =~= kept + seq![
                        orig[consumed],
                    ]);
                    assert(self.pieces@ =~= spec_drop_state(orig.subrange(0, consumed + 1), index)
                        + orig.subrange(consumed + 1, orig.len() as int));
                }
            }
            proof {
                consumed = consumed + 1;
            }
        }
        proof {
            assert(orig.subrange(0, orig.len() as int) == orig);
            assert(consumed == orig.len()) by {
                if consumed < orig.len() {
                    assert(self.pieces@.len() >= k + (orig.len() - consumed));
                }
            }
            assert(orig.subrange(consumed, orig.len() as int) =~= Seq::<PieceState>::empty());
            assert(self.pieces@ =~= spec_drop_state(orig, index));
        }
    }
}

impl PieceState {
    /// A fresh piece state with every block still missing.
    pub fn new(index: u32, block_count: usize) -> (r: PieceState)
        ensures
            r.index == index,
            r.blocks@.len() == block_count,
            forall|i: int| 0 <= i < block_count ==> !r.blocks@[i],
    {
        let mut blocks: Vec<bool> = Vec::new();
        let mut k: usize = 0;
        while k < block_count
            invariant
                k <= block_count,
                blocks@.len() == k,
                forall|i: int| 0 <= i < k ==> !blocks@[i],
            decreases block_count - k,
        {
            blocks.push(false);
            k = k + 1;
        }
        PieceState { index, blocks }
    }

    /// Marks a block as downloaded; indices beyond the array are ignored.
    pub fn set_block_downloaded(&mut self, block_index: usize)
        ensures
            final(self).index == old(self).index,
            if block_index < old(self).blocks@.len() {
                final(self).blocks@ == old(self).blocks@.update(block_index as int, true)
            } else {
                final(self).blocks == old(self).blocks
            },
    {
        if block_index < self.blocks.len() {
            self.blocks.set(block_index, true);
        }
    }

    /// Whether a block is recorded as downloaded; indices beyond the array
    /// are not.
    pub fn is_block_downloaded(&self, block_index: usize) -> (r: bool)
        ensures
            r == (block_index < self.blocks@.len() && self.blocks@[block_index as int]),
    {
        if block_index < self.blocks.len() {
            self.blocks[block_index]
        } else {
            false
        }
    }

    /// How many blocks are recorded as downloaded.
    pub fn downloaded_blocks(&self) -> (r: usize)
        ensures
            r == spec_count_true(self.blocks@, self.blocks@.len() as int),
    {
        let mut count: usize = 0;
        let mut k: usize = 0;
        while k < self.blocks.len()
            invariant
                k <= self.blocks@.len(),
                count == spec_count_true(self.blocks@, k as int),
                count <= k,
            decreases self.blocks@.len() - k,
        {
            if self.blocks[k] {
                count = count + 1;
            }
            k = k + 1;
        }
        count
    }

    /// True exactly when every block is downloaded.
    pub fn is_complete(&self) -> (r: bool)
        ensures
            r == (forall|i: int| 0 <= i < self.blocks@.len() ==> self.blocks@[i]),
    {
        let mut k: usize = 0;
        while k < self.blocks.len()
            invariant
                k <= self.blocks@.len(),
                forall|i: int| 0 <= i < k ==> self.blocks@[i],
            decreases self.blocks@.len() - k,
        {
            if !self.blocks[k] {
                return false;
            }
            k = k + 1;
        }
        true
    }

    /// Forgets every downloaded block.
    pub fn clear(&mut self)
        ensures
            final(self).index == old(self).index,
            final(self).blocks@.len() == old(self).blocks@.len(),
            forall|i: int| 0 <= i < final(self).blocks@.len() ==> !final(self).blocks@[i],
    {
        let mut k: usize = 0;
        while k < self.blocks.len()
            invariant
                k <= self.blocks@.len(),
                self.blocks@.len() == old(self).blocks@.len(),
                self.index == old(self).index,
                forall|i: int| 0 <= i < k ==> !self.blocks@[i],
            decreases self.blocks@.len() - k,
        {
            self.blocks.set(k, false);
            k = k + 1;
        }
    }
}

/// Names the resume file of each torrent inside a chosen directory.
pub struct ResumeManager {
    /// Directory that holds the resume files.
    pub resume_dir: String,
}

impl ResumeManager {
    /// A manager that keeps resume files under `resume_dir`.
    pub fn new(resume_dir: String) -> (r: ResumeManager)
        ensures
            r.resume_dir@ == resume_dir@,
    {
        ResumeManager { resume_dir }
    }

    /// The path of the resume file for `info_hash`:
    /// `<resume_dir>/<info_hash>.resume`.
    pub fn resume_file_path(&self, info_hash: &str) -> (r: String)
        ensures
            r@ == self.resume_dir@ + "/"@ + info_hash@ + ".resume"@,
    {
        let mut path = self.resume_dir.clone();
        path.append("/");
        path.append(info_hash);
        path.append(".resume");
        path
    }
}

impl Default for ResumeManager {
    /// The default manager keeps resume files under `.resume`.
    fn default() -> (r: ResumeManager)
        ensures
            r.resume_dir@ == ".resume"@,
    {
        ResumeManager { resume_dir: String::from_str(".resume") }
    }
}

} // verus!
