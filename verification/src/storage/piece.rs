//! Pieces and their blocks.
//!
//! A piece owns an array of 16 KiB block slots; when all slots are filled it
//! can be verified against its 20-byte SHA-1 hash. A verified piece always
//! carries data whose digest is its hash.

use vstd::prelude::*;
use crate::bits;
use crate::error::TorrentError;
use crate::sha::{sha1_of, sha1_digest};

verus! {

/// Size in bytes of one block slot.
pub const PIECE_BLOCK_SIZE: u32 = 16384;

/// The most block slots a piece can have: enough for a 4 GiB piece, the
/// largest the wire's 32-bit offsets can address.
pub const MAX_BLOCKS_PER_PIECE: usize = 262144;

/// Status of a piece.
#[derive(Debug, Clone, Copy, PartialEq, Eq, Structural)]
pub enum PieceStatus {
    /// Piece not downloaded.
    Missing,
    /// Piece is being downloaded.
    Downloading,
    /// Piece downloaded but not verified.
    Downloaded,
    /// Piece verified and complete.
    Complete,
}

impl Default for PieceStatus {
    /// A piece starts out missing.
    fn default() -> (r: PieceStatus)
        ensures
            r == PieceStatus::Missing,
    {
        PieceStatus::Missing
    }
}

/// One block of a piece, as received from a peer.
#[derive(Debug, Clone)]
pub struct Block {
    /// Piece this block belongs to.
    pub piece_index: u32,
    /// Offset within the piece.
    pub offset: u32,
    /// Length of the block.
    pub length: u32,
    /// Block data.
    pub data: Vec<u8>,
}

impl Block {
    /// A block with the given coordinates and data.
    pub fn new(piece_index: u32, offset: u32, length: u32, data: Vec<u8>) -> (r: Block)
        ensures
            r.piece_index == piece_index,
            r.offset == offset,
            r.length == length,
            r.data@ == data@,
    {
        Block { piece_index, offset, length, data }
    }

    /// The block's data.
    pub fn data(&self) -> (r: &[u8])
        ensures
            r@ == self.data@,
    {
        self.data.as_slice()
    }
}

/// The bytes of the filled slots of `s`, in slot order; empty slots
/// contribute nothing.
pub open spec fn spec_concat_blocks(s: Seq<Option<Vec<u8>>>) -> Seq<u8>
    decreases s,
{
    if s.len() == 0 {
        Seq::empty()
    } else {
        (match s[0] {
            Some(b) => b@,
            None => Seq::empty(),
        }) + spec_concat_blocks(s.drop_first())
    }
}

/// Splitting the slots splits their concatenation.
pub proof fn lemma_concat_blocks_concat(a: Seq<Option<Vec<u8>>>, b: Seq<Option<Vec<u8>>>)
    ensures
        spec_concat_blocks(a + b) == spec_concat_blocks(a) + spec_concat_blocks(b),
    decreases a.len(),
{
    if a.len() == 0 {
        assert(a + b == b);
        assert(spec_concat_blocks(a) == Seq::<u8>::empty());
        assert(spec_concat_blocks(a) + spec_concat_blocks(b) == spec_concat_blocks(b));
    } else {
        lemma_concat_blocks_concat(a.drop_first(), b);
        assert((a + b).drop_first() == a.drop_first() + b);
        assert((a + b)[0] == a[0]);
    }
}

/// The concatenation of one slot is its bytes.
pub proof fn lemma_concat_blocks_singleton(x: Option<Vec<u8>>)
    ensures
        spec_concat_blocks(seq![x]) == (match x {
            Some(b) => b@,
            None => Seq::<u8>::empty(),
        }),
{
    let s = seq![x];
    assert(s[0] == x);
    assert(s.drop_first() =~= Seq::<Option<Vec<u8>>>::empty());
    assert(spec_concat_blocks(s.drop_first()) == Seq::<u8>::empty());
    assert((match x {
        Some(b) => b@,
        None => Seq::<u8>::empty(),
    }) + Seq::<u8>::empty() =~= (match x {
        Some(b) => b@,
        None => Seq::<u8>::empty(),
    }));
}

/// How many of the first `upto` slots are filled.
pub open spec fn spec_count_filled(s: Seq<Option<Vec<u8>>>, upto: int) -> int
    decreases upto,
{
    if upto <= 0 {
        0
    } else {
        spec_count_filled(s, upto - 1) + if s[upto - 1] is Some {
            1int
        } else {
            0int
        }
    }
}

/// One piece of the torrent.
#[derive(Debug, Clone)]
pub struct Piece {
    /// Piece index.
    pub index: u32,
    /// The piece's length in bytes; the last piece of a torrent is
    /// usually shorter than the configured piece length.
    pub length: usize,
    /// Piece data, filled in by `verify`.
    pub data: Vec<u8>,
    /// Expected SHA-1 hash.
    pub hash: Vec<u8>,
    /// Whether the piece has been verified.
    pub verified: bool,
    /// Block slots; an empty slot is still missing.
    pub blocks: Vec<Option<Vec<u8>>>,
}

/// A piece the library's operations keep well formed: a 20-byte hash, one
/// slot per 16 KiB of its length, and data that matches the hash whenever
/// `verified` is set.
pub open spec fn spec_piece_wf(p: Piece) -> bool {
    &&& p.hash@.len() == 20
    &&& p.length <= u32::MAX
    &&& p.blocks@.len() == spec_block_count(p.length as int)
    &&& p.blocks@.len() <= MAX_BLOCKS_PER_PIECE
    &&& (p.verified ==> sha1_of(p.data@) == p.hash@)
}

/// The length of the block in slot `slot` of a piece of `length` bytes: a
/// full block, except that the final slot holds only what remains.
pub open spec fn spec_slot_len(length: int, slot: int) -> int {
    if length - slot * (PIECE_BLOCK_SIZE as int) < PIECE_BLOCK_SIZE as int {
        length - slot * (PIECE_BLOCK_SIZE as int)
    } else {
        PIECE_BLOCK_SIZE as int
    }
}

/// Whether depositing `data_len` bytes at `offset` matches the slot
/// geometry of a piece of `length` bytes: the offset on a block boundary
/// inside the piece, and exactly the slot's bytes.
pub open spec fn spec_deposit_ok(length: int, offset: int, data_len: int) -> bool {
    &&& offset % (PIECE_BLOCK_SIZE as int) == 0
    &&& 0 <= offset < length
    &&& data_len == spec_slot_len(length, offset / (PIECE_BLOCK_SIZE as int))
}

/// Every slot of a piece starts strictly inside it.
pub proof fn lemma_slot_start_bound(length: int, i: int)
    requires
        0 <= i < spec_block_count(length),
        length >= 0,
    ensures
        i * (PIECE_BLOCK_SIZE as int) < length,
        1 <= spec_slot_len(length, i) <= PIECE_BLOCK_SIZE as int,
{
    let bs = PIECE_BLOCK_SIZE as int;
    vstd::arithmetic::div_mod::lemma_fundamental_div_mod(length, bs);
    vstd::arithmetic::div_mod::lemma_mod_bound(length, bs);
    let q = length / bs;
    let r = length % bs;
    if r == 0 {
        assert(i <= q - 1);
        assert(i * bs <= (q - 1) * bs) by (nonlinear_arith)
            requires
                i <= q - 1,
                bs > 0,
        ;
        assert((q - 1) * bs == q * bs - bs) by (nonlinear_arith);
        assert(bs * q == q * bs) by (nonlinear_arith);
    } else {
        assert(i <= q);
        assert(i * bs <= q * bs) by (nonlinear_arith)
            requires
                i <= q,
                bs > 0,
        ;
        assert(bs * q == q * bs) by (nonlinear_arith);
    }
}

/// Every verified piece carries exactly the bytes its hash names: the
/// verification invariant of the piece store.
pub proof fn lemma_verified_piece_matches_hash(p: Piece)
    requires
        spec_piece_wf(p),
        p.verified,
    ensures
        sha1_of(p.data@) == p.hash@,
{
}

impl Piece {
    /// A fresh piece of `piece_length` bytes with the given expected hash
    /// and no blocks yet.
    pub fn new(index: u32, piece_length: usize, expected_hash: Vec<u8>) -> (r: Piece)
        requires
            expected_hash@.len() == 20,
            piece_length <= u32::MAX,
        ensures
            r.index == index,
            r.length == piece_length,
            r.data@.len() == 0,
            r.hash@ == expected_hash@,
            r.verified == false,
            r.blocks@.len() == spec_block_count(piece_length as int),
            forall|i: int| 0 <= i < r.blocks@.len() ==> r.blocks@[i] is None,
            spec_piece_wf(r),
    {
        let bs = PIECE_BLOCK_SIZE as usize;
        let num_blocks = piece_length / bs + (if piece_length % bs != 0 {
            1usize
        } else {
            0usize
        });
        proof {
            vstd::arithmetic::div_mod::lemma_div_is_ordered(
                piece_length as int,
                u32::MAX as int,
                PIECE_BLOCK_SIZE as int,
            );
        }
        let mut blocks: Vec<Option<Vec<u8>>> = Vec::new();
        let mut k: usize = 0;
        while k < num_blocks
            invariant
                k <= num_blocks,
                blocks@.len() == k,
                forall|i: int| 0 <= i < k ==> blocks@[i] is None,
            decreases num_blocks - k,
        {
            blocks.push(None);
            k = k + 1;
        }
        Piece {
            index,
            length: piece_length,
            data: Vec::new(),
            hash: expected_hash,
            verified: false,
            blocks,
        }
    }

    /// Stores a received block in the slot its offset names. Fails exactly
    /// when the offset or the data length does not match the slot
    /// geometry: the offset must sit on a block boundary inside the piece
    /// and the data must be exactly the slot's bytes.
    pub fn add_block(&mut self, offset: u32, data: Vec<u8>) -> (r: Result<(), TorrentError>)
        requires
            spec_piece_wf(*old(self)),
        ensures
            spec_piece_wf(*final(self)),
            match r {
                Ok(()) => spec_deposit_ok(
                    old(self).length as int,
                    offset as int,
                    data@.len() as int,
                ) && final(self).blocks@ == old(self).blocks@.update(
                    (offset as int) / (PIECE_BLOCK_SIZE as int),
                    Some(data),
                ),
                Err(e) => !spec_deposit_ok(
                    old(self).length as int,
                    offset as int,
                    data@.len() as int,
                ) && e is ValidationError && *final(self) == *old(self),
            },
            final(self).index == old(self).index,
            final(self).length == old(self).length,
            final(self).data == old(self).data,
            final(self).hash == old(self).hash,
            final(self).verified == old(self).verified,
    {
        if offset % PIECE_BLOCK_SIZE != 0 {
            return Err(
                TorrentError::validation_error_with_field(
                    "Block offset not on a block boundary",
                    "offset",
                ),
            );
        }
        if (offset as usize) >= self.length {
            return Err(
                TorrentError::validation_error_with_field("Block offset beyond piece", "offset"),
            );
        }
        let remaining = self.length - (offset as usize);
        let expected = if remaining < PIECE_BLOCK_SIZE as usize {
            remaining
        } else {
            PIECE_BLOCK_SIZE as usize
        };
        proof {
            let bs = PIECE_BLOCK_SIZE as int;
            vstd::arithmetic::div_mod::lemma_fundamental_div_mod(offset as int, bs);
            assert((offset as int) == bs * ((offset as int) / bs));
            assert(bs * ((offset as int) / bs) == ((offset as int) / bs) * bs)
                by (nonlinear_arith);
        }
        if data.len() != expected {
            return Err(
                TorrentError::validation_error_with_field(
                    "Block length does not match its slot",
                    "length",
                ),
            );
        }
        let block_index = (offset / PIECE_BLOCK_SIZE) as usize;
        proof {
            let bs = PIECE_BLOCK_SIZE as int;
            assert(block_index < spec_block_count(self.length as int)) by {
                vstd::arithmetic::div_mod::lemma_div_is_ordered(
                    offset as int,
                    self.length - 1,
                    bs,
                );
                vstd::arithmetic::div_mod::lemma_fundamental_div_mod(self.length as int, bs);
                vstd::arithmetic::div_mod::lemma_mod_bound(self.length as int, bs);
                let q = (self.length as int) / bs;
                let rem = (self.length as int) % bs;
                if rem == 0 {
                    vstd::arithmetic::div_mod::lemma_fundamental_div_mod_converse(
                        self.length - 1,
                        bs,
                        q - 1,
                        bs - 1,
                    );
                } else {
                    vstd::arithmetic::div_mod::lemma_fundamental_div_mod_converse(
                        self.length - 1,
                        bs,
                        q,
                        rem - 1,
                    );
                }
            }
        }
        self.blocks.set(block_index, Some(data));
        Ok(())
    }

    /// True exactly when every slot is filled.
    pub fn is_complete(&self) -> (r: bool)
        ensures
            r == (forall|i: int| 0 <= i < self.blocks@.len() ==> self.blocks@[i] is Some),
    {
        let mut k: usize = 0;
        while k < self.blocks.len()
            invariant
                k <= self.blocks@.len(),
                forall|i: int| 0 <= i < k ==> self.blocks@[i] is Some,
            decreases self.blocks@.len() - k,
        {
            if self.blocks[k].is_none() {
                return false;
            }
            k = k + 1;
        }
        true
    }

    /// Concatenates the filled slots into `data`, hashes, and compares with
    /// the expected hash; `verified` records the outcome.
    pub fn verify(&mut self) -> (r: bool)
        requires
            spec_piece_wf(*old(self)),
        ensures
            spec_piece_wf(*final(self)),
            final(self).data@ == spec_concat_blocks(old(self).blocks@),
            final(self).verified == (sha1_of(spec_concat_blocks(old(self).blocks@))
                == old(self).hash@),
            r == final(self).verified,
            final(self).index == old(self).index,
            final(self).length == old(self).length,
            final(self).hash == old(self).hash,
            final(self).blocks == old(self).blocks,
    {
        let mut data: Vec<u8> = Vec::new();
        let mut k: usize = 0;
        while k < self.blocks.len()
            invariant
                k <= self.blocks@.len(),
                data@ == spec_concat_blocks(self.blocks@.subrange(0, k as int)),
                spec_piece_wf(*self),
                *self == *old(self),
            decreases self.blocks@.len() - k,
        {
            match &self.blocks[k] {
                Some(block_data) => {
                    let mut j: usize = 0;
                    let ghost before = data@;
                    while j < block_data.len()
                        invariant
                            j <= block_data@.len(),
                            data@ == before + block_data@.subrange(0, j as int),
                        decreases block_data@.len() - j,
                    {
                        data.push(block_data[j]);
                        j = j + 1;
                        assert(block_data@.subrange(0, j as int) =~= block_data@.subrange(
                            0,
                            j - 1,
                        ) + seq![block_data@[j - 1]]);
                    }
                    assert(block_data@.subrange(0, block_data@.len() as int) == block_data@);
                },
                None => {},
            }
            k = k + 1;
            proof {
                let pre = self.blocks@.subrange(0, k - 1 as int);
                lemma_concat_blocks_concat(pre, seq![self.blocks@[k - 1 as int]]);
                lemma_concat_blocks_singleton(self.blocks@[k - 1 as int]);
                assert(self.blocks@.subrange(0, k as int) =~= pre + seq![
                    self.blocks@[k - 1 as int],
                ]);
            }
        }
        assert(self.blocks@.subrange(0, self.blocks@.len() as int) == self.blocks@);
        let digest = sha1_digest(data.as_slice());
        let matches_hash = crate::protocol::wire::bytes_eq(digest.as_slice(), self.hash.as_slice());
        self.data = data;
        self.verified = matches_hash;
        matches_hash
    }

    /// The still-missing slots, each as `(offset, length)` of a block
    /// request.
    pub fn get_missing_blocks(&self) -> (r: Vec<(u32, u32)>)
        requires
            spec_piece_wf(*self),
        ensures
            r@.len() == self.blocks@.len() - spec_count_filled(
                self.blocks@,
                self.blocks@.len() as int,
            ),
            forall|j: int|
                0 <= j < r@.len() ==> (#[trigger] r@[j]).0 as int % (PIECE_BLOCK_SIZE as int) == 0
                    && (r@[j].0 as int) / (PIECE_BLOCK_SIZE as int) < self.blocks@.len()
                    && self.blocks@[(r@[j].0 as int) / (PIECE_BLOCK_SIZE as int)] is None
                    && r@[j].1 == spec_slot_len(
                    self.length as int,
                    (r@[j].0 as int) / (PIECE_BLOCK_SIZE as int),
                ),
            forall|j1: int, j2: int| 0 <= j1 < j2 < r@.len() ==> (#[trigger] r@[j1]).0 < (
            #[trigger] r@[j2]).0,
    {
        let mut missing: Vec<(u32, u32)> = Vec::new();
        let mut k: usize = 0;
        while k < self.blocks.len()
            invariant
                k <= self.blocks@.len(),
                spec_piece_wf(*self),
                missing@.len() == k - spec_count_filled(self.blocks@, k as int),
                forall|j: int|
                    0 <= j < missing@.len() ==> (#[trigger] missing@[j]).0 as int % (
                    PIECE_BLOCK_SIZE as int) == 0 && (missing@[j].0 as int) / (
                    PIECE_BLOCK_SIZE as int) < self.blocks@.len() && self.blocks@[(missing@[
                    j].0 as int) / (PIECE_BLOCK_SIZE as int)] is None && missing@[j].1
                        == spec_slot_len(
                        self.length as int,
                        (missing@[j].0 as int) / (PIECE_BLOCK_SIZE as int),
                    ),
                forall|j: int|
                    0 <= j < missing@.len() ==> (#[trigger] missing@[j]).0 < k * (
                    PIECE_BLOCK_SIZE as int),
                forall|j1: int, j2: int|
                    0 <= j1 < j2 < missing@.len() ==> (#[trigger] missing@[j1]).0 < (
                    #[trigger] missing@[j2]).0,
            decreases self.blocks@.len() - k,
        {
            if self.blocks[k].is_none() {
                proof {
                    lemma_slot_start_bound(self.length as int, k as int);
                }
                let offset = (k as u32) * PIECE_BLOCK_SIZE;
                proof {
                    assert((offset as int) / (PIECE_BLOCK_SIZE as int) == k as int
                        && (offset as int) % (PIECE_BLOCK_SIZE as int) == 0 && offset == (
                    k as int) * (PIECE_BLOCK_SIZE as int)) by (nonlinear_arith)
                        requires
                            offset == k * PIECE_BLOCK_SIZE,
                            0 <= k < 262144,
                            PIECE_BLOCK_SIZE == 16384,
                    ;
                }
                let remaining = self.length - k * (PIECE_BLOCK_SIZE as usize);
                let slot_len = if remaining < PIECE_BLOCK_SIZE as usize {
                    remaining
                } else {
                    PIECE_BLOCK_SIZE as usize
                };
                missing.push((offset, slot_len as u32));
            }
            k = k + 1;
        }
        missing
    }

    /// Forgets all data and blocks; the piece is no longer verified.
    pub fn clear(&mut self)
        ensures
            final(self).index == old(self).index,
            final(self).length == old(self).length,
            final(self).hash == old(self).hash,
            final(self).data@.len() == 0,
            final(self).verified == false,
            final(self).blocks@.len() == old(self).blocks@.len(),
            forall|i: int| 0 <= i < final(self).blocks@.len() ==> final(self).blocks@[i] is None,
            spec_piece_wf(*old(self)) ==> spec_piece_wf(*final(self)),
    {
        self.data = Vec::new();
        self.verified = false;
        let mut k: usize = 0;
        while k < self.blocks.len()
            invariant
                k <= self.blocks@.len(),
                self.blocks@.len() == old(self).blocks@.len(),
                forall|i: int| 0 <= i < k ==> self.blocks@[i] is None,
                self.index == old(self).index,
                self.length == old(self).length,
                self.hash == old(self).hash,
                self.data@.len() == 0,
                self.verified == false,
            decreases self.blocks@.len() - k,
        {
            self.blocks.set(k, None);
            k = k + 1;
        }
    }

    /// The piece's assembled data; empty until `verify` has run.
    pub fn data(&self) -> (r: &[u8])
        ensures
            r@ == self.data@,
    {
        self.data.as_slice()
    }

    /// Whether the piece has been verified.
    pub fn is_verified(&self) -> (r: bool)
        ensures
            r == self.verified,
    {
        self.verified
    }

    /// The number of block slots.
    pub fn block_count(&self) -> (r: usize)
        ensures
            r == self.blocks@.len(),
    {
        self.blocks.len()
    }

    /// The number of filled block slots.
    pub fn downloaded_blocks(&self) -> (r: usize)
        ensures
            r == spec_count_filled(self.blocks@, self.blocks@.len() as int),
    {
        let mut count: usize = 0;
        let mut k: usize = 0;
        while k < self.blocks.len()
            invariant
                k <= self.blocks@.len(),
                count == spec_count_filled(self.blocks@, k as int),
                count <= k,
            decreases self.blocks@.len() - k,
        {
            if self.blocks[k].is_some() {
                count = count + 1;
            }
            k = k + 1;
        }
        count
    }
}

/// Number of block slots a piece of `piece_length` bytes has.
pub open spec fn spec_block_count(piece_length: int) -> int {
    piece_length / PIECE_BLOCK_SIZE as int + if piece_length % PIECE_BLOCK_SIZE as int != 0 {
        1int
    } else {
        0int
    }
}

/// Number of pieces a torrent of `total` bytes with `pl`-byte pieces has.
pub open spec fn spec_piece_count(total: int, pl: int) -> int {
    if pl <= 0 {
        0
    } else {
        (total + pl - 1) / pl
    }
}

/// The length of piece `i`: a full piece, except that the last piece holds
/// only what remains.
pub open spec fn spec_piece_len(total: int, pl: int, i: int) -> int {
    if total - i * pl < pl {
        total - i * pl
    } else {
        pl
    }
}

/// With `n = spec_piece_count(total, pl)` pieces, the first `n - 1` are full
/// and the last holds between 1 and `pl` bytes.
pub proof fn lemma_piece_count_bounds(total: int, pl: int)
    requires
        pl > 0,
        total >= 0,
    ensures
        spec_piece_count(total, pl) >= 0,
        total <= spec_piece_count(total, pl) * pl,
        total > (spec_piece_count(total, pl) - 1) * pl,
{
    let n = spec_piece_count(total, pl);
    let q = (total + pl - 1) / pl;
    let r = (total + pl - 1) % pl;
    vstd::arithmetic::div_mod::lemma_fundamental_div_mod(total + pl - 1, pl);
    vstd::arithmetic::div_mod::lemma_mod_bound(total + pl - 1, pl);
    assert(total + pl - 1 == pl * q + r);
    assert(n == q);
    assert(n * pl == pl * q) by (nonlinear_arith)
        requires
            n == q,
    ;
    assert((n - 1) * pl == n * pl - pl) by (nonlinear_arith);
    vstd::arithmetic::div_mod::lemma_div_pos_is_pos(total + pl - 1, pl);
}

/// Outcome of finalising a piece.
pub enum FinalizeOutcome {
    /// Every slot was filled and the hash matched: the piece is verified
    /// and these are its bytes, ready for the storage backend.
    Verified(Vec<u8>),
    /// Every slot was filled but the hash did not match; the slots were
    /// cleared so the piece can be fetched again.
    HashMismatch,
    /// Some slot is still empty; nothing changed.
    Incomplete,
}

/// How many of the first `upto` pieces are verified.
pub open spec fn spec_verified_count(s: Seq<Piece>, upto: int) -> int
    decreases upto,
{
    if upto <= 0 {
        0
    } else {
        spec_verified_count(s, upto - 1) + if s[upto - 1].verified {
            1int
        } else {
            0int
        }
    }
}

/// All pieces of a torrent, with their block slots and verified flags.
#[derive(Debug)]
pub struct PieceStorage {
    pieces: Vec<Piece>,
    piece_length: u32,
}

impl View for PieceStorage {
    type V = Seq<Piece>;

    closed spec fn view(&self) -> Seq<Piece> {
        self.pieces@
    }
}

/// A store the library's operations keep well formed: piece `i` carries
/// index `i` and is itself well formed.
pub open spec fn spec_storage_wf(s: &PieceStorage) -> bool {
    forall|i: int|
        0 <= i < s@.len() ==> spec_piece_wf(#[trigger] s@[i]) && s@[i].index == i
}

impl PieceStorage {
    /// The configured piece length.
    pub closed spec fn spec_piece_length(&self) -> u32 {
        self.piece_length
    }

    /// Builds the store from the hash table: one piece per hash, each full
    /// save the last, which holds what remains of `total_size`.
    pub fn new(piece_hashes: Vec<Vec<u8>>, piece_length: u32, total_size: u64) -> (r: PieceStorage)
        requires
            piece_hashes@.len() == spec_piece_count(total_size as int, piece_length as int),
            piece_hashes@.len() <= u32::MAX,
            forall|i: int| 0 <= i < piece_hashes@.len() ==> (#[trigger] piece_hashes@[i])@.len()
                == 20,
        ensures
            r.spec_piece_length() == piece_length,
            r@.len() == piece_hashes@.len(),
            spec_storage_wf(&r),
            forall|i: int|
                0 <= i < r@.len() ==> {
                    let p = #[trigger] r@[i];
                    p.index == i && p.hash@ == piece_hashes@[i]@ && p.verified == false
                        && p.length == spec_piece_len(total_size as int, piece_length as int, i)
                        && p.blocks@.len() == spec_block_count(
                        spec_piece_len(total_size as int, piece_length as int, i),
                    ) && (forall|j: int| 0 <= j < p.blocks@.len() ==> p.blocks@[j] is None)
                },
    {
        let num_pieces = piece_hashes.len();
        proof {
            if num_pieces > 0 {
                assert(piece_length > 0) by {
                    if piece_length == 0 {
                        assert(spec_piece_count(total_size as int, piece_length as int) == 0);
                    }
                }
                lemma_piece_count_bounds(total_size as int, piece_length as int);
            }
        }
        let mut pieces: Vec<Piece> = Vec::new();
        let mut index: usize = 0;
        while index < num_pieces
            invariant
                index <= num_pieces,
                num_pieces == piece_hashes@.len(),
                num_pieces <= u32::MAX,
                num_pieces > 0 ==> piece_length > 0,
                num_pieces == spec_piece_count(total_size as int, piece_length as int),
                num_pieces > 0 ==> total_size <= num_pieces * piece_length,
                num_pieces > 0 ==> total_size > (num_pieces - 1) * piece_length,
                forall|i: int| 0 <= i < piece_hashes@.len() ==> (#[trigger] piece_hashes@[
                    i])@.len() == 20,
                pieces@.len() == index,
                forall|i: int|
                    0 <= i < index ==> {
                        let p = #[trigger] pieces@[i];
                        spec_piece_wf(p) && p.index == i && p.hash@ == piece_hashes@[i]@
                            && p.verified == false && p.length == spec_piece_len(
                            total_size as int,
                            piece_length as int,
                            i,
                        ) && p.blocks@.len() == spec_block_count(
                            spec_piece_len(total_size as int, piece_length as int, i),
                        ) && (forall|j: int| 0 <= j < p.blocks@.len() ==> p.blocks@[j] is None)
                    },
            decreases num_pieces - index,
        {
            let length: usize = if index == num_pieces - 1 {
                proof {
                    assert((num_pieces - 1) * piece_length == (index as int) * piece_length);
                    assert(num_pieces * piece_length == (index as int) * piece_length
                        + piece_length) by (nonlinear_arith)
                        requires
                            index == num_pieces - 1,
                    ;
                }
                let remaining = total_size - (index as u64) * (piece_length as u64);
                remaining as usize
            } else {
                proof {
                    assert((index as int + 1) * piece_length <= (num_pieces - 1) * piece_length)
                        by (nonlinear_arith)
                        requires
                            index as int + 1 <= num_pieces - 1,
                            piece_length >= 0,
                    ;
                    assert((index as int + 1) * piece_length == (index as int) * piece_length
                        + piece_length) by (nonlinear_arith);
                }
                piece_length as usize
            };
            proof {
                assert(length == spec_piece_len(total_size as int, piece_length as int,
                    index as int));
            }
            let hash = crate::util::copy_slice(piece_hashes[index].as_slice());
            pieces.push(Piece::new(index as u32, length, hash));
            index = index + 1;
        }
        PieceStorage { pieces, piece_length }
    }

    /// The piece at `index`, while the index is in range.
    pub fn get_piece(&self, index: usize) -> (r: Option<&Piece>)
        ensures
            match r {
                Some(p) => index < self@.len() && *p == self@[index as int],
                None => index >= self@.len(),
            },
    {
        if index < self.pieces.len() {
            Some(&self.pieces[index])
        } else {
            None
        }
    }

    /// Mutable access to the piece at `index`. Nothing is promised of the
    /// store afterwards; the verified operations below mutate through their
    /// own contracts, and this door exists for unverified callers such as
    /// tests and I/O glue.
    pub fn get_piece_mut(&mut self, index: usize) -> (r: Option<&mut Piece>)
    {
        if index < self.pieces.len() {
            Some(&mut self.pieces[index])
        } else {
            None
        }
    }

    /// All pieces, in index order.
    pub fn pieces(&self) -> (r: &[Piece])
        ensures
            r@ == self@,
    {
        self.pieces.as_slice()
    }

    /// The number of pieces.
    pub fn piece_count(&self) -> (r: usize)
        ensures
            r == self@.len(),
    {
        self.pieces.len()
    }

    /// The configured piece length.
    pub fn piece_length(&self) -> (r: u32)
        ensures
            r == self.spec_piece_length(),
    {
        self.piece_length
    }

    /// Stores a received block of piece `piece_index`.
    pub fn add_block(&mut self, piece_index: usize, offset: u32, data: Vec<u8>) -> (r: Result<
        (),
        TorrentError,
    >)
        requires
            spec_storage_wf(&*old(self)),
        ensures
            spec_storage_wf(&*final(self)),
            final(self).spec_piece_length() == old(self).spec_piece_length(),
            final(self)@.len() == old(self)@.len(),
            forall|i: int|
                0 <= i < old(self)@.len() && i != piece_index ==> final(self)@[i] == #[trigger]
                old(self)@[i],
            match r {
                Ok(()) => piece_index < old(self)@.len() && spec_deposit_ok(
                    old(self)@[piece_index as int].length as int,
                    offset as int,
                    data@.len() as int,
                ) && {
                    let p0 = old(self)@[piece_index as int];
                    let p1 = final(self)@[piece_index as int];
                    p1.blocks@ == p0.blocks@.update(
                        (offset as int) / (PIECE_BLOCK_SIZE as int),
                        Some(data),
                    ) && p1.index == p0.index && p1.length == p0.length && p1.hash == p0.hash
                        && p1.data == p0.data && p1.verified == p0.verified
                },
                Err(e) => e is ValidationError && final(self)@ == old(self)@ && (piece_index
                    >= old(self)@.len() || !spec_deposit_ok(
                    old(self)@[piece_index as int].length as int,
                    offset as int,
                    data@.len() as int,
                )),
            },
    {
        if piece_index >= self.pieces.len() {
            return Err(
                TorrentError::validation_error_with_field("Invalid piece index", "piece_index"),
            );
        }
        let piece = &mut self.pieces[piece_index];
        let result = piece.add_block(offset, data);
        match result {
            Ok(()) => {
                proof {
                    assert(self.pieces@ =~= old(self).pieces@.update(
                        piece_index as int,
                        self.pieces@[piece_index as int],
                    ));
                }
                Ok(())
            },
            Err(e) => {
                proof {
                    assert(self.pieces@ =~= old(self).pieces@);
                }
                Err(e)
            },
        }
    }

    /// Finalises piece `piece_index`: while a slot is missing nothing
    /// happens; with all slots filled the piece is hashed, and either
    /// verified with its bytes returned, or cleared on a mismatch.
    pub fn finalize(&mut self, piece_index: usize) -> (r: Result<FinalizeOutcome, TorrentError>)
        requires
            spec_storage_wf(&*old(self)),
        ensures
            spec_storage_wf(&*final(self)),
            final(self).spec_piece_length() == old(self).spec_piece_length(),
            final(self)@.len() == old(self)@.len(),
            forall|i: int|
                0 <= i < old(self)@.len() && i != piece_index ==> final(self)@[i] == #[trigger]
                old(self)@[i],
            match r {
                Ok(outcome) => piece_index < old(self)@.len() && {
                    let p = old(self)@[piece_index as int];
                    let assembled = spec_concat_blocks(p.blocks@);
                    match outcome {
                        FinalizeOutcome::Verified(data) => (forall|j: int|
                            0 <= j < p.blocks@.len() ==> p.blocks@[j] is Some) && sha1_of(
                            assembled,
                        ) == p.hash@ && data@ == assembled && final(self)@[piece_index as int].verified
                            && final(self)@[piece_index as int].data@ == assembled && final(self)@[piece_index as int].hash == p.hash,
                        FinalizeOutcome::HashMismatch => (forall|j: int|
                            0 <= j < p.blocks@.len() ==> p.blocks@[j] is Some) && sha1_of(
                            assembled,
                        ) != p.hash@ && !final(self)@[piece_index as int].verified && final(self)@[piece_index as int].data@.len() == 0 && (forall|j: int|
                            0 <= j < final(self)@[piece_index as int].blocks@.len() ==> final(self)@[piece_index as int].blocks@[j] is None),
                        FinalizeOutcome::Incomplete => (exists|j: int|
                            0 <= j < p.blocks@.len() && p.blocks@[j] is None) && final(self)@
                            == old(self)@,
                    }
                },
                Err(e) => e is ValidationError && piece_index >= old(self)@.len() && final(self)@
                    == old(self)@,
            },
    {
        if piece_index >= self.pieces.len() {
            proof {
                assert(self.pieces@ =~= old(self).pieces@);
            }
            return Err(
                TorrentError::validation_error_with_field("Invalid piece index", "piece_index"),
            );
        }
        let piece = &mut self.pieces[piece_index];
        if !piece.is_complete() {
            proof {
                assert(self.pieces@ =~= old(self).pieces@);
            }
            return Ok(FinalizeOutcome::Incomplete);
        }
        let matched = piece.verify();
        if matched {
            let data = crate::util::copy_slice(piece.data.as_slice());
            let slot_count = piece.blocks.len();
            let mut j: usize = 0;
            while j < piece.blocks.len()
                invariant
                    j <= piece.blocks@.len(),
                    piece.blocks@.len() == slot_count,
                    piece.index == old(self)@[piece_index as int].index,
                    piece.length == old(self)@[piece_index as int].length,
                    piece.hash == old(self)@[piece_index as int].hash,
                    piece.verified,
                    sha1_of(piece.data@) == piece.hash@,
                    piece.hash@.len() == 20,
                    piece.length <= u32::MAX,
                    piece.blocks@.len() == spec_block_count(piece.length as int),
                    piece.blocks@.len() <= MAX_BLOCKS_PER_PIECE,
                    piece.data@ == spec_concat_blocks(old(self)@[piece_index as int].blocks@),
                    forall|i: int| 0 <= i < j ==> piece.blocks@[i] is None,
                decreases piece.blocks@.len() - j,
            {
                piece.blocks.set(j, None);
                j = j + 1;
            }
            proof {
                assert(self.pieces@ =~= old(self).pieces@.update(
                    piece_index as int,
                    self.pieces@[piece_index as int],
                ));
            }
            Ok(FinalizeOutcome::Verified(data))
        } else {
            piece.clear();
            proof {
                assert(self.pieces@ =~= old(self).pieces@.update(
                    piece_index as int,
                    self.pieces@[piece_index as int],
                ));
            }
            Ok(FinalizeOutcome::HashMismatch)
        }
    }

    /// The bitfield of verified pieces, MSB-first, sized to the wire
    /// format: bit `i` is set exactly when piece `i` is verified, and the
    /// trailing padding bits of the last byte are zero.
    pub fn bitfield(&self) -> (r: Vec<u8>)
        requires
            self@.len() <= usize::MAX - 7,
        ensures
            r@.len() == (self@.len() + 7) / 8,
            forall|i: int|
                0 <= i < self@.len() ==> bits::spec_bit_at(r@, i) == self@[i].verified,
            forall|i: int|
                self@.len() <= i < 8 * r@.len() ==> !bits::spec_bit_at(r@, i),
    {
        let len = (self.pieces.len() + 7) / 8;
        let mut bitfield: Vec<u8> = Vec::new();
        let mut k: usize = 0;
        while k < len
            invariant
                k <= len,
                bitfield@.len() == k,
                forall|i: int| 0 <= i < k ==> bitfield@[i] == 0,
            decreases len - k,
        {
            bitfield.push(0);
            k = k + 1;
        }
        proof {
            assert forall|i: int| 0 <= i < 8 * bitfield@.len() implies !bits::spec_bit_at(
                bitfield@,
                i,
            ) by {
                lemma_zero_bit((7 - (i % 8)) as u8);
            }
        }
        let mut i: usize = 0;
        while i < self.pieces.len()
            invariant
                i <= self@.len(),
                self@.len() <= usize::MAX - 7,
                bitfield@.len() == (self@.len() + 7) / 8,
                forall|j: int| 0 <= j < i ==> bits::spec_bit_at(bitfield@, j) == self@[j].verified,
                forall|j: int| i <= j < 8 * bitfield@.len() ==> !bits::spec_bit_at(bitfield@, j),
            decreases self@.len() - i,
        {
            if self.pieces[i].is_verified() {
                proof {
                    assert(i / 8 < bitfield@.len());
                }
                bits::set_bit(&mut bitfield, i);
            }
            i = i + 1;
        }
        bitfield
    }

    /// How many pieces are verified.
    pub fn completed_count(&self) -> (r: usize)
        ensures
            r == spec_verified_count(self@, self@.len() as int),
    {
        let mut count: usize = 0;
        let mut k: usize = 0;
        while k < self.pieces.len()
            invariant
                k <= self@.len(),
                count == spec_verified_count(self@, k as int),
                count <= k,
            decreases self@.len() - k,
        {
            if self.pieces[k].is_verified() {
                count = count + 1;
            }
            k = k + 1;
        }
        count
    }

    /// True exactly when every piece is verified; a torrent with no pieces
    /// is trivially complete.
    pub fn is_complete(&self) -> (r: bool)
        ensures
            r == (forall|i: int| 0 <= i < self@.len() ==> self@[i].verified),
    {
        let mut k: usize = 0;
        while k < self.pieces.len()
            invariant
                k <= self@.len(),
                forall|i: int| 0 <= i < k ==> self@[i].verified,
            decreases self@.len() - k,
        {
            if !self.pieces[k].is_verified() {
                return false;
            }
            k = k + 1;
        }
        true
    }
}

/// Bit `b` of a zero byte is clear.
proof fn lemma_zero_bit(b: u8)
    requires
        b < 8,
    ensures
        (0u8 >> b) & 1 != 1,
{
    assert((0u8 >> b) & 1 != 1) by (bit_vector)
        requires
            b < 8,
    ;
}

/// A torrent whose piece length equals its total size has exactly one
/// piece.
pub proof fn lemma_single_piece(total: int)
    requires
        total > 0,
    ensures
        spec_piece_count(total, total) == 1,
{
    let q = (total + total - 1) / total;
    let r = (total + total - 1) % total;
    vstd::arithmetic::div_mod::lemma_fundamental_div_mod(total + total - 1, total);
    vstd::arithmetic::div_mod::lemma_mod_bound(total + total - 1, total);
    assert(total + total - 1 == total * q + r);
    if q >= 2 {
        assert(total * q >= 2 * total) by (nonlinear_arith)
            requires
                q >= 2,
                total > 0,
        ;
    }
    if q <= 0 {
        assert(total * q <= 0) by (nonlinear_arith)
            requires
                q <= 0,
                total > 0,
        ;
    }
    assert(q == 1);
}

/// A torrent of size zero has no pieces at all, and an empty store is
/// trivially complete.
pub proof fn lemma_empty_torrent(pl: int)
    ensures
        spec_piece_count(0, pl) == 0,
{
    if pl > 0 {
        let q = (pl - 1) / pl;
        let r = (pl - 1) % pl;
        vstd::arithmetic::div_mod::lemma_fundamental_div_mod(pl - 1, pl);
        vstd::arithmetic::div_mod::lemma_mod_bound(pl - 1, pl);
        assert(pl - 1 == pl * q + r);
        if q >= 1 {
            assert(pl * q >= pl) by (nonlinear_arith)
                requires
                    q >= 1,
                    pl > 0,
            ;
        }
        if q <= -1 {
            assert(pl * q <= -pl) by (nonlinear_arith)
                requires
                    q <= -1,
                    pl > 0,
            ;
        }
        assert(q == 0);
    }
}


} // verus!
