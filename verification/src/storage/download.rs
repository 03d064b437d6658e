//! The download scheduler's bookkeeping: which pieces are being assembled,
//! which block requests are in flight, and what happens when a block
//! arrives or a request goes stale.
//!
//! The sockets that carry the requests live with the I/O glue outside the
//! library; it performs the sends this module decides on.

use vstd::prelude::*;
use crate::dht::node::{Endpoint, spec_elapsed};
use crate::error::TorrentError;
use crate::storage::piece::{PieceStorage, FinalizeOutcome, spec_storage_wf, PIECE_BLOCK_SIZE};

verus! {

/// A block request is cancelled when no reply arrives within 30 seconds.
pub const REQUEST_TIMEOUT_MS: u64 = 30000;

/// Counters of one download.
#[derive(Debug, Clone)]
pub struct DownloadStats {
    /// Total bytes downloaded.
    pub downloaded_bytes: u64,
    /// Total bytes uploaded.
    pub uploaded_bytes: u64,
    /// Pieces fully downloaded.
    pub pieces_downloaded: usize,
    /// Pieces verified.
    pub pieces_verified: usize,
    /// Pieces that failed verification.
    pub pieces_failed: usize,
}

impl DownloadStats {
    /// All counters at zero.
    pub fn new() -> (r: DownloadStats)
        ensures
            r.downloaded_bytes == 0 && r.uploaded_bytes == 0 && r.pieces_downloaded == 0
                && r.pieces_verified == 0 && r.pieces_failed == 0,
    {
        DownloadStats {
            downloaded_bytes: 0,
            uploaded_bytes: 0,
            pieces_downloaded: 0,
            pieces_verified: 0,
            pieces_failed: 0,
        }
    }
}

/// One piece being assembled.
#[derive(Debug, Clone)]
pub struct PieceDownload {
    /// The piece being downloaded.
    pub piece_index: u32,
    /// Which blocks have arrived.
    pub blocks_downloaded: Vec<bool>,
    /// How many blocks the piece has.
    pub blocks_total: usize,
    /// When this download started, in milliseconds of the caller's clock.
    pub started_at: u64,
    /// The peers serving this piece, without duplicates.
    pub peers: Vec<Endpoint>,
}

impl PieceDownload {
    /// A fresh download of a piece with `blocks_total` blocks.
    pub fn new(piece_index: u32, blocks_total: usize, now: u64) -> (r: PieceDownload)
        ensures
            r.piece_index == piece_index,
            r.blocks_total == blocks_total,
            r.blocks_downloaded@.len() == blocks_total,
            forall|i: int| 0 <= i < blocks_total ==> !r.blocks_downloaded@[i],
            r.started_at == now,
            r.peers@.len() == 0,
    {
        let mut blocks_downloaded: Vec<bool> = Vec::new();
        let mut k: usize = 0;
        while k < blocks_total
            invariant
                k <= blocks_total,
                blocks_downloaded@.len() == k,
                forall|i: int| 0 <= i < k ==> !blocks_downloaded@[i],
            decreases blocks_total - k,
        {
            blocks_downloaded.push(false);
            k = k + 1;
        }
        PieceDownload { piece_index, blocks_downloaded, blocks_total, started_at: now, peers: Vec::new() }
    }

    /// Marks one block as arrived; indices beyond the array are ignored.
    pub fn mark_block_downloaded(&mut self, block_index: usize)
        ensures
            final(self).piece_index == old(self).piece_index,
            final(self).blocks_total == old(self).blocks_total,
            final(self).started_at == old(self).started_at,
            final(self).peers == old(self).peers,
            if block_index < old(self).blocks_downloaded@.len() {
                final(self).blocks_downloaded@ == old(self).blocks_downloaded@.update(
                    block_index as int,
                    true,
                )
            } else {
                final(self).blocks_downloaded == old(self).blocks_downloaded
            },
    {
        if block_index < self.blocks_downloaded.len() {
            self.blocks_downloaded.set(block_index, true);
        }
    }

    /// True exactly when every block has arrived.
    pub fn is_complete(&self) -> (r: bool)
        ensures
            r == (forall|i: int|
                0 <= i < self.blocks_downloaded@.len() ==> self.blocks_downloaded@[i]),
    {
        let mut k: usize = 0;
        while k < self.blocks_downloaded.len()
            invariant
                k <= self.blocks_downloaded@.len(),
                forall|i: int| 0 <= i < k ==> self.blocks_downloaded@[i],
            decreases self.blocks_downloaded@.len() - k,
        {
            if !self.blocks_downloaded[k] {
                return false;
            }
            k = k + 1;
        }
        true
    }

    /// How many blocks have arrived.
    pub fn downloaded_blocks(&self) -> (r: usize)
        ensures
            r == crate::storage::resume::spec_count_true(
                self.blocks_downloaded@,
                self.blocks_downloaded@.len() as int,
            ),
    {
        let mut count: usize = 0;
        let mut k: usize = 0;
        while k < self.blocks_downloaded.len()
            invariant
                k <= self.blocks_downloaded@.len(),
                count == crate::storage::resume::spec_count_true(
                    self.blocks_downloaded@,
                    k as int,
                ),
                count <= k,
            decreases self.blocks_downloaded@.len() - k,
        {
            if self.blocks_downloaded[k] {
                count = count + 1;
            }
            k = k + 1;
        }
        count
    }

    /// Milliseconds since the download started.
    pub fn elapsed(&self, now: u64) -> (r: u64)
        ensures
            r == spec_elapsed(self.started_at, now),
    {
        crate::dht::node::elapsed_ms(self.started_at, now)
    }

    /// Records a peer as serving this piece; a known peer is not added
    /// again.
    pub fn add_peer(&mut self, addr: Endpoint)
        ensures
            final(self).piece_index == old(self).piece_index,
            final(self).blocks_downloaded == old(self).blocks_downloaded,
            final(self).peers@.contains(addr),
            forall|i: int|
                0 <= i < old(self).peers@.len() ==> final(self).peers@.contains(
                    #[trigger] old(self).peers@[i],
                ),
    {
        let mut k: usize = 0;
        while k < self.peers.len()
            invariant
                k <= self.peers@.len(),
                *self == *old(self),
                forall|i: int| 0 <= i < k ==> self.peers@[i] != addr,
            decreases self.peers@.len() - k,
        {
            if self.peers[k].ip == addr.ip && self.peers[k].port == addr.port {
                proof {
                    assert(self.peers@[k as int] == addr);
                    assert(self.peers@.contains(addr));
                }
                return ;
            }
            k = k + 1;
        }
        self.peers.push(addr);
        proof {
            assert(self.peers@.last() == addr);
            assert(self.peers@.contains(addr));
            assert forall|i: int|
                0 <= i < old(self).peers@.len() implies self.peers@.contains(
                #[trigger] old(self).peers@[i],
            ) by {
                assert(self.peers@[i] == old(self).peers@[i]);
            }
        }
    }

    /// Forgets a peer.
    pub fn remove_peer(&mut self, addr: Endpoint)
        ensures
            final(self).piece_index == old(self).piece_index,
            final(self).blocks_downloaded == old(self).blocks_downloaded,
            forall|i: int| 0 <= i < final(self).peers@.len() ==> final(self).peers@[i] != addr,
    {
        let mut k: usize = 0;
        while k < self.peers.len()
            invariant
                k <= self.peers@.len(),
                self.piece_index == old(self).piece_index,
                self.blocks_downloaded == old(self).blocks_downloaded,
                self.blocks_total == old(self).blocks_total,
                self.started_at == old(self).started_at,
                forall|i: int| 0 <= i < k ==> self.peers@[i] != addr,
            decreases self.peers@.len() - k,
        {
            if self.peers[k].ip == addr.ip && self.peers[k].port == addr.port {
                self.peers.remove(k);
            } else {
                k = k + 1;
            }
        }
    }

    /// How many peers serve this piece.
    pub fn peer_count(&self) -> (r: usize)
        ensures
            r == self.peers@.len(),
    {
        self.peers.len()
    }
}

/// One in-flight block request: its key and when it was issued.
#[derive(Debug, Clone, Copy, PartialEq, Eq, Structural)]
pub struct BlockRequest {
    /// The piece the block belongs to.
    pub piece_index: u32,
    /// The block within the piece.
    pub block_index: u32,
    /// When the request went out, in milliseconds of the caller's clock.
    pub requested_at: u64,
}

/// No two in-flight requests share a `(piece_index, block_index)` key: the
/// uniqueness invariant of the request table.
/// `a + b`, capped at the top of `u64`.
pub open spec fn spec_sat_add_u64(a: u64, b: int) -> u64 {
    if a + b <= u64::MAX {
        (a + b) as u64
    } else {
        u64::MAX
    }
}

/// `a + 1`, capped at the top of `usize`.
pub open spec fn spec_sat_inc_usize(a: usize) -> usize {
    if a + 1 <= usize::MAX {
        (a + 1) as usize
    } else {
        usize::MAX
    }
}

pub open spec fn spec_requests_unique(s: Seq<BlockRequest>) -> bool {
    forall|i: int, j: int|
        0 <= i < j < s.len() ==> !((#[trigger] s[i]).piece_index == (#[trigger] s[j]).piece_index
            && s[i].block_index == s[j].block_index)
}

/// The position of the request with this key, or `-1`.
pub open spec fn spec_find_request(s: Seq<BlockRequest>, piece: u32, block: u32, from: int) -> int
    decreases s.len() - from,
{
    if from < 0 || from >= s.len() {
        -1
    } else if s[from].piece_index == piece && s[from].block_index == block {
        from
    } else {
        spec_find_request(s, piece, block, from + 1)
    }
}

/// The requests of `s` not older than the timeout, in order.
pub open spec fn spec_fresh_requests(s: Seq<BlockRequest>, now: u64, timeout_ms: u64) -> Seq<
    BlockRequest,
>
    decreases s,
{
    if s.len() == 0 {
        Seq::empty()
    } else {
        (if spec_elapsed(s[0].requested_at, now) > timeout_ms {
            Seq::empty()
        } else {
            seq![s[0]]
        }) + spec_fresh_requests(s.drop_first(), now, timeout_ms)
    }
}

/// The keys of the requests of `s` older than the timeout, in order.
pub open spec fn spec_stale_keys(s: Seq<BlockRequest>, now: u64, timeout_ms: u64) -> Seq<
    (u32, u32),
>
    decreases s,
{
    if s.len() == 0 {
        Seq::empty()
    } else {
        (if spec_elapsed(s[0].requested_at, now) > timeout_ms {
            seq![(s[0].piece_index, s[0].block_index)]
        } else {
            Seq::empty()
        }) + spec_stale_keys(s.drop_first(), now, timeout_ms)
    }
}

/// Splitting the requests splits the fresh filter.
proof fn lemma_fresh_requests_concat(
    a: Seq<BlockRequest>,
    b: Seq<BlockRequest>,
    now: u64,
    timeout_ms: u64,
)
    ensures
        spec_fresh_requests(a + b, now, timeout_ms) == spec_fresh_requests(a, now, timeout_ms)
            + spec_fresh_requests(b, now, timeout_ms),
    decreases a.len(),
{
    if a.len() == 0 {
        assert(a + b == b);
        assert(spec_fresh_requests(a, now, timeout_ms) == Seq::<BlockRequest>::empty());
        assert(spec_fresh_requests(a, now, timeout_ms) + spec_fresh_requests(b, now, timeout_ms)
            == spec_fresh_requests(b, now, timeout_ms));
    } else {
        lemma_fresh_requests_concat(a.drop_first(), b, now, timeout_ms);
        assert((a + b).drop_first() == a.drop_first() + b);
        assert((a + b)[0] == a[0]);
    }
}

/// Splitting the requests splits the stale keys.
proof fn lemma_stale_keys_concat(
    a: Seq<BlockRequest>,
    b: Seq<BlockRequest>,
    now: u64,
    timeout_ms: u64,
)
    ensures
        spec_stale_keys(a + b, now, timeout_ms) == spec_stale_keys(a, now, timeout_ms)
            + spec_stale_keys(b, now, timeout_ms),
    decreases a.len(),
{
    if a.len() == 0 {
        assert(a + b == b);
        assert(spec_stale_keys(a, now, timeout_ms) == Seq::<(u32, u32)>::empty());
        assert(spec_stale_keys(a, now, timeout_ms) + spec_stale_keys(b, now, timeout_ms)
            == spec_stale_keys(b, now, timeout_ms));
    } else {
        lemma_stale_keys_concat(a.drop_first(), b, now, timeout_ms);
        assert((a + b).drop_first() == a.drop_first() + b);
        assert((a + b)[0] == a[0]);
    }
}

/// What one request contributes to the fresh filter and the stale keys.
proof fn lemma_request_singletons(x: BlockRequest, now: u64, timeout_ms: u64)
    ensures
        spec_fresh_requests(seq![x], now, timeout_ms) == (if spec_elapsed(x.requested_at, now)
            > timeout_ms {
            Seq::<BlockRequest>::empty()
        } else {
            seq![x]
        }),
        spec_stale_keys(seq![x], now, timeout_ms) == (if spec_elapsed(x.requested_at, now)
            > timeout_ms {
            seq![(x.piece_index, x.block_index)]
        } else {
            Seq::<(u32, u32)>::empty()
        }),
{
    let s = seq![x];
    assert(s[0] == x);
    assert(s.drop_first() =~= Seq::<BlockRequest>::empty());
    assert(spec_fresh_requests(s.drop_first(), now, timeout_ms) == Seq::<BlockRequest>::empty());
    assert(spec_stale_keys(s.drop_first(), now, timeout_ms) == Seq::<(u32, u32)>::empty());
    if spec_elapsed(x.requested_at, now) > timeout_ms {
        assert(Seq::<BlockRequest>::empty() + Seq::<BlockRequest>::empty()
            =~= Seq::<BlockRequest>::empty());
        assert(seq![(x.piece_index, x.block_index)] + Seq::<(u32, u32)>::empty() =~= seq![
            (x.piece_index, x.block_index),
        ]);
    } else {
        assert(seq![x] + Seq::<BlockRequest>::empty() =~= seq![x]);
        assert(Seq::<(u32, u32)>::empty() + Seq::<(u32, u32)>::empty()
            =~= Seq::<(u32, u32)>::empty());
    }
}

/// The fresh filter keeps only fresh entries, every one an entry of the
/// input.
proof fn lemma_fresh_requests_sound(s: Seq<BlockRequest>, now: u64, timeout_ms: u64)
    ensures
        forall|i: int|
            0 <= i < spec_fresh_requests(s, now, timeout_ms).len() ==> spec_elapsed(
                (#[trigger] spec_fresh_requests(s, now, timeout_ms)[i]).requested_at,
                now,
            ) <= timeout_ms,
        forall|i: int|
            0 <= i < spec_fresh_requests(s, now, timeout_ms).len() ==> s.contains(
                #[trigger] spec_fresh_requests(s, now, timeout_ms)[i],
            ),
    decreases s,
{
    if s.len() > 0 {
        lemma_fresh_requests_sound(s.drop_first(), now, timeout_ms);
        let fresh = spec_fresh_requests(s, now, timeout_ms);
        let rest = spec_fresh_requests(s.drop_first(), now, timeout_ms);
        let stale_head = spec_elapsed(s[0].requested_at, now) > timeout_ms;
        assert forall|i: int|
            0 <= i < fresh.len() implies spec_elapsed(
            (#[trigger] fresh[i]).requested_at,
            now,
        ) <= timeout_ms && s.contains(fresh[i]) by {
            if stale_head {
                assert(fresh =~= rest);
                assert(fresh[i] == rest[i]);
                let j = choose|j: int| 0 <= j < s.drop_first().len() && s.drop_first()[j] == rest[i];
                assert(s[j + 1] == fresh[i]);
            } else {
                if i == 0 {
                    assert(fresh[0] == s[0]);
                } else {
                    assert(fresh[i] == rest[i - 1]);
                    let j = choose|j: int|
                        0 <= j < s.drop_first().len() && s.drop_first()[j] == rest[i - 1];
                    assert(s[j + 1] == fresh[i]);
                }
            }
        }
    }
}

/// The outcome of a block arrival.
pub enum BlockOutcome {
    /// The block was stored; the piece is still incomplete.
    Stored,
    /// The piece completed and verified; these bytes are ready for the
    /// storage backend, and a `Have` should go to the other peers.
    Verified(Vec<u8>),
    /// The piece completed but its hash did not match; its slots were
    /// cleared and the piece must be fetched again.
    HashMismatch,
}

/// The scheduler's request bookkeeping.
#[derive(Debug)]
pub struct DownloadManager {
    /// The pieces currently being assembled.
    pub active_downloads: Vec<PieceDownload>,
    /// The in-flight block requests; the verified operations keep their
    /// keys unique.
    pub requested_blocks: Vec<BlockRequest>,
    /// How many pieces may be assembled at once.
    pub max_concurrent_downloads: usize,
    /// The size of one requested block.
    pub block_size: u32,
    /// Counters of the download so far.
    pub stats: DownloadStats,
}

impl DownloadManager {
    /// The in-flight requests.
    pub open spec fn spec_requests(&self) -> Seq<BlockRequest> {
        self.requested_blocks@
    }

    /// The scheduler's invariant: request keys are unique.
    pub open spec fn wf(&self) -> bool {
        spec_requests_unique(self.spec_requests()) && self.block_size == PIECE_BLOCK_SIZE
    }

    /// A fresh scheduler: no active pieces, no requests, five concurrent
    /// pieces, 16 KiB blocks.
    pub fn new() -> (r: DownloadManager)
        ensures
            r.wf(),
            r.active_downloads@.len() == 0,
            r.spec_requests().len() == 0,
            r.max_concurrent_downloads == 5,
            r.block_size == PIECE_BLOCK_SIZE,
            r.stats.downloaded_bytes == 0 && r.stats.uploaded_bytes == 0
                && r.stats.pieces_downloaded == 0 && r.stats.pieces_verified == 0
                && r.stats.pieces_failed == 0,
    {
        DownloadManager {
            active_downloads: Vec::new(),
            requested_blocks: Vec::new(),
            max_concurrent_downloads: 5,
            block_size: PIECE_BLOCK_SIZE,
            stats: DownloadStats::new(),
        }
    }

    /// Caps how many pieces may be assembled at once.
    pub fn set_max_concurrent_downloads(&mut self, max: usize)
        ensures
            final(self).max_concurrent_downloads == max,
            final(self).active_downloads == old(self).active_downloads,
            final(self).spec_requests() == old(self).spec_requests(),
            final(self).stats == old(self).stats,
            old(self).wf() ==> final(self).wf(),
    {
        self.max_concurrent_downloads = max;
    }

    /// Records an outgoing request for `(piece, block)`. A key already in
    /// flight only has its timestamp refreshed, so no two in-flight
    /// requests ever share a key.
    pub fn record_request(&mut self, piece: u32, block: u32, now: u64)
        requires
            old(self).wf(),
        ensures
            final(self).wf(),
            final(self).active_downloads == old(self).active_downloads,
            ({
                let j = spec_find_request(old(self).spec_requests(), piece, block, 0);
                if j >= 0 {
                    final(self).spec_requests() == old(self).spec_requests().update(
                        j,
                        BlockRequest { piece_index: piece, block_index: block, requested_at: now },
                    )
                } else {
                    final(self).spec_requests() == old(self).spec_requests().push(
                        BlockRequest { piece_index: piece, block_index: block, requested_at: now },
                    )
                }
            }),
            spec_find_request(final(self).spec_requests(), piece, block, 0) >= 0,
            final(self).stats == old(self).stats,
    {
        let mut k: usize = 0;
        while k < self.requested_blocks.len()
            invariant
                k <= self.requested_blocks@.len(),
                *self == *old(self),
                old(self).wf(),
                spec_requests_unique(self.requested_blocks@),
                forall|i: int|
                    0 <= i < k ==> !((#[trigger] self.requested_blocks@[i]).piece_index == piece
                        && self.requested_blocks@[i].block_index == block),
                spec_find_request(self.requested_blocks@, piece, block, 0) == spec_find_request(
                    self.requested_blocks@,
                    piece,
                    block,
                    k as int,
                ),
            decreases self.requested_blocks@.len() - k,
        {
            if self.requested_blocks[k].piece_index == piece && self.requested_blocks[k].block_index
                == block {
                let entry = BlockRequest {
                    piece_index: piece,
                    block_index: block,
                    requested_at: now,
                };
                let ghost before = self.requested_blocks@;
                self.requested_blocks.set(k, entry);
                proof {
                    assert(self.requested_blocks@[k as int] == entry);
                    lemma_find_request_done(self.requested_blocks@, piece, block, k as int);
                    assert forall|i: int, j: int|
                        0 <= i < j < self.requested_blocks@.len() implies !((
                    #[trigger] self.requested_blocks@[i]).piece_index == (
                    #[trigger] self.requested_blocks@[j]).piece_index
                        && self.requested_blocks@[i].block_index
                        == self.requested_blocks@[j].block_index) by {
                        assert(before[i].piece_index == before[i].piece_index);
                        if i != k {
                            assert(self.requested_blocks@[i] == before[i]);
                        }
                        if j != k {
                            assert(self.requested_blocks@[j] == before[j]);
                        }
                        assert(entry.piece_index == before[k as int].piece_index
                            && entry.block_index == before[k as int].block_index);
                    }
                }
                return ;
            }
            k = k + 1;
        }
        let entry = BlockRequest { piece_index: piece, block_index: block, requested_at: now };
        self.requested_blocks.push(entry);
        proof {
            assert(spec_requests_unique(self.requested_blocks@)) by {
                assert forall|i: int, j: int|
                    0 <= i < j < self.requested_blocks@.len() implies !((
                #[trigger] self.requested_blocks@[i]).piece_index == (
                #[trigger] self.requested_blocks@[j]).piece_index
                    && self.requested_blocks@[i].block_index
                    == self.requested_blocks@[j].block_index) by {
                    if j == self.requested_blocks@.len() - 1 {
                        assert(self.requested_blocks@[i] == old(self).requested_blocks@[i]);
                    }
                }
            }
            lemma_find_request_done(self.requested_blocks@, piece, block, (
            self.requested_blocks@.len() - 1) as int);
        }
    }

    /// Drops the request for `(piece, block)`, if one is in flight.
    pub fn clear_request(&mut self, piece: u32, block: u32)
        requires
            old(self).wf(),
        ensures
            final(self).wf(),
            final(self).active_downloads == old(self).active_downloads,
            spec_find_request(final(self).spec_requests(), piece, block, 0) == -1,
            forall|i: int|
                0 <= i < final(self).spec_requests().len() ==> old(self).spec_requests().contains(#[trigger] final(self).spec_requests()[i]),
            final(self).stats == old(self).stats,
    {
        let mut k: usize = 0;
        while k < self.requested_blocks.len()
            invariant
                k <= self.requested_blocks@.len(),
                self.active_downloads == old(self).active_downloads,
                self.max_concurrent_downloads == old(self).max_concurrent_downloads,
                self.block_size == old(self).block_size,
                self.stats == old(self).stats,
                old(self).wf(),
                spec_requests_unique(self.requested_blocks@),
                forall|i: int|
                    0 <= i < k ==> !((#[trigger] self.requested_blocks@[i]).piece_index == piece
                        && self.requested_blocks@[i].block_index == block),
                forall|i: int|
                    0 <= i < self.requested_blocks@.len() ==> old(self).requested_blocks@.contains(#[trigger] self.requested_blocks@[i]),
            decreases self.requested_blocks@.len() - k,
        {
            if self.requested_blocks[k].piece_index == piece && self.requested_blocks[k].block_index
                == block {
                let ghost before = self.requested_blocks@;
                self.requested_blocks.remove(k);
                proof {
                    assert forall|i: int|
                        0 <= i < self.requested_blocks@.len() implies old(self).requested_blocks@.contains(#[trigger] self.requested_blocks@[i]) by {
                        if i < k {
                            assert(self.requested_blocks@[i] == before[i]);
                        } else {
                            assert(self.requested_blocks@[i] == before[i + 1]);
                        }
                    }
                    assert(spec_requests_unique(self.requested_blocks@)) by {
                        assert forall|i: int, j: int|
                            0 <= i < j < self.requested_blocks@.len() implies !((
                        #[trigger] self.requested_blocks@[i]).piece_index == (
                        #[trigger] self.requested_blocks@[j]).piece_index
                            && self.requested_blocks@[i].block_index
                            == self.requested_blocks@[j].block_index) by {
                            let i0 = if i < k { i } else { i + 1 };
                            let j0 = if j < k { j } else { j + 1 };
                            assert(self.requested_blocks@[i] == before[i0]);
                            assert(self.requested_blocks@[j] == before[j0]);
                        }
                    }
                }
            } else {
                k = k + 1;
            }
        }
        proof {
            lemma_find_request_absent(self.requested_blocks@, piece, block, 0);
        }
    }

    /// How many requests are in flight.
    pub fn inflight_count(&self) -> (r: usize)
        ensures
            r == self.spec_requests().len(),
    {
        self.requested_blocks.len()
    }

    /// Whether a request for `(piece, block)` is in flight.
    pub fn has_request(&self, piece: u32, block: u32) -> (r: bool)
        ensures
            r == (spec_find_request(self.spec_requests(), piece, block, 0) >= 0),
    {
        let mut k: usize = 0;
        while k < self.requested_blocks.len()
            invariant
                k <= self.requested_blocks@.len(),
                forall|i: int|
                    0 <= i < k ==> !((#[trigger] self.requested_blocks@[i]).piece_index == piece
                        && self.requested_blocks@[i].block_index == block),
                spec_find_request(self.requested_blocks@, piece, block, 0) == spec_find_request(
                    self.requested_blocks@,
                    piece,
                    block,
                    k as int,
                ),
            decreases self.requested_blocks@.len() - k,
        {
            if self.requested_blocks[k].piece_index == piece && self.requested_blocks[k].block_index
                == block {
                return true;
            }
            k = k + 1;
        }
        false
    }

    /// The deadline sweep: drops exactly the requests older than
    /// `timeout_ms` and returns their keys in order, so the caller can send
    /// a `Cancel` for each; every younger request stays untouched. The
    /// dropped blocks become re-requestable, possibly from another peer.
    pub fn cancel_slow_requests(&mut self, now: u64, timeout_ms: u64) -> (r: Vec<(u32, u32)>)
        requires
            old(self).wf(),
        ensures
            final(self).wf(),
            final(self).active_downloads == old(self).active_downloads,
            final(self).spec_requests() == spec_fresh_requests(
                old(self).spec_requests(),
                now,
                timeout_ms,
            ),
            r@ == spec_stale_keys(old(self).spec_requests(), now, timeout_ms),
            final(self).stats == old(self).stats,
            forall|i: int|
                0 <= i < final(self).spec_requests().len() ==> spec_elapsed(
                    (#[trigger] final(self).spec_requests()[i]).requested_at,
                    now,
                ) <= timeout_ms,
    {
        let ghost orig = self.requested_blocks@;
        let mut cancelled: Vec<(u32, u32)> = Vec::new();
        let mut k: usize = 0;
        let ghost consumed: int = 0;
        while k < self.requested_blocks.len()
            invariant
                self.active_downloads == old(self).active_downloads,
                self.max_concurrent_downloads == old(self).max_concurrent_downloads,
                self.block_size == old(self).block_size,
                self.stats == old(self).stats,
                old(self).wf(),
                orig == old(self).requested_blocks@,
                spec_requests_unique(self.requested_blocks@),
                0 <= k <= self.requested_blocks@.len(),
                0 <= consumed <= orig.len(),
                self.requested_blocks@ == spec_fresh_requests(
                    orig.subrange(0, consumed),
                    now,
                    timeout_ms,
                ) + orig.subrange(consumed, orig.len() as int),
                k == spec_fresh_requests(orig.subrange(0, consumed), now, timeout_ms).len(),
                cancelled@ == spec_stale_keys(orig.subrange(0, consumed), now, timeout_ms),
            decreases orig.len() - consumed,
        {
            proof {
                assert(orig.subrange(0, consumed + 1) =~= orig.subrange(0, consumed) + seq![
                    orig[consumed],
                ]);
                lemma_fresh_requests_concat(
                    orig.subrange(0, consumed),
                    seq![orig[consumed]],
                    now,
                    timeout_ms,
                );
                lemma_stale_keys_concat(
                    orig.subrange(0, consumed),
                    seq![orig[consumed]],
                    now,
                    timeout_ms,
                );
                lemma_request_singletons(orig[consumed], now, timeout_ms);
                assert(self.requested_blocks@[k as int] == orig[consumed]);
            }
            let entry = self.requested_blocks[k];
            if crate::dht::node::elapsed_ms(entry.requested_at, now) > timeout_ms {
                let ghost before = self.requested_blocks@;
                self.requested_blocks.remove(k);
                cancelled.push((entry.piece_index, entry.block_index));
                proof {
                    assert(spec_requests_unique(self.requested_blocks@)) by {
                        assert forall|i: int, j2: int|
                            0 <= i < j2 < self.requested_blocks@.len() implies !((
                        #[trigger] self.requested_blocks@[i]).piece_index == (
                        #[trigger] self.requested_blocks@[j2]).piece_index
                            && self.requested_blocks@[i].block_index
                            == self.requested_blocks@[j2].block_index) by {
                            let i0 = if i < k { i } else { i + 1 };
                            let j0 = if j2 < k { j2 } else { j2 + 1 };
                            assert(self.requested_blocks@[i] == before[i0]);
                            assert(self.requested_blocks@[j2] == before[j0]);
                        }
                    }
                    let kept = spec_fresh_requests(orig.subrange(0, consumed), now, timeout_ms);
                    assert(self.requested_blocks@ =~= kept + orig.subrange(
                        consumed + 1,
                        orig.len() as int,
                    ));
                    assert(spec_fresh_requests(orig.subrange(0, consumed + 1), now, timeout_ms)
                        =~= kept);
                    assert(cancelled@ =~= spec_stale_keys(
                        orig.subrange(0, consumed + 1),
                        now,
                        timeout_ms,
                    ));
                }
            } else {
                k = k + 1;
                proof {
                    let kept = spec_fresh_requests(orig.subrange(0, consumed), now, timeout_ms);
                    assert(spec_fresh_requests(orig.subrange(0, consumed + 1), now, timeout_ms)
                        =~= kept + seq![orig[consumed]]);
                    assert(self.requested_blocks@ =~= spec_fresh_requests(
                        orig.subrange(0, consumed + 1),
                        now,
                        timeout_ms,
                    ) + orig.subrange(consumed + 1, orig.len() as int));
                    assert(cancelled@ =~= spec_stale_keys(
                        orig.subrange(0, consumed + 1),
                        now,
                        timeout_ms,
                    ));
                }
            }
            proof {
                consumed = consumed + 1;
            }
        }
        proof {
            assert(consumed == orig.len()) by {
                if consumed < orig.len() {
                    assert(self.requested_blocks@.len() >= k + (orig.len() - consumed));
                }
            }
            assert(orig.subrange(0, orig.len() as int) == orig);
            assert(orig.subrange(consumed, orig.len() as int) =~= Seq::<BlockRequest>::empty());
            assert(self.requested_blocks@ =~= spec_fresh_requests(orig, now, timeout_ms));
            lemma_fresh_requests_sound(orig, now, timeout_ms);
        }
        cancelled
    }

    /// Applies an arrived block: the in-flight entry is dropped, the block
    /// is stored, and a piece whose slots all filled is finalised, coming
    /// back either verified with its bytes or cleared for a retry.
    pub fn on_block_arrival(
        &mut self,
        storage: &mut PieceStorage,
        piece_index: u32,
        offset: u32,
        data: Vec<u8>,
    ) -> (r: Result<BlockOutcome, TorrentError>)
        requires
            old(self).wf(),
            spec_storage_wf(&*old(storage)),
        ensures
            final(self).wf(),
            spec_storage_wf(&*final(storage)),
            final(storage)@.len() == old(storage)@.len(),
            forall|i: int|
                0 <= i < old(storage)@.len() && i != piece_index ==> final(storage)@[i]
                    == #[trigger] old(storage)@[i],
            spec_find_request(
                final(self).spec_requests(),
                piece_index,
                offset / PIECE_BLOCK_SIZE,
                0,
            ) == -1,
            forall|i: int|
                0 <= i < final(self).spec_requests().len() ==> old(self).spec_requests().contains(
                    #[trigger] final(self).spec_requests()[i],
                ),
            match r {
                Ok(outcome) => piece_index < old(storage)@.len() && crate::storage::piece::spec_deposit_ok(
                    old(storage)@[piece_index as int].length as int,
                    offset as int,
                    data@.len() as int,
                ) && final(self).stats.downloaded_bytes == spec_sat_add_u64(
                    old(self).stats.downloaded_bytes,
                    data@.len() as int,
                ) && final(self).stats.uploaded_bytes == old(self).stats.uploaded_bytes && ({
                    let p0 = old(storage)@[piece_index as int];
                    let deposited = p0.blocks@.update(
                        (offset as int) / (PIECE_BLOCK_SIZE as int),
                        Some(data),
                    );
                    let assembled = crate::storage::piece::spec_concat_blocks(deposited);
                    let p1 = final(storage)@[piece_index as int];
                    match outcome {
                        BlockOutcome::Verified(bytes) => (forall|j: int|
                            0 <= j < deposited.len() ==> deposited[j] is Some)
                            && crate::sha::sha1_of(assembled) == p0.hash@ && bytes@ == assembled
                            && p1.verified && p1.data@ == assembled && p1.hash == p0.hash && (
                        forall|i: int|
                            0 <= i < final(self).active_downloads@.len() ==> final(self).active_downloads@[i].piece_index != piece_index)
                            && final(self).stats.pieces_downloaded == spec_sat_inc_usize(
                            old(self).stats.pieces_downloaded,
                        ) && final(self).stats.pieces_verified == spec_sat_inc_usize(
                            old(self).stats.pieces_verified,
                        ) && final(self).stats.pieces_failed == old(self).stats.pieces_failed,
                        BlockOutcome::HashMismatch => (forall|j: int|
                            0 <= j < deposited.len() ==> deposited[j] is Some)
                            && crate::sha::sha1_of(assembled) != p0.hash@ && !p1.verified
                            && p1.data@.len() == 0 && (forall|j: int|
                            0 <= j < p1.blocks@.len() ==> p1.blocks@[j] is None) && (forall|
                            i: int,
                        |
                            0 <= i < final(self).spec_requests().len() ==> (#[trigger] final(self).spec_requests()[i]).piece_index != piece_index)
                            && final(self).stats.pieces_failed == spec_sat_inc_usize(
                            old(self).stats.pieces_failed,
                        ) && final(self).stats.pieces_downloaded
                            == old(self).stats.pieces_downloaded && final(self).stats.pieces_verified
                            == old(self).stats.pieces_verified,
                        BlockOutcome::Stored => (exists|j: int|
                            0 <= j < deposited.len() && deposited[j] is None) && p1.blocks@
                            == deposited && p1.verified == p0.verified && p1.hash == p0.hash
                            && p1.length == p0.length,
                    }
                }),
                Err(e) => e is ValidationError && final(storage)@ == old(storage)@
                    && final(self).stats == old(self).stats && (piece_index
                    >= old(storage)@.len() || !crate::storage::piece::spec_deposit_ok(
                    old(storage)@[piece_index as int].length as int,
                    offset as int,
                    data@.len() as int,
                )),
            },
    {
        let block_index = offset / self.block_size;
        let data_len: u64 = data.len() as u64;
        self.clear_request(piece_index, block_index);
        let stored = storage.add_block(piece_index as usize, offset, data);
        match stored {
            Ok(()) => {},
            Err(e) => {
                return Err(e);
            },
        }
        let ghost reqs_mid = self.spec_requests();
        let ghost mid = storage@;
        let mut k: usize = 0;
        while k < self.active_downloads.len()
            invariant
                k <= self.active_downloads@.len(),
                self.wf(),
                self.active_downloads@.len() == old(self).active_downloads@.len(),
                self.spec_requests() == reqs_mid,
                self.stats == old(self).stats,
            decreases self.active_downloads@.len() - k,
        {
            if self.active_downloads[k].piece_index == piece_index {
                let download = &mut self.active_downloads[k];
                download.mark_block_downloaded(block_index as usize);
            }
            k = k + 1;
        }
        let outcome = storage.finalize(piece_index as usize);
        proof {
            assert(spec_find_request(
                self.spec_requests(),
                piece_index,
                offset / PIECE_BLOCK_SIZE,
                0,
            ) == -1);
        }
        match outcome {
            Ok(FinalizeOutcome::Verified(bytes)) => {
                self.remove_active(piece_index);
                self.count_block(data_len);
                self.count_verified();
                proof {
                    assert(final(storage)@[piece_index as int] == storage@[piece_index as int]);
                }
                Ok(BlockOutcome::Verified(bytes))
            },
            Ok(FinalizeOutcome::HashMismatch) => {
                self.clear_piece_requests(piece_index);
                self.count_block(data_len);
                self.count_failed();
                proof {
                    lemma_find_request_absent(
                        self.spec_requests(),
                        piece_index,
                        offset / PIECE_BLOCK_SIZE,
                        0,
                    );
                }
                Ok(BlockOutcome::HashMismatch)
            },
            Ok(FinalizeOutcome::Incomplete) => {
                self.count_block(data_len);
                Ok(BlockOutcome::Stored)
            },
            Err(e) => Err(e),
        }
    }

    /// Adds an arrived block's bytes to the downloaded count.
    fn count_block(&mut self, n: u64)
        ensures
            final(self).stats.downloaded_bytes == spec_sat_add_u64(
                old(self).stats.downloaded_bytes,
                n as int,
            ),
            final(self).stats.uploaded_bytes == old(self).stats.uploaded_bytes,
            final(self).stats.pieces_downloaded == old(self).stats.pieces_downloaded,
            final(self).stats.pieces_verified == old(self).stats.pieces_verified,
            final(self).stats.pieces_failed == old(self).stats.pieces_failed,
            final(self).active_downloads == old(self).active_downloads,
            final(self).spec_requests() == old(self).spec_requests(),
            final(self).max_concurrent_downloads == old(self).max_concurrent_downloads,
            final(self).block_size == old(self).block_size,
    {
        let have = self.stats.downloaded_bytes;
        self.stats.downloaded_bytes = if have <= u64::MAX - n {
            have + n
        } else {
            u64::MAX
        };
    }

    /// Counts one piece downloaded and verified.
    fn count_verified(&mut self)
        ensures
            final(self).stats.pieces_downloaded == spec_sat_inc_usize(
                old(self).stats.pieces_downloaded,
            ),
            final(self).stats.pieces_verified == spec_sat_inc_usize(
                old(self).stats.pieces_verified,
            ),
            final(self).stats.pieces_failed == old(self).stats.pieces_failed,
            final(self).stats.downloaded_bytes == old(self).stats.downloaded_bytes,
            final(self).stats.uploaded_bytes == old(self).stats.uploaded_bytes,
            final(self).active_downloads == old(self).active_downloads,
            final(self).spec_requests() == old(self).spec_requests(),
            final(self).max_concurrent_downloads == old(self).max_concurrent_downloads,
            final(self).block_size == old(self).block_size,
    {
        if self.stats.pieces_downloaded < usize::MAX {
            self.stats.pieces_downloaded = self.stats.pieces_downloaded + 1;
        }
        if self.stats.pieces_verified < usize::MAX {
            self.stats.pieces_verified = self.stats.pieces_verified + 1;
        }
    }

    /// Counts one piece that failed verification.
    fn count_failed(&mut self)
        ensures
            final(self).stats.pieces_failed == spec_sat_inc_usize(old(self).stats.pieces_failed),
            final(self).stats.pieces_downloaded == old(self).stats.pieces_downloaded,
            final(self).stats.pieces_verified == old(self).stats.pieces_verified,
            final(self).stats.downloaded_bytes == old(self).stats.downloaded_bytes,
            final(self).stats.uploaded_bytes == old(self).stats.uploaded_bytes,
            final(self).active_downloads == old(self).active_downloads,
            final(self).spec_requests() == old(self).spec_requests(),
            final(self).max_concurrent_downloads == old(self).max_concurrent_downloads,
            final(self).block_size == old(self).block_size,
    {
        if self.stats.pieces_failed < usize::MAX {
            self.stats.pieces_failed = self.stats.pieces_failed + 1;
        }
    }

    /// The counters so far.
    pub fn get_stats(&self) -> (r: DownloadStats)
        ensures
            r == self.stats,
    {
        DownloadStats {
            downloaded_bytes: self.stats.downloaded_bytes,
            uploaded_bytes: self.stats.uploaded_bytes,
            pieces_downloaded: self.stats.pieces_downloaded,
            pieces_verified: self.stats.pieces_verified,
            pieces_failed: self.stats.pieces_failed,
        }
    }

    /// Drops the active download of a piece, if one exists.
    pub fn remove_active(&mut self, piece_index: u32)
        requires
            old(self).wf(),
        ensures
            final(self).wf(),
            final(self).spec_requests() == old(self).spec_requests(),
            final(self).stats == old(self).stats,
            forall|i: int|
                0 <= i < final(self).active_downloads@.len() ==> final(self).active_downloads@[i].piece_index != piece_index,
    {
        let mut k: usize = 0;
        while k < self.active_downloads.len()
            invariant
                k <= self.active_downloads@.len(),
                self.spec_requests() == old(self).spec_requests(),
                self.max_concurrent_downloads == old(self).max_concurrent_downloads,
                self.block_size == old(self).block_size,
                self.stats == old(self).stats,
                old(self).wf(),
                spec_requests_unique(self.spec_requests()),
                forall|i: int|
                    0 <= i < k ==> self.active_downloads@[i].piece_index != piece_index,
            decreases self.active_downloads@.len() - k,
        {
            if self.active_downloads[k].piece_index == piece_index {
                self.active_downloads.remove(k);
            } else {
                k = k + 1;
            }
        }
    }

    /// Drops every in-flight request of one piece, so the piece can be
    /// fetched afresh.
    pub fn clear_piece_requests(&mut self, piece_index: u32)
        requires
            old(self).wf(),
        ensures
            final(self).wf(),
            final(self).active_downloads == old(self).active_downloads,
            forall|i: int|
                0 <= i < final(self).spec_requests().len() ==> (#[trigger] final(self).spec_requests()[i]).piece_index != piece_index,
            forall|i: int|
                0 <= i < final(self).spec_requests().len() ==> old(self).spec_requests().contains(
                    #[trigger] final(self).spec_requests()[i],
                ),
            final(self).stats == old(self).stats,
    {
        let mut k: usize = 0;
        while k < self.requested_blocks.len()
            invariant
                k <= self.requested_blocks@.len(),
                self.active_downloads == old(self).active_downloads,
                self.max_concurrent_downloads == old(self).max_concurrent_downloads,
                self.block_size == old(self).block_size,
                self.stats == old(self).stats,
                old(self).wf(),
                spec_requests_unique(self.requested_blocks@),
                forall|i: int|
                    0 <= i < k ==> (#[trigger] self.requested_blocks@[i]).piece_index
                        != piece_index,
                forall|i: int|
                    0 <= i < self.requested_blocks@.len() ==> old(self).requested_blocks@.contains(#[trigger] self.requested_blocks@[i]),
            decreases self.requested_blocks@.len() - k,
        {
            if self.requested_blocks[k].piece_index == piece_index {
                let ghost before = self.requested_blocks@;
                self.requested_blocks.remove(k);
                proof {
                    assert forall|i: int|
                        0 <= i < self.requested_blocks@.len() implies old(self).requested_blocks@.contains(#[trigger] self.requested_blocks@[i]) by {
                        if i < k {
                            assert(self.requested_blocks@[i] == before[i]);
                        } else {
                            assert(self.requested_blocks@[i] == before[i + 1]);
                        }
                    }
                    assert(spec_requests_unique(self.requested_blocks@)) by {
                        assert forall|i: int, j2: int|
                            0 <= i < j2 < self.requested_blocks@.len() implies !((
                        #[trigger] self.requested_blocks@[i]).piece_index == (
                        #[trigger] self.requested_blocks@[j2]).piece_index
                            && self.requested_blocks@[i].block_index
                            == self.requested_blocks@[j2].block_index) by {
                            let i0 = if i < k { i } else { i + 1 };
                            let j0 = if j2 < k { j2 } else { j2 + 1 };
                            assert(self.requested_blocks@[i] == before[i0]);
                            assert(self.requested_blocks@[j2] == before[j0]);
                        }
                    }
                }
            } else {
                k = k + 1;
            }
        }
    }

    /// Registers a fresh active download.
    pub fn start_piece(&mut self, piece_index: u32, blocks_total: usize, now: u64)
        requires
            old(self).wf(),
        ensures
            final(self).wf(),
            final(self).spec_requests() == old(self).spec_requests(),
            final(self).active_downloads@.len() == old(self).active_downloads@.len() + 1,
            final(self).active_downloads@.last().piece_index == piece_index,
            final(self).stats == old(self).stats,
    {
        self.active_downloads.push(PieceDownload::new(piece_index, blocks_total, now));
    }

    /// How many pieces are being assembled.
    pub fn active_download_count(&self) -> (r: usize)
        ensures
            r == self.active_downloads@.len(),
    {
        self.active_downloads.len()
    }
}

/// Once a request with the key stands at `at`, the key is found.
proof fn lemma_find_request_done(s: Seq<BlockRequest>, piece: u32, block: u32, at: int)
    requires
        0 <= at < s.len(),
        s[at].piece_index == piece && s[at].block_index == block,
    ensures
        spec_find_request(s, piece, block, 0) >= 0,
{
    lemma_find_request_done_from(s, piece, block, at, 0);
}

/// The inductive core of `lemma_find_request_done`.
proof fn lemma_find_request_done_from(s: Seq<BlockRequest>, piece: u32, block: u32, at: int, from: int)
    requires
        0 <= from <= at < s.len(),
        s[at].piece_index == piece && s[at].block_index == block,
    ensures
        spec_find_request(s, piece, block, from) >= 0,
    decreases at - from,
{
    if from < at {
        if s[from].piece_index == piece && s[from].block_index == block {
        } else {
            lemma_find_request_done_from(s, piece, block, at, from + 1);
        }
    }
}

/// A key no entry carries is not found.
proof fn lemma_find_request_absent(s: Seq<BlockRequest>, piece: u32, block: u32, from: int)
    requires
        0 <= from <= s.len(),
        forall|i: int|
            from <= i < s.len() ==> !((#[trigger] s[i]).piece_index == piece && s[i].block_index
                == block),
    ensures
        spec_find_request(s, piece, block, from) == -1,
    decreases s.len() - from,
{
    if from < s.len() {
        lemma_find_request_absent(s, piece, block, from + 1);
    }
}

/// No two in-flight requests ever share a `(piece_index, block_offset)`
/// key: the request table's invariant, restated as the scheduler's law.
pub proof fn lemma_no_duplicate_inflight_requests(m: &DownloadManager, i: int, j: int)
    requires
        m.wf(),
        0 <= i < m.spec_requests().len(),
        0 <= j < m.spec_requests().len(),
        i != j,
    ensures
        !(m.spec_requests()[i].piece_index == m.spec_requests()[j].piece_index
            && m.spec_requests()[i].block_index == m.spec_requests()[j].block_index),
{
    if i < j {
        assert(!((m.spec_requests()[i]).piece_index == (m.spec_requests()[j]).piece_index
            && m.spec_requests()[i].block_index == m.spec_requests()[j].block_index));
    } else {
        assert(!((m.spec_requests()[j]).piece_index == (m.spec_requests()[i]).piece_index
            && m.spec_requests()[j].block_index == m.spec_requests()[i].block_index));
    }
}

} // verus!
