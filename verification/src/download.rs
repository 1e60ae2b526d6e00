//! The piece store: the authoritative in-memory model of download progress.
//!
//! A download is an ordered sequence of pieces; a piece is an ordered
//! sequence of blocks plus a status and the 20-byte content hash it must
//! match.  The store offers the claim/record operations the peer connections
//! race over, and its well-formedness invariant guarantees that a piece
//! reported verified really hashes to its expected digest.

use crate::hashing::bytes_eq;
use crate::hashing::sha1_digest;
use crate::hashing::sha1_of;
use crate::messages::BLOCK_BYTES;
use crate::parse_torrent::TorrentFile;
use vstd::prelude::*;

verus! {

/// Lifecycle of a piece.  `Downloaded` is reached only when every block has
/// arrived; `ShaVerified` only when the assembled bytes hash to the expected
/// digest; `WrittenToDisk` only after the verified bytes were persisted.
#[derive(Clone, Copy, Debug, PartialEq, Eq, Structural)]
pub enum PieceStatus {
    NotStarted,
    Downloading,
    Downloaded,
    ShaVerified,
    WrittenToDisk,
}

/// State of one block: not yet requested, claimed by some connection, or
/// arrived with its bytes (still unverified against the piece hash).
#[derive(Clone, Debug, PartialEq)]
pub enum Block {
    NotStarted,
    Downloaded(Vec<u8>),
    Downloading,
}

/// One piece: its blocks, its status, the content hash it must match, and
/// its byte length (the final piece of a download may be shorter than the
/// nominal piece length).
#[derive(Clone, Debug, PartialEq)]
pub struct Piece {
    pub content: Vec<Block>,
    pub status: PieceStatus,
    pub original_sha1: Vec<u8>,
    pub length: u64,
}

/// The whole download: pieces indexed by ordinal.
#[derive(Clone, Debug)]
pub struct Download {
    pub pieces: Vec<Piece>,
}

/// Number of blocks a piece of `piece_len` bytes holds: one per full
/// `BLOCK_BYTES` slice, plus one for a shorter remainder.
pub open spec fn spec_block_count(piece_len: int) -> int {
    (piece_len + BLOCK_BYTES - 1) / (BLOCK_BYTES as int)
}

/// The byte length of block `b` of a piece of `piece_len` bytes: the full
/// block size, except that the final block holds only the remainder.
pub open spec fn spec_block_len(piece_len: int, b: int) -> int
    recommends
        0 <= b < spec_block_count(piece_len),
{
    if (b + 1) * (BLOCK_BYTES as int) <= piece_len {
        BLOCK_BYTES as int
    } else {
        piece_len - b * (BLOCK_BYTES as int)
    }
}

/// The bytes a block contributes to the assembled piece.
pub open spec fn spec_block_bytes(b: Block) -> Seq<u8> {
    match b {
        Block::Downloaded(v) => v@,
        _ => seq![],
    }
}

/// The assembled bytes of a piece: its blocks' bytes in index order.
pub open spec fn spec_concat_blocks(s: Seq<Block>) -> Seq<u8>
    decreases s.len(),
{
    if s.len() == 0 {
        seq![]
    } else {
        spec_concat_blocks(s.drop_last()) + spec_block_bytes(s.last())
    }
}

/// Every block of the sequence has arrived.
pub open spec fn spec_all_downloaded(s: Seq<Block>) -> bool {
    forall|k: int| 0 <= k < s.len() ==> (#[trigger] s[k]) is Downloaded
}

impl Piece {
    /// Well-formedness: a 20-byte expected hash, a positive length the
    /// wire's 4-byte offsets can address, the block arena sized at creation
    /// time, every arrived block of its expected length, and a status that
    /// never overstates progress (`Downloaded` and above only with all
    /// blocks present, `ShaVerified` and above only with matching hash).
    pub open spec fn wf(self) -> bool {
        &&& self.original_sha1@.len() == 20
        &&& 0 < self.length <= u32::MAX
        &&& self.content@.len() == spec_block_count(self.length as int)
        &&& forall|k: int|
            0 <= k < self.content@.len() ==> ((#[trigger] self.content@[k]) matches
            Block::Downloaded(v) ==> v@.len() == spec_block_len(self.length as int, k))
        &&& (self.status is Downloaded || self.status is ShaVerified || self.status
            is WrittenToDisk) ==> spec_all_downloaded(self.content@)
        &&& (self.status is ShaVerified || self.status is WrittenToDisk) ==> sha1_of(
            spec_concat_blocks(self.content@),
        ) == self.original_sha1@
    }
}

impl Download {
    pub open spec fn wf(self) -> bool {
        forall|i: int| 0 <= i < self.pieces@.len() ==> (#[trigger] self.pieces@[i]).wf()
    }
}

/// For all pieces: a piece whose status says `ShaVerified` or
/// `WrittenToDisk` really assembles to bytes whose digest is the expected
/// 20-byte content hash.
pub proof fn lemma_verified_piece_hash(d: Download, i: int)
    requires
        d.wf(),
        0 <= i < d.pieces@.len(),
        d.pieces@[i].status is ShaVerified || d.pieces@[i].status is WrittenToDisk,
    ensures
        sha1_of(spec_concat_blocks(d.pieces@[i].content@)) == d.pieces@[i].original_sha1@,
{
}

impl Download {
    /// Builds the piece store from the metadata descriptor: one piece per
    /// 20-byte slice of the concatenated hash list, each piece's block arena
    /// pre-sized from its byte length, everything `NotStarted`.
    pub fn from(torrent: &TorrentFile) -> (d: Download)
        requires
            torrent.info.wf(),
        ensures
            d.wf(),
            d.pieces@.len() == torrent.info.spec_num_pieces(),
            forall|i: int|
                0 <= i < d.pieces@.len() ==> {
                    let p = #[trigger] d.pieces@[i];
                    &&& p.status is NotStarted
                    &&& p.length == torrent.info.spec_piece_len(i)
                    &&& p.original_sha1@ == torrent.info.pieces@.subrange(20 * i, 20 * i + 20)
                    &&& p.content@.len() == spec_block_count(p.length as int)
                    &&& forall|k: int|
                        0 <= k < p.content@.len() ==> (#[trigger] p.content@[k]) is NotStarted
                },
    {
        let total: i64 = match torrent.info.length {
            Some(t) => t,
            None => 0,
        };
        let pl: i64 = torrent.info.piece_length;
        let np_i64: i64 = (total + pl - 1) / pl;
        let ghost np = torrent.info.spec_num_pieces();
        let hash_bytes = torrent.info.pieces.len();
        proof {
            let x = total + pl - 1;
            vstd::arithmetic::div_mod::lemma_fundamental_div_mod(x as int, pl as int);
            vstd::arithmetic::div_mod::lemma_mod_bound(x as int, pl as int);
            let r = (x as int) % (pl as int);
            assert((np as int) * pl >= total && (np - 1) * pl < total && np > 0)
                by (nonlinear_arith)
                requires
                    (pl as int) * np + r == x,
                    0 <= r < pl,
                    x == total + pl - 1,
                    0 < pl,
                    0 < total,
            ;
            assert(np <= 20 * np);
        }
        let np_usize: usize = np_i64 as usize;
        let mut pieces: Vec<Piece> = Vec::new();
        let mut i: usize = 0;
        while i < np_usize
            invariant
                np == np_i64,
                np_usize as int == np,
                0 < np,
                torrent.info.wf(),
                total == torrent.info.spec_total_length(),
                pl == torrent.info.piece_length,
                hash_bytes == torrent.info.pieces@.len() == 20 * np,
                np * pl >= total,
                (np - 1) * pl < total,
                i <= np_usize,
                pieces@.len() == i,
                forall|ii: int|
                    0 <= ii < i ==> {
                        let p = #[trigger] pieces@[ii];
                        &&& p.wf()
                        &&& p.status is NotStarted
                        &&& p.length == torrent.info.spec_piece_len(ii)
                        &&& p.original_sha1@ == torrent.info.pieces@.subrange(
                            20 * ii,
                            20 * ii + 20,
                        )
                        &&& forall|k: int|
                            0 <= k < p.content@.len() ==> (#[trigger] p.content@[k])
                                is NotStarted
                    },
            decreases np_usize - i,
        {
            assert(0 <= (i as int) * pl && (i as int) * pl <= (np - 1) * pl && ((i as int) + 1)
                * pl <= np * pl && (i as int) * pl + pl == ((i as int) + 1) * pl)
                by (nonlinear_arith)
                requires
                    0 <= (i as int) <= np - 1,
                    pl > 0,
            ;
            let piece_len: u64 = if i + 1 < np_usize {
                pl as u64
            } else {
                (total - (i as i64) * pl) as u64
            };
            proof {
                if i + 1 == np_usize {
                    assert((i as int) == np - 1);
                    assert(total - (i as int) * pl <= pl);
                    assert(total - (i as int) * pl > 0);
                }
                assert(piece_len == torrent.info.spec_piece_len(i as int));
                assert(0 < piece_len <= u32::MAX);
            }
            let block_count: u64 = (piece_len + (BLOCK_BYTES as u64) - 1) / (BLOCK_BYTES as u64);
            let mut content: Vec<Block> = Vec::new();
            let mut k: u64 = 0;
            while k < block_count
                invariant
                    k <= block_count,
                    content@.len() == k,
                    forall|kk: int| 0 <= kk < k ==> (#[trigger] content@[kk]) is NotStarted,
                decreases block_count - k,
            {
                content.push(Block::NotStarted);
                k += 1;
            }
            let mut original_sha1: Vec<u8> = Vec::new();
            assert(20 * (i as int) + 20 <= 20 * np) by (nonlinear_arith)
                requires
                    0 <= (i as int) < np,
            ;
            let base: usize = 20 * i;
            let mut j: usize = 0;
            while j < 20
                invariant
                    j <= 20,
                    base == 20 * (i as int),
                    hash_bytes == torrent.info.pieces@.len(),
                    base + 20 <= hash_bytes,
                    original_sha1@.len() == j,
                    forall|jj: int|
                        0 <= jj < j ==> #[trigger] original_sha1@[jj] == torrent.info.pieces@[base
                            + jj],
                decreases 20 - j,
            {
                original_sha1.push(torrent.info.pieces[base + j]);
                j += 1;
            }
            assert(original_sha1@ =~= torrent.info.pieces@.subrange(
                20 * (i as int),
                20 * (i as int) + 20,
            ));
            let piece = Piece {
                content,
                status: PieceStatus::NotStarted,
                original_sha1,
                length: piece_len,
            };
            assert(piece.wf());
            pieces.push(piece);
            i += 1;
        }
        Download { pieces }
    }
}

/// Index of the first `NotStarted` block at or after `j`, scanning one
/// piece's blocks in ascending order.
pub open spec fn spec_first_unclaimed_in_piece(blocks: Seq<Block>, j: int) -> Option<int>
    decreases blocks.len() - j,
{
    if j < 0 || j >= blocks.len() {
        None
    } else if blocks[j] is NotStarted {
        Some(j)
    } else {
        spec_first_unclaimed_in_piece(blocks, j + 1)
    }
}

/// First `NotStarted` block at or after piece `i`, scanning pieces and
/// blocks in ascending index order.
pub open spec fn spec_first_unclaimed_from(pieces: Seq<Piece>, i: int) -> Option<(int, int)>
    decreases pieces.len() - i,
{
    if i < 0 || i >= pieces.len() {
        None
    } else {
        match spec_first_unclaimed_in_piece(pieces[i].content@, 0) {
            Some(j) => Some((i, j)),
            None => spec_first_unclaimed_from(pieces, i + 1),
        }
    }
}

/// The first unclaimed block of the whole download, in scan order.
pub open spec fn spec_first_unclaimed(d: Download) -> Option<(int, int)> {
    spec_first_unclaimed_from(d.pieces@, 0)
}

impl Download {
    /// Scans pieces and blocks in ascending index order and returns the
    /// first block that is `NotStarted`, or `None` when no block remains to
    /// claim.
    pub fn find_first_block(&self) -> (r: Option<(usize, usize)>)
        ensures
            match r {
                Some((p, b)) => {
                    &&& spec_first_unclaimed(*self) == Some((p as int, b as int))
                    &&& p < self.pieces@.len()
                    &&& b < self.pieces@[p as int].content@.len()
                    &&& self.pieces@[p as int].content@[b as int] is NotStarted
                    &&& forall|i: int, j: int|
                        0 <= i < self.pieces@.len() && 0 <= j < self.pieces@[i].content@.len()
                            && (i < p || (i == p && j < b)) ==> !((
                        #[trigger] self.pieces@[i].content@[j]) is NotStarted)
                },
                None => {
                    &&& spec_first_unclaimed(*self) is None
                    &&& forall|i: int, j: int|
                        0 <= i < self.pieces@.len() && 0 <= j < self.pieces@[i].content@.len()
                            ==> !((#[trigger] self.pieces@[i].content@[j]) is NotStarted)
                },
            },
    {
        let mut piece_index: usize = 0;
        while piece_index < self.pieces.len()
            invariant
                piece_index <= self.pieces@.len(),
                spec_first_unclaimed(*self) == spec_first_unclaimed_from(
                    self.pieces@,
                    piece_index as int,
                ),
                forall|i: int, j: int|
                    0 <= i < piece_index && 0 <= j < self.pieces@[i].content@.len() ==> !((
                    #[trigger] self.pieces@[i].content@[j]) is NotStarted),
            decreases self.pieces@.len() - piece_index,
        {
            let piece = &self.pieces[piece_index];
            let mut block_index: usize = 0;
            while block_index < piece.content.len()
                invariant
                    piece == self.pieces@[piece_index as int],
                    piece_index < self.pieces@.len(),
                    block_index <= piece.content@.len(),
                    spec_first_unclaimed(*self) == spec_first_unclaimed_from(
                        self.pieces@,
                        piece_index as int,
                    ),
                    spec_first_unclaimed_in_piece(piece.content@, 0)
                        == spec_first_unclaimed_in_piece(piece.content@, block_index as int),
                    forall|i: int, j: int|
                        0 <= i < piece_index && 0 <= j < self.pieces@[i].content@.len() ==> !((
                        #[trigger] self.pieces@[i].content@[j]) is NotStarted),
                    forall|j: int|
                        0 <= j < block_index ==> !((#[trigger] piece.content@[j]) is NotStarted),
                decreases piece.content@.len() - block_index,
            {
                if matches!(piece.content[block_index], Block::NotStarted) {
                    assert(spec_first_unclaimed_in_piece(piece.content@, block_index as int)
                        == Some(block_index as int));
                    assert(spec_first_unclaimed_from(self.pieces@, piece_index as int) == Some(
                        (piece_index as int, block_index as int),
                    ));
                    return Some((piece_index, block_index));
                }
                assert(spec_first_unclaimed_in_piece(piece.content@, block_index as int)
                    == spec_first_unclaimed_in_piece(piece.content@, block_index as int + 1));
                block_index += 1;
            }
            assert(spec_first_unclaimed_in_piece(piece.content@, block_index as int) is None);
            assert(spec_first_unclaimed_from(self.pieces@, piece_index as int)
                == spec_first_unclaimed_from(self.pieces@, piece_index as int + 1));
            piece_index += 1;
        }
        assert(spec_first_unclaimed_from(self.pieces@, piece_index as int) is None);
        None
    }

    /// Whether a claim of block `b` of piece `p` would succeed: the block
    /// exists and nobody has claimed or delivered it.
    pub open spec fn spec_claim_succeeds(self, p: int, b: int) -> bool {
        &&& 0 <= p < self.pieces@.len()
        &&& 0 <= b < self.pieces@[p].content@.len()
        &&& self.pieces@[p].content@[b] is NotStarted
    }

    /// How a successful claim changes the store: block `b` of piece `p`
    /// becomes `Downloading` and everything else stays as it was.
    pub open spec fn spec_claimed(pre: Download, post: Download, p: int, b: int) -> bool {
        &&& post.pieces@.len() == pre.pieces@.len()
        &&& forall|i: int|
            0 <= i < pre.pieces@.len() && i != p ==> #[trigger] post.pieces@[i] == pre.pieces@[i]
        &&& post.pieces@[p].status == pre.pieces@[p].status
        &&& post.pieces@[p].original_sha1 == pre.pieces@[p].original_sha1
        &&& post.pieces@[p].length == pre.pieces@[p].length
        &&& post.pieces@[p].content@ == pre.pieces@[p].content@.update(b, Block::Downloading)
    }

    /// Claims a block for one connection: marks it `Downloading` so that no
    /// other connection can claim it too.  Succeeds exactly when the block
    /// is still `NotStarted`; on failure the store is unchanged.
    pub fn claim_block(&mut self, piece_index: usize, block_index: usize) -> (claimed: bool)
        requires
            old(self).wf(),
            piece_index < old(self).pieces@.len(),
            block_index < old(self).pieces@[piece_index as int].content@.len(),
        ensures
            final(self).wf(),
            claimed == old(self).spec_claim_succeeds(piece_index as int, block_index as int),
            claimed ==> Download::spec_claimed(
                *old(self),
                *final(self),
                piece_index as int,
                block_index as int,
            ),
            !claimed ==> *final(self) == *old(self),
    {
        let claimed = matches!(self.pieces[piece_index].content[block_index], Block::NotStarted);
        if claimed {
            self.pieces[piece_index].content[block_index] = Block::Downloading;
            assert(final(self).pieces@[piece_index as int].wf());
            assert(final(self).wf());
        }
        claimed
    }
}

/// Claiming is exclusive: after one successful claim of a block, a second
/// claim of the same block cannot succeed until the piece is reset.
pub proof fn lemma_claim_block_exclusive(pre: Download, post: Download, p: int, b: int)
    requires
        pre.spec_claim_succeeds(p, b),
        Download::spec_claimed(pre, post, p, b),
    ensures
        !post.spec_claim_succeeds(p, b),
{
    assert(post.pieces@[p].content@[b] is Downloading);
}

impl Download {
    /// Records that a verified piece was durably written at its offset in
    /// the output file.
    pub fn mark_written(&mut self, piece_index: usize)
        requires
            old(self).wf(),
            piece_index < old(self).pieces@.len(),
            old(self).pieces@[piece_index as int].status is ShaVerified,
        ensures
            final(self).wf(),
            final(self).pieces@.len() == old(self).pieces@.len(),
            forall|i: int|
                0 <= i < old(self).pieces@.len() && i != piece_index
                    ==> #[trigger] final(self).pieces@[i] == old(self).pieces@[i],
            final(self).pieces@[piece_index as int].status is WrittenToDisk,
            final(self).pieces@[piece_index as int].content == old(
                self,
            ).pieces@[piece_index as int].content,
            final(self).pieces@[piece_index as int].original_sha1 == old(
                self,
            ).pieces@[piece_index as int].original_sha1,
            final(self).pieces@[piece_index as int].length == old(
                self,
            ).pieces@[piece_index as int].length,
    {
        self.pieces[piece_index].status = PieceStatus::WrittenToDisk;
        assert(final(self).pieces@[piece_index as int].wf());
        assert(final(self).wf());
    }
}

pub proof fn lemma_block_count_bounds(piece_len: int)
    requires
        0 < piece_len,
    ensures
        0 < spec_block_count(piece_len),
        (spec_block_count(piece_len) - 1) * (BLOCK_BYTES as int) < piece_len,
        piece_len <= spec_block_count(piece_len) * (BLOCK_BYTES as int),
{
    let bb = BLOCK_BYTES as int;
    let x = piece_len + bb - 1;
    vstd::arithmetic::div_mod::lemma_fundamental_div_mod(x, bb);
    vstd::arithmetic::div_mod::lemma_mod_bound(x, bb);
    let q = spec_block_count(piece_len);
    let r = x % bb;
    assert(0 < q && (q - 1) * bb < piece_len && piece_len <= q * bb) by (nonlinear_arith)
        requires
            bb * q + r == x,
            0 <= r < bb,
            x == piece_len + bb - 1,
            0 < bb,
            0 < piece_len,
    ;
}

/// Bytes of `data` covered by the first `m` blocks of a piece of
/// `piece_len` bytes.
pub open spec fn spec_chunk_prefix_len(piece_len: int, m: int) -> int {
    if m * (BLOCK_BYTES as int) <= piece_len {
        m * (BLOCK_BYTES as int)
    } else {
        piece_len
    }
}

proof fn lemma_chunk_prefix_step(piece_len: int, m: int)
    requires
        0 < piece_len,
        1 <= m <= spec_block_count(piece_len),
    ensures
        spec_chunk_prefix_len(piece_len, m - 1) == (m - 1) * (BLOCK_BYTES as int),
        spec_chunk_prefix_len(piece_len, m) == spec_chunk_prefix_len(piece_len, m - 1)
            + spec_block_len(piece_len, m - 1),
        0 <= spec_chunk_prefix_len(piece_len, m - 1) <= spec_chunk_prefix_len(piece_len, m)
            <= piece_len,
{
    let bb = BLOCK_BYTES as int;
    let q = spec_block_count(piece_len);
    lemma_block_count_bounds(piece_len);
    assert((m - 1) * bb + bb == m * bb && (m - 1) * bb <= (q - 1) * bb && 0 <= (m - 1) * bb)
        by (nonlinear_arith)
        requires
            1 <= m <= q,
            0 < bb,
    ;
}

/// The blocks slice `data` exactly: block `k` holds the bytes of `data`
/// from `k * BLOCK_BYTES` on, full blocks except a shorter final one.
pub open spec fn spec_chunked(content: Seq<Block>, data: Seq<u8>, piece_len: int) -> bool {
    &&& content.len() == spec_block_count(piece_len)
    &&& forall|k: int| 0 <= k < content.len() ==> (#[trigger] content[k]) is Downloaded
    &&& forall|k: int|
        0 <= k < content.len() ==> spec_block_bytes(#[trigger] content[k]) == data.subrange(
            k * (BLOCK_BYTES as int),
            k * (BLOCK_BYTES as int) + spec_block_len(piece_len, k),
        )
}

proof fn lemma_concat_of_chunked(content: Seq<Block>, data: Seq<u8>, piece_len: int, m: int)
    requires
        spec_chunked(content, data, piece_len),
        data.len() == piece_len,
        0 < piece_len,
        0 <= m <= content.len(),
    ensures
        spec_concat_blocks(content.take(m)) == data.take(spec_chunk_prefix_len(piece_len, m)),
    decreases m,
{
    let bb = BLOCK_BYTES as int;
    if m == 0 {
        assert(content.take(0) =~= Seq::<Block>::empty());
        assert(spec_chunk_prefix_len(piece_len, 0) == 0);
        assert(data.take(0) =~= Seq::<u8>::empty());
    } else {
        lemma_concat_of_chunked(content, data, piece_len, m - 1);
        lemma_chunk_prefix_step(piece_len, m);
        let pl_m = spec_chunk_prefix_len(piece_len, m);
        let pl_m1 = spec_chunk_prefix_len(piece_len, m - 1);
        assert(content.take(m).drop_last() =~= content.take(m - 1));
        assert(content.take(m).last() == content[m - 1]);
        assert(spec_block_bytes(content[m - 1]) == data.subrange(
            (m - 1) * bb,
            (m - 1) * bb + spec_block_len(piece_len, m - 1),
        ));
        assert(data.take(pl_m) =~= data.take(pl_m1) + data.subrange(pl_m1, pl_m));
    }
}

/// Blocks that slice `data` assemble back to `data`.
pub proof fn lemma_chunked_concat(content: Seq<Block>, data: Seq<u8>, piece_len: int)
    requires
        spec_chunked(content, data, piece_len),
        data.len() == piece_len,
        0 < piece_len,
    ensures
        spec_concat_blocks(content) == data,
{
    lemma_block_count_bounds(piece_len);
    lemma_concat_of_chunked(content, data, piece_len, content.len() as int);
    assert(content.take(content.len() as int) =~= content);
    assert(spec_chunk_prefix_len(piece_len, content.len() as int) == piece_len);
    assert(data.take(piece_len as int) =~= data);
}

/// How recording a whole piece at once changes that piece: bytes of the
/// right length that hash to the expected digest are accepted and sliced
/// into `Downloaded` blocks, and the piece becomes `ShaVerified`; anything
/// else resets the piece and all its blocks to `NotStarted`.
pub open spec fn spec_record_whole(pre: Piece, post: Piece, data: Seq<u8>) -> bool {
    &&& post.original_sha1 == pre.original_sha1
    &&& post.length == pre.length
    &&& if data.len() == pre.length && sha1_of(data) == pre.original_sha1@ {
        &&& post.status is ShaVerified
        &&& spec_chunked(post.content@, data, pre.length as int)
        &&& spec_concat_blocks(post.content@) == data
    } else {
        &&& post.status is NotStarted
        &&& post.content@.len() == pre.content@.len()
        &&& forall|k: int| 0 <= k < post.content@.len() ==> (#[trigger] post.content@[k])
            is NotStarted
    }
}

/// Copies `data[from..to]` into a fresh vector.
fn copy_slice_range(data: &[u8], from: usize, to: usize) -> (r: Vec<u8>)
    requires
        from <= to <= data@.len(),
    ensures
        r@ == data@.subrange(from as int, to as int),
{
    let mut r: Vec<u8> = Vec::new();
    let mut i: usize = from;
    while i < to
        invariant
            from <= i <= to <= data@.len(),
            r@ == data@.subrange(from as int, i as int),
        decreases to - i,
    {
        r.push(*vstd::slice::slice_index_get(data, i));
        i += 1;
        assert(r@ =~= data@.subrange(from as int, i as int));
    }
    r
}

impl Download {
    /// Records a whole piece's bytes at once, as when re-verifying content
    /// that already exists on disk.  The bytes are accepted only if they
    /// have the piece's exact length and hash to its expected digest;
    /// otherwise the piece is left `NotStarted` with all blocks discarded.
    pub fn set_piece(&mut self, data: &[u8], piece_index: usize)
        requires
            old(self).wf(),
            piece_index < old(self).pieces@.len(),
        ensures
            final(self).wf(),
            final(self).pieces@.len() == old(self).pieces@.len(),
            forall|i: int|
                0 <= i < old(self).pieces@.len() && i != piece_index
                    ==> #[trigger] final(self).pieces@[i] == old(self).pieces@[i],
            spec_record_whole(
                old(self).pieces@[piece_index as int],
                final(self).pieces@[piece_index as int],
                data@,
            ),
    {
        let ghost pre = self.pieces@[piece_index as int];
        let expected_len: u64 = self.pieces[piece_index].length;
        let digest = sha1_digest(data);
        let hash_ok = bytes_eq(&digest, &self.pieces[piece_index].original_sha1);
        if data.len() as u64 == expected_len && hash_ok {
            let plen: usize = expected_len as usize;
            let ghost plen_int = pre.length as int;
            proof {
                lemma_block_count_bounds(plen_int);
            }
            let bb: usize = BLOCK_BYTES as usize;
            let mut content: Vec<Block> = Vec::new();
            let mut off: usize = 0;
            let mut k: usize = 0;
            let ghost count = spec_block_count(plen_int);
            while off < plen
                invariant
                    data@.len() == plen == plen_int,
                    0 < plen_int <= u32::MAX,
                    bb == BLOCK_BYTES,
                    count == spec_block_count(plen_int),
                    k <= count,
                    content@.len() == k,
                    off == spec_chunk_prefix_len(plen_int, k as int),
                    off < plen ==> k < count,
                    forall|kk: int| 0 <= kk < k ==> (#[trigger] content@[kk]) is Downloaded,
                    forall|kk: int|
                        0 <= kk < k ==> spec_block_bytes(#[trigger] content@[kk])
                            == data@.subrange(
                            kk * (BLOCK_BYTES as int),
                            kk * (BLOCK_BYTES as int) + spec_block_len(plen_int, kk),
                        ),
                decreases plen - off,
            {
                proof {
                    lemma_block_count_bounds(plen_int);
                    lemma_chunk_prefix_step(plen_int, k as int + 1);
                }
                let rem: usize = plen - off;
                let take: usize = if rem > bb {
                    bb
                } else {
                    rem
                };
                assert(take == spec_block_len(plen_int, k as int));
                let end: usize = off + take;
                let chunk = copy_slice_range(data, off, end);
                content.push(Block::Downloaded(chunk));
                k += 1;
                off = end;
                assert(off == spec_chunk_prefix_len(plen_int, k as int));
            }
            assert(k == count) by {
                if (k as int) < count {
                    lemma_chunk_prefix_step(plen_int, k as int + 1);
                    assert(spec_chunk_prefix_len(plen_int, k as int) < plen_int);
                }
            }
            proof {
                assert(spec_chunked(content@, data@, plen_int));
                lemma_chunked_concat(content@, data@, plen_int);
            }
            self.pieces[piece_index].content = content;
            self.pieces[piece_index].status = PieceStatus::ShaVerified;
            assert(final(self).pieces@[piece_index as int].wf());
        } else {
            let count: usize = self.pieces[piece_index].content.len();
            let mut content: Vec<Block> = Vec::new();
            let mut k: usize = 0;
            while k < count
                invariant
                    k <= count,
                    content@.len() == k,
                    forall|kk: int| 0 <= kk < k ==> (#[trigger] content@[kk]) is NotStarted,
                decreases count - k,
            {
                content.push(Block::NotStarted);
                k += 1;
            }
            self.pieces[piece_index].content = content;
            self.pieces[piece_index].status = PieceStatus::NotStarted;
            assert(final(self).pieces@[piece_index as int].wf());
        }
    }
}

/// The expected byte length of block `b` of a piece `piece_len` bytes long.
pub(crate) fn block_len_of(piece_len: u64, b: usize) -> (r: u32)
    requires
        0 < piece_len <= u32::MAX,
        (b as int) < spec_block_count(piece_len as int),
    ensures
        r == spec_block_len(piece_len as int, b as int),
        0 < r <= BLOCK_BYTES,
{
    proof {
        lemma_block_count_bounds(piece_len as int);
        let bb = BLOCK_BYTES as int;
        let q = spec_block_count(piece_len as int);
        assert(((b as int) + 1) * bb <= q * bb && 0 <= (b as int) * bb && (b as int) * bb <= (q
            - 1) * bb && (b as int) * bb + bb == ((b as int) + 1) * bb && q * bb < piece_len + bb)
            by (nonlinear_arith)
            requires
                0 <= (b as int) < q,
                0 < bb,
                (q - 1) * bb < piece_len,
        ;
    }
    let bb64: u64 = BLOCK_BYTES as u64;
    if ((b as u64) + 1) * bb64 <= piece_len {
        BLOCK_BYTES
    } else {
        (piece_len - (b as u64) * bb64) as u32
    }
}

/// `post` is `pre` with block `b` replaced by an arrived block holding
/// `data`.
pub open spec fn spec_stored_block(pre: Seq<Block>, post: Seq<Block>, b: int, data: Seq<u8>) -> bool {
    &&& post.len() == pre.len()
    &&& forall|k: int| 0 <= k < pre.len() && k != b ==> #[trigger] post[k] == pre[k]
    &&& post[b] is Downloaded
    &&& spec_block_bytes(post[b]) == data
}

/// How recording one arrived block changes a piece.  The block is stored;
/// if it was the last one missing, the assembled bytes are hashed: on a
/// match the piece becomes `ShaVerified` and the bytes are returned for
/// persisting, on a mismatch the piece and all its blocks are reset to
/// `NotStarted` and nothing is returned.  While blocks are still missing
/// only the one block changes.
pub open spec fn spec_record_block(
    pre: Piece,
    post: Piece,
    data: Seq<u8>,
    b: int,
    r: Option<Seq<u8>>,
) -> bool {
    &&& post.original_sha1 == pre.original_sha1
    &&& post.length == pre.length
    &&& exists|stored: Seq<Block>|
        {
            &&& #[trigger] spec_stored_block(pre.content@, stored, b, data)
            &&& if spec_all_downloaded(stored) {
                if sha1_of(spec_concat_blocks(stored)) == pre.original_sha1@ {
                    &&& post.status is ShaVerified
                    &&& post.content@ == stored
                    &&& r == Some(spec_concat_blocks(stored))
                } else {
                    &&& post.status is NotStarted
                    &&& post.content@.len() == pre.content@.len()
                    &&& (forall|k: int|
                        0 <= k < post.content@.len() ==> (#[trigger] post.content@[k])
                            is NotStarted)
                    &&& r is None
                }
            } else {
                &&& post.status == pre.status
                &&& post.content@ == stored
                &&& r is None
            }
        }
}

impl Download {
    /// Records one arrived block.  `piece_offset` is the block's byte
    /// offset inside the piece, as the wire carries it; it must sit on a
    /// block boundary and the data must have that block's exact length.
    /// Returns the piece's assembled and verified bytes when this block
    /// completed the piece and the hash matched.
    pub fn set_block(&mut self, data: &[u8], piece_index: usize, piece_offset: usize) -> (r: Option<
        Vec<u8>,
    >)
        requires
            old(self).wf(),
            piece_index < old(self).pieces@.len(),
            (piece_offset as int) % (BLOCK_BYTES as int) == 0,
            (piece_offset as int) / (BLOCK_BYTES as int) < old(
                self,
            ).pieces@[piece_index as int].content@.len(),
            data@.len() == spec_block_len(
                old(self).pieces@[piece_index as int].length as int,
                (piece_offset as int) / (BLOCK_BYTES as int),
            ),
        ensures
            final(self).wf(),
            final(self).pieces@.len() == old(self).pieces@.len(),
            forall|i: int|
                0 <= i < old(self).pieces@.len() && i != piece_index
                    ==> #[trigger] final(self).pieces@[i] == old(self).pieces@[i],
            spec_record_block(
                old(self).pieces@[piece_index as int],
                final(self).pieces@[piece_index as int],
                data@,
                (piece_offset as int) / (BLOCK_BYTES as int),
                match r {
                    Some(v) => Some(v@),
                    None => None,
                },
            ),
    {
        let ghost pre = self.pieces@[piece_index as int];
        let block_index: usize = piece_offset / (BLOCK_BYTES as usize);
        let chunk = copy_slice_range(data, 0, data.len());
        assert(chunk@ =~= data@);
        self.pieces[piece_index].content[block_index] = Block::Downloaded(chunk);
        let ghost stored = self.pieces@[piece_index as int].content@;
        assert(spec_stored_block(pre.content@, stored, block_index as int, data@));
        proof {
            assert(forall|k: int|
                0 <= k < stored.len() ==> ((#[trigger] stored[k]) matches Block::Downloaded(v)
                    ==> v@.len() == spec_block_len(pre.length as int, k)));
        }

        let piece = &self.pieces[piece_index];
        let count: usize = piece.content.len();
        let mut all = true;
        let mut k: usize = 0;
        while k < count
            invariant
                count == piece.content@.len(),
                k <= count,
                all <==> (forall|kk: int|
                    0 <= kk < k ==> (#[trigger] piece.content@[kk]) is Downloaded),
            decreases count - k,
        {
            if !matches!(piece.content[k], Block::Downloaded(_)) {
                all = false;
            }
            k += 1;
        }
        assert(all <==> spec_all_downloaded(stored));
        if !all {
            proof {
                if pre.status is Downloaded || pre.status is ShaVerified || pre.status
                    is WrittenToDisk {
                    assert(spec_all_downloaded(pre.content@));
                    assert forall|k: int| 0 <= k < stored.len() implies (#[trigger] stored[k])
                        is Downloaded by {
                        assert(pre.content@[k] is Downloaded);
                    }
                    assert(false);
                }
                assert(self.pieces@[piece_index as int].wf());
                assert(self.wf());
            }
            return None;
        }

        let mut assembled: Vec<u8> = Vec::new();
        let mut k: usize = 0;
        while k < count
            invariant
                count == piece.content@.len(),
                spec_all_downloaded(piece.content@),
                k <= count,
                assembled@ == spec_concat_blocks(piece.content@.take(k as int)),
            decreases count - k,
        {
            match &piece.content[k] {
                Block::Downloaded(v) => {
                    let mut j: usize = 0;
                    while j < v.len()
                        invariant
                            j <= v@.len(),
                            assembled@ == spec_concat_blocks(piece.content@.take(k as int))
                                + v@.subrange(0, j as int),
                        decreases v@.len() - j,
                    {
                        assembled.push(v[j]);
                        j += 1;
                        assert(assembled@ =~= spec_concat_blocks(piece.content@.take(k as int))
                            + v@.subrange(0, j as int));
                    }
                    assert(v@.subrange(0, v@.len() as int) =~= v@);
                },
                _ => {
                    assert(false);
                },
            }
            k += 1;
            assert(piece.content@.take(k as int).drop_last() =~= piece.content@.take(
                k as int - 1,
            ));
        }
        assert(piece.content@.take(count as int) =~= piece.content@);
        assert(assembled@ == spec_concat_blocks(stored));

        self.pieces[piece_index].status = PieceStatus::Downloaded;
        let digest = sha1_digest(assembled.as_slice());
        let hash_ok = bytes_eq(&digest, &self.pieces[piece_index].original_sha1);
        if hash_ok {
            self.pieces[piece_index].status = PieceStatus::ShaVerified;
            assert(final(self).pieces@[piece_index as int].wf());
            Some(assembled)
        } else {
            let mut content: Vec<Block> = Vec::new();
            let mut k: usize = 0;
            while k < count
                invariant
                    k <= count,
                    content@.len() == k,
                    forall|kk: int| 0 <= kk < k ==> (#[trigger] content@[kk]) is NotStarted,
                decreases count - k,
            {
                content.push(Block::NotStarted);
                k += 1;
            }
            self.pieces[piece_index].content = content;
            self.pieces[piece_index].status = PieceStatus::NotStarted;
            assert(final(self).pieces@[piece_index as int].wf());
            assert(spec_stored_block(pre.content@, stored, (piece_offset as int) / (BLOCK_BYTES as int), data@));
            None
        }
    }
}

} // verus!
