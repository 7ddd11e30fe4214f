//! The block table of a bundle and the decompression of its storage blocks.

use vstd::prelude::*;

use crate::error::UnpackError;
use crate::unpacker::lz4inv;
use crate::unpacker::lz4inv::spec_lz4inv;
use super::header::{BundleHeader, BundleHeaderView};
use super::read::{Reader, SpecRead, read_follows, spec_take, spec_u16, spec_u32, spec_u64, spec_cstring, spec_repeat, lemma_repeat_err, pos_of, val_of, err_of, u16_be, u32_be, u64_be, cstring};

verus! {

#[verifier::external_type_specification]
#[verifier::external_body]
pub struct ExDecompressError(lz4_flex::block::DecompressError);

/// What `lz4_flex::decompress` makes of `input` with `size` as the minimal
/// uncompressed size: the decoded bytes, or `None` where it fails.
pub uninterp spec fn lz4_block(input: Seq<u8>, size: nat) -> Option<Seq<u8>>;

/// The number of 0xFF bytes from position `j` of `c` on.
pub open spec fn ff_run_from(c: Seq<u8>, j: int) -> nat
    decreases c.len() - j,
{
    if 0 <= j < c.len() && c[j] == 0xFF {
        ff_run_from(c, j + 1) + 1
    } else {
        0
    }
}

/// The value of an LZ4 length-extension field at `j`: every byte up to and
/// including the first below 0xFF, added (as far as the input reaches).
pub open spec fn ext_value(c: Seq<u8>, j: int) -> int {
    let run = ff_run_from(c, j);
    255 * run + if 0 <= j + run < c.len() { c[j + run] as int } else { 0 }
}

/// Where a length-extension field at `j` ends; `None` where the input ends
/// inside it.
pub open spec fn ext_end(c: Seq<u8>, j: int) -> Option<int> {
    let run = ff_run_from(c, j);
    if 0 <= j && j + run < c.len() {
        Some(j + run + 1)
    } else {
        None
    }
}

/// A literal-length extension that `lz4_flex` cannot sum: its `u32` counter
/// would pass `u32::MAX`, or the length, 15 more, would pass `usize::MAX`.
pub open spec fn literal_ext_overflows(c: Seq<u8>, j: int) -> bool {
    ext_value(c, j) > u32::MAX || 15 + ext_value(c, j) > usize::MAX
}

/// A match-length extension that `lz4_flex` cannot sum: its `u32` counter
/// would pass `u32::MAX`, or the match length (19 more) added to an output
/// position of at most `size` could pass `usize::MAX`.
pub open spec fn match_ext_overflows(c: Seq<u8>, j: int, size: int) -> bool {
    ext_value(c, j) > u32::MAX || 19 + ext_value(c, j) + size > usize::MAX
}

/// Whether the sequences of the LZ4 block `c`, followed from the one at
/// `i` as `lz4_flex` reads them (a token whose high nibble is the literal
/// length and low nibble the match length less four, 15 meaning that an
/// extension follows; the literals; a two-byte offset; the match
/// extension), reach a length extension that overflows. The walk stops
/// where the input ends or cannot hold what the token announces.
pub open spec fn lz4_ext_overflow_from(c: Seq<u8>, size: int, i: int) -> bool
    decreases c.len() - i,
{
    if !(0 <= i < c.len()) {
        false
    } else {
        let lit_nib = c[i] / 16;
        let match_nib = c[i] % 16;
        let lit_len = if lit_nib == 15 { 15 + ext_value(c, i + 1) } else { lit_nib as int };
        let lit_start = if lit_nib == 15 { ext_end(c, i + 1) } else { Some(i + 1) };
        if lit_nib == 15 && literal_ext_overflows(c, i + 1) {
            true
        } else if lit_start is None {
            false
        } else if lit_start->0 + lit_len + 2 > c.len() {
            false
        } else {
            let m = lit_start->0 + lit_len + 2;
            if match_nib != 15 {
                lz4_ext_overflow_from(c, size, m)
            } else if match_ext_overflows(c, m, size) {
                true
            } else if ext_end(c, m) is None {
                false
            } else {
                lz4_ext_overflow_from(c, size, ext_end(c, m)->0)
            }
        }
    }
}

proof fn lemma_ext_end_after(c: Seq<u8>, j: int)
    ensures
        ext_end(c, j) matches Some(e) ==> j < e <= c.len(),
        ext_value(c, j) >= 0,
{
}

/// The value and the end of the length-extension field at `j`.
fn read_ext(c: &[u8], j: usize) -> (r: (u128, Option<usize>))
    requires
        j <= c@.len(),
    ensures
        r.0 == ext_value(c@, j as int),
        r.1 matches Some(e) ==> ext_end(c@, j as int) == Some(e as int),
        r.1 is None ==> ext_end(c@, j as int) is None,
{
    let mut k = j;
    while k < c.len() && c[k] == 0xFF
        invariant
            j <= k <= c@.len(),
            ff_run_from(c@, j as int) == (k - j) + ff_run_from(c@, k as int),
        decreases c@.len() - k,
    {
        k = k + 1;
    }
    let run = (k - j) as u128;
    if k < c.len() {
        (255 * run + c[k] as u128, Some(k + 1))
    } else {
        (255 * run, None)
    }
}

/// Whether `lz4_flex` would meet an overflowing length extension in `c`,
/// as [`lz4_ext_overflow_from`] says.
fn lz4_ext_overflow(c: &[u8], size: usize) -> (b: bool)
    ensures
        b == lz4_ext_overflow_from(c@, size as int, 0),
{
    let len = c.len();
    let mut i: usize = 0;
    while i < len
        invariant
            len == c@.len(),
            i <= len,
            lz4_ext_overflow_from(c@, size as int, 0) == lz4_ext_overflow_from(c@, size as int, i as int),
        decreases len - i,
    {
        let token = c[i];
        let lit_nib = token / 16;
        let match_nib = token % 16;
        let mut lit_len: u128 = lit_nib as u128;
        let mut lit_start: usize = i + 1;
        if lit_nib == 15 {
            let (v, e) = read_ext(c, i + 1);
            if v > u32::MAX as u128 || 15 + v > usize::MAX as u128 {
                return true;
            }
            match e {
                None => return false,
                Some(e) => {
                    lit_start = e;
                },
            }
            lit_len = 15 + v;
        }
        proof {
            lemma_ext_end_after(c@, i + 1);
        }
        if lit_start as u128 + lit_len + 2 > len as u128 {
            return false;
        }
        let m = (lit_start as u128 + lit_len + 2) as usize;
        if match_nib != 15 {
            i = m;
        } else {
            let (v, e) = read_ext(c, m);
            if v > u32::MAX as u128 || 19 + v + size as u128 > usize::MAX as u128 {
                return true;
            }
            proof {
                lemma_ext_end_after(c@, m as int);
            }
            match e {
                None => return false,
                Some(e) => {
                    i = e;
                },
            }
        }
    }
    false
}

/// `lz4_flex::decompress` (the safe decoder of that crate): decodes an LZ4
/// block into at most `size` bytes. The contract names the result and adds
/// only that it is no longer than `size` and, being a `Vec<u8>`, no longer
/// than `isize::MAX`. Left out are a `size` that `vec![0; size]` cannot
/// hold and inputs whose length extensions would overflow its counters
/// ([`lz4_ext_overflow_from`]).
#[verifier::external_body]
fn lz4_flex_decompress(input: &[u8], size: usize) -> (r: Result<Vec<u8>, lz4_flex::block::DecompressError>)
    requires
        size <= isize::MAX,
        !lz4_ext_overflow_from(input@, size as int, 0),
    ensures
        r is Ok <==> lz4_block(input@, size as nat) is Some,
        r matches Ok(v) ==> lz4_block(input@, size as nat) == Some(v@) && v@.len() <= size
            && v@.len() <= isize::MAX,
{
    lz4_flex::decompress(input, size)
}

/// An LZ4 block decoded by `lz4_flex`, with this library's errors.
pub open spec fn spec_lz4_block(input: Seq<u8>, size: nat) -> Result<Seq<u8>, UnpackError> {
    if size > isize::MAX {
        Err(UnpackError::OutputTooLarge)
    } else if lz4_ext_overflow_from(input, size as int, 0) {
        Err(UnpackError::Lz4LengthOverflow)
    } else {
        match lz4_block(input, size) {
            Some(v) => Ok(v),
            None => Err(UnpackError::Lz4Block),
        }
    }
}

fn decompress_lz4_block(input: &[u8], size: usize) -> (r: Result<Vec<u8>, UnpackError>)
    ensures
        match spec_lz4_block(input@, size as nat) {
            Ok(v) => r is Ok && r->Ok_0@ == v && v.len() <= isize::MAX,
            Err(e) => r == Err::<Vec<u8>, UnpackError>(e),
        },
{
    if size > isize::MAX as usize {
        return Err(UnpackError::OutputTooLarge);
    }
    if lz4_ext_overflow(input, size) {
        return Err(UnpackError::Lz4LengthOverflow);
    }
    match lz4_flex_decompress(input, size) {
        Ok(v) => Ok(v),
        Err(_) => Err(UnpackError::Lz4Block),
    }
}

/// One storage block: its sizes and its flags, whose low six bits give the
/// compression (0 none, 2 and 3 LZ4, 4 LZ4Inv).
#[derive(Debug, Clone, Copy)]
pub struct StorageBlock {
    pub decompressed_size: u32,
    pub compressed_size: u32,
    pub flags: u16,
}

impl View for StorageBlock {
    type V = StorageBlock;

    open spec fn view(&self) -> StorageBlock {
        *self
    }
}

/// One entry of the directory: where a file lies in the decompressed data.
#[derive(Debug)]
pub struct DirectoryNode {
    pub offset: u64,
    pub size: u64,
    pub flags: u32,
    pub name: String,
}

pub struct DirectoryNodeView {
    pub offset: u64,
    pub size: u64,
    pub flags: u32,
    pub name: Seq<char>,
}

impl View for DirectoryNode {
    type V = DirectoryNodeView;

    open spec fn view(&self) -> DirectoryNodeView {
        DirectoryNodeView { offset: self.offset, size: self.size, flags: self.flags, name: self.name@ }
    }
}

/// The block table: the storage blocks and the directory.
#[derive(Debug)]
pub struct BlockInfo {
    pub blocks: Vec<StorageBlock>,
    pub nodes: Vec<DirectoryNode>,
}

pub struct BlockInfoView {
    pub blocks: Seq<StorageBlock>,
    pub nodes: Seq<DirectoryNodeView>,
}

impl View for BlockInfo {
    type V = BlockInfoView;

    open spec fn view(&self) -> BlockInfoView {
        BlockInfoView { blocks: self.blocks@, nodes: self.nodes@.map_values(|n: DirectoryNode| n@) }
    }
}

/// A storage block entry: decompressed size, compressed size, flags.
pub open spec fn spec_storage_block(d: Seq<u8>, p: int) -> SpecRead<StorageBlock> {
    let dsize = spec_u32(d, p, true);
    let csize = spec_u32(d, pos_of(dsize), true);
    let flags = spec_u16(d, pos_of(csize), true);
    if dsize is Err {
        Err(err_of(dsize))
    } else if csize is Err {
        Err(err_of(csize))
    } else if flags is Err {
        Err(err_of(flags))
    } else {
        Ok((StorageBlock {
            decompressed_size: val_of(dsize),
            compressed_size: val_of(csize),
            flags: val_of(flags),
        }, pos_of(flags)))
    }
}

/// A directory entry: offset, size, flags and zero-terminated name.
pub open spec fn spec_directory_node(d: Seq<u8>, p: int) -> SpecRead<DirectoryNodeView> {
    let offset = spec_u64(d, p, true);
    let size = spec_u64(d, pos_of(offset), true);
    let flags = spec_u32(d, pos_of(size), true);
    let name = spec_cstring(d, pos_of(flags));
    if offset is Err {
        Err(err_of(offset))
    } else if size is Err {
        Err(err_of(size))
    } else if flags is Err {
        Err(err_of(flags))
    } else if name is Err {
        Err(err_of(name))
    } else {
        Ok((DirectoryNodeView {
            offset: val_of(offset),
            size: val_of(size),
            flags: val_of(flags),
            name: val_of(name),
        }, pos_of(name)))
    }
}

pub open spec fn storage_block_reader() -> spec_fn(Seq<u8>, int) -> SpecRead<StorageBlock> {
    |d: Seq<u8>, p: int| spec_storage_block(d, p)
}

pub open spec fn directory_node_reader() -> spec_fn(Seq<u8>, int) -> SpecRead<DirectoryNodeView> {
    |d: Seq<u8>, p: int| spec_directory_node(d, p)
}

/// The decompressed block table: 16 bytes of hash, then the count and
/// entries of the storage blocks, then the count and entries of the
/// directory.
pub open spec fn spec_block_table(d: Seq<u8>) -> SpecRead<BlockInfoView> {
    let block_count = spec_u32(d, 16, true);
    let blocks = spec_repeat(d, pos_of(block_count), val_of(block_count) as nat, storage_block_reader());
    let node_count = spec_u32(d, pos_of(blocks), true);
    let nodes = spec_repeat(d, pos_of(node_count), val_of(node_count) as nat, directory_node_reader());
    if block_count is Err {
        Err(err_of(block_count))
    } else if blocks is Err {
        Err(err_of(blocks))
    } else if node_count is Err {
        Err(err_of(node_count))
    } else if nodes is Err {
        Err(err_of(nodes))
    } else {
        Ok((BlockInfoView { blocks: val_of(blocks), nodes: val_of(nodes) }, pos_of(nodes)))
    }
}

/// `p` rounded up to a multiple of 16.
pub open spec fn align16(p: int) -> int {
    (p + 15) / 16 * 16
}

/// `a - b` modulo 2^64.
pub open spec fn wrapping_sub_u64(a: u64, b: u64) -> int {
    if a >= b {
        a - b
    } else {
        a - b + 0x1_0000_0000_0000_0000
    }
}

/// Where the compressed block table starts: at the end of the file where
/// flag 0x80 is set, else after the header, aligned to 16 bytes.
pub open spec fn spec_table_start(h: BundleHeaderView, p: int) -> int {
    if h.flags & 0x80 != 0 {
        wrapping_sub_u64(h.file_size as u64, h.compressed_blocks_size as u64)
    } else if align16(p) > p {
        align16(p)
    } else {
        p
    }
}

/// The block table read from the bundle at `p` for header `h`; the position
/// after is the end of the compressed table.
pub open spec fn spec_block_info(d: Seq<u8>, p: int, h: BundleHeaderView) -> SpecRead<BlockInfoView> {
    let raw = spec_take(d, spec_table_start(h, p), h.compressed_blocks_size as int);
    let table = spec_lz4_block(val_of(raw), h.decompressed_blocks_size as nat);
    if raw is Err {
        Err(err_of(raw))
    } else if table is Err {
        Err(table->Err_0)
    } else {
        match spec_block_table(table->Ok_0) {
            Ok((info, _)) => Ok((info, pos_of(raw))),
            Err(e) => Err(e),
        }
    }
}

/// What a block table stored as the bytes `raw` decodes to, with the
/// position `end` after it.
pub open spec fn table_from(raw: Seq<u8>, h: BundleHeaderView, end: int) -> SpecRead<BlockInfoView> {
    match spec_lz4_block(raw, h.decompressed_blocks_size as nat) {
        Err(e) => Err(e),
        Ok(t) => match spec_block_table(t) {
            Ok((info, _)) => Ok((info, end)),
            Err(e) => Err(e),
        },
    }
}

/// With header flag 0x80 the block table is the last
/// `compressed_blocks_size` bytes of a file of `file_size` bytes, wherever
/// the header ends; reading ends at the end of the file.
pub proof fn table_at_the_end_is_the_last_bytes(d: Seq<u8>, p: int, h: BundleHeaderView)
    requires
        h.flags & 0x80 != 0,
        h.compressed_blocks_size <= h.file_size <= d.len(),
    ensures
        spec_block_info(d, p, h) == table_from(
            d.subrange(h.file_size - h.compressed_blocks_size, h.file_size as int), h, h.file_size as int),
{
    assert(h.file_size as u64 == h.file_size);
}

/// Without header flag 0x80 the block table follows the header, from the
/// next multiple of 16 on, and takes `compressed_blocks_size` bytes.
pub proof fn table_after_the_header_is_aligned(d: Seq<u8>, p: int, h: BundleHeaderView)
    requires
        h.flags & 0x80 == 0,
        0 <= p,
        (p + 15) / 16 * 16 + h.compressed_blocks_size <= d.len(),
    ensures
        spec_block_info(d, p, h) == table_from(
            d.subrange((p + 15) / 16 * 16, (p + 15) / 16 * 16 + h.compressed_blocks_size), h,
            (p + 15) / 16 * 16 + h.compressed_blocks_size),
{
    assert((p + 15) / 16 * 16 >= p) by (nonlinear_arith)
        requires
            p >= 0,
    ;
}

/// Decompressed contents of one storage block read as `raw`.
pub open spec fn spec_block_data(raw: Seq<u8>, b: StorageBlock) -> Result<Seq<u8>, UnpackError> {
    let kind = b.flags & 0x3F;
    if kind == 0 {
        Ok(raw)
    } else if kind == 2 || kind == 3 {
        spec_lz4_block(raw, b.decompressed_size as nat)
    } else if kind == 4 {
        spec_lz4inv(raw, b.decompressed_size as int)
    } else {
        Err(UnpackError::UnsupportedCompression(kind))
    }
}

/// The storage blocks read one after another from `p`, decompressed and
/// joined; the position after is the end of the last block.
pub open spec fn spec_blocks_data(d: Seq<u8>, p: int, blocks: Seq<StorageBlock>) -> SpecRead<Seq<u8>>
    decreases blocks.len(),
{
    if blocks.len() == 0 {
        Ok((Seq::empty(), p))
    } else {
        let prev = spec_blocks_data(d, p, blocks.drop_last());
        let b = blocks.last();
        let raw = spec_take(d, pos_of(prev), b.compressed_size as int);
        let data = spec_block_data(val_of(raw), b);
        if prev is Err {
            prev
        } else if raw is Err {
            Err(err_of(raw))
        } else if data is Err {
            Err(data->Err_0)
        } else {
            Ok((val_of(prev) + data->Ok_0, pos_of(raw)))
        }
    }
}

/// All storage blocks, starting at `p` (aligned to 16 bytes where header
/// flag 0x200 is set).
pub open spec fn spec_decompress(d: Seq<u8>, p: int, h: BundleHeaderView, blocks: Seq<StorageBlock>) -> SpecRead<Seq<u8>> {
    let start = if h.flags & 0x200 != 0 && align16(p) > p { align16(p) } else { p };
    spec_blocks_data(d, start, blocks)
}



/// What decompressing `blocks` from `p` appends to the output: all of their
/// data where every block succeeds, else the data of the blocks before the
/// first that fails.
pub open spec fn spec_blocks_written(d: Seq<u8>, p: int, blocks: Seq<StorageBlock>) -> Seq<u8>
    decreases blocks.len(),
{
    if blocks.len() == 0 {
        Seq::empty()
    } else {
        let prev = spec_blocks_data(d, p, blocks.drop_last());
        if prev is Err {
            spec_blocks_written(d, p, blocks.drop_last())
        } else {
            match spec_blocks_data(d, p, blocks) {
                Ok((data, _)) => data,
                Err(_) => val_of(prev),
            }
        }
    }
}

/// What [`spec_decompress`] appends, successful or not.
pub open spec fn spec_decompress_written(d: Seq<u8>, p: int, h: BundleHeaderView, blocks: Seq<StorageBlock>) -> Seq<u8> {
    let start = if h.flags & 0x200 != 0 && align16(p) > p { align16(p) } else { p };
    spec_blocks_written(d, start, blocks)
}

/// The total stored size of `blocks`.
pub open spec fn stored_size(blocks: Seq<StorageBlock>) -> int
    decreases blocks.len(),
{
    if blocks.len() == 0 {
        0
    } else {
        stored_size(blocks.drop_last()) + blocks.last().compressed_size
    }
}

proof fn lemma_stored_size_nonneg(blocks: Seq<StorageBlock>)
    ensures
        stored_size(blocks) >= 0,
    decreases blocks.len(),
{
    if blocks.len() > 0 {
        lemma_stored_size_nonneg(blocks.drop_last());
    }
}

/// Blocks stored without compression are copied as they are: where the
/// data holds all of them from `p` on, their contents are exactly those
/// bytes, and reading ends after them.
pub proof fn stored_blocks_are_copied(d: Seq<u8>, p: int, blocks: Seq<StorageBlock>)
    requires
        forall|i: int| 0 <= i < blocks.len() ==> #[trigger] blocks[i].flags & 0x3F == 0,
        0 <= p,
        p + stored_size(blocks) <= d.len(),
    ensures
        spec_blocks_data(d, p, blocks)
            == Ok::<(Seq<u8>, int), UnpackError>((d.subrange(p, p + stored_size(blocks)), p + stored_size(blocks))),
    decreases blocks.len(),
{
    if blocks.len() == 0 {
        assert(d.subrange(p, p) =~= Seq::<u8>::empty());
    } else {
        let rest = blocks.drop_last();
        assert forall|i: int| 0 <= i < rest.len() implies #[trigger] rest[i].flags & 0x3F == 0 by {
            assert(rest[i] == blocks[i]);
        }
        assert(blocks.last().flags & 0x3F == 0) by {
            assert(blocks[blocks.len() - 1].flags & 0x3F == 0);
        }
        stored_blocks_are_copied(d, p, rest);
        lemma_stored_size_nonneg(rest);
        let q = p + stored_size(rest);
        let n = blocks.last().compressed_size as int;
        assert(d.subrange(p, q) + d.subrange(q, q + n) =~= d.subrange(p, q + n));
    }
}

proof fn lemma_blocks_data_err(d: Seq<u8>, p: int, blocks: Seq<StorageBlock>, i: int)
    requires
        0 <= i <= blocks.len(),
        spec_blocks_data(d, p, blocks.subrange(0, i)) is Err,
    ensures
        spec_blocks_data(d, p, blocks) == spec_blocks_data(d, p, blocks.subrange(0, i)),
        spec_blocks_written(d, p, blocks) == spec_blocks_written(d, p, blocks.subrange(0, i)),
    decreases blocks.len() - i,
{
    if i < blocks.len() {
        assert(blocks.subrange(0, blocks.len() - 1).subrange(0, i) =~= blocks.subrange(0, i));
        lemma_blocks_data_err(d, p, blocks.subrange(0, blocks.len() - 1), i);
        assert(blocks.drop_last() =~= blocks.subrange(0, blocks.len() - 1));
    } else {
        assert(blocks.subrange(0, i) =~= blocks);
    }
}

proof fn lemma_written_at_failure(d: Seq<u8>, p: int, blocks: Seq<StorageBlock>, k: int)
    requires
        0 <= k < blocks.len(),
        spec_blocks_data(d, p, blocks.subrange(0, k)) is Ok,
        spec_blocks_data(d, p, blocks.subrange(0, k + 1)) is Err,
    ensures
        spec_blocks_data(d, p, blocks) == spec_blocks_data(d, p, blocks.subrange(0, k + 1)),
        spec_blocks_written(d, p, blocks) == val_of(spec_blocks_data(d, p, blocks.subrange(0, k))),
{
    lemma_blocks_data_err(d, p, blocks, k + 1);
    assert(blocks.subrange(0, k + 1).drop_last() =~= blocks.subrange(0, k));
}

fn read_storage_block(reader: &mut Reader) -> (r: Result<StorageBlock, UnpackError>)
    ensures
        read_follows(r, *old(reader), *final(reader), spec_storage_block(old(reader).bytes(), old(reader).position())),
{
    let decompressed_size = u32_be(reader)?;
    let compressed_size = u32_be(reader)?;
    let flags = u16_be(reader)?;
    Ok(StorageBlock { decompressed_size, compressed_size, flags })
}

fn read_directory_node(reader: &mut Reader) -> (r: Result<DirectoryNode, UnpackError>)
    ensures
        read_follows(r, *old(reader), *final(reader), spec_directory_node(old(reader).bytes(), old(reader).position())),
{
    let offset = u64_be(reader)?;
    let size = u64_be(reader)?;
    let flags = u32_be(reader)?;
    let name = cstring(reader)?;
    Ok(DirectoryNode { offset, size, flags, name })
}

impl BlockInfo {
    /// Reads the block table from its place in the bundle, decompresses it
    /// with LZ4 and decodes it.
    pub fn parse(reader: &mut Reader, header: &BundleHeader) -> (r: Result<BlockInfo, UnpackError>)
        requires
            header.flags & 0x80 == 0 ==> old(reader).position() <= u64::MAX - 15,
        ensures
            read_follows(r, *old(reader), *final(reader), spec_block_info(old(reader).bytes(), old(reader).position(), header@)),
    {
        if header.flags & 0x80 != 0 {
            let size = header.file_size as u64;
            let csize = header.compressed_blocks_size as u64;
            let pos = if size >= csize { size - csize } else { size + (u64::MAX - csize) + 1 };
            reader.seek_start(pos);
        } else {
            let pos = reader.stream_position();
            let aligned = (pos + 15) / 16 * 16;
            if aligned > pos {
                reader.seek_start(aligned);
            }
        }

        let compressed = reader.read_exact(header.compressed_blocks_size as u64)?;
        let decompressed = decompress_lz4_block(compressed.as_slice(), header.decompressed_blocks_size as usize)?;
        let info = Self::parse_table(decompressed)?;
        Ok(info)
    }

    /// Decodes an already decompressed block table.
    pub fn parse_table(decompressed: Vec<u8>) -> (r: Result<BlockInfo, UnpackError>)
        requires
            decompressed@.len() <= isize::MAX,
        ensures
            match spec_block_table(decompressed@) {
                Ok((info, _)) => r is Ok && r->Ok_0@ == info,
                Err(e) => r == Err::<BlockInfo, UnpackError>(e),
            },
    {
        let ghost d = decompressed@;
        let mut cur = Reader::new(decompressed);
        cur.seek_start(16);

        let block_count = u32_be(&mut cur)?;
        let ghost p0 = cur.position();
        let mut blocks: Vec<StorageBlock> = Vec::new();
        let mut i: u32 = 0;
        while i < block_count
            invariant
                cur.bytes() == d,
                d == decompressed@,
                spec_u32(d, 16, true) == Ok::<(u32, int), UnpackError>((block_count, p0)),
                i <= block_count,
                spec_repeat(d, p0, i as nat, storage_block_reader()) == Ok::<(Seq<StorageBlock>, int), UnpackError>((blocks@, cur.position())),
            decreases block_count - i,
        {
            let ghost before = cur;
            let res = read_storage_block(&mut cur);
            proof {
                assert(storage_block_reader()(d, before.position()) == spec_storage_block(d, before.position()));
            }
            let block = match res {
                Ok(v) => v,
                Err(e) => {
                    proof { lemma_repeat_err(d, p0, (i + 1) as nat, block_count as nat, storage_block_reader()); }
                    return Err(e);
                },
            };
            blocks.push(block);
            i = i + 1;
        }

        let ghost blocks_end = cur.position();
        let node_count = u32_be(&mut cur)?;
        let ghost q0 = cur.position();
        let mut nodes: Vec<DirectoryNode> = Vec::new();
        let mut j: u32 = 0;
        proof {
            assert(nodes@.map_values(|n: DirectoryNode| n@) =~= Seq::<DirectoryNodeView>::empty());
        }
        while j < node_count
            invariant
                cur.bytes() == d,
                d == decompressed@,
                spec_u32(d, 16, true) == Ok::<(u32, int), UnpackError>((block_count, p0)),
                spec_repeat(d, p0, block_count as nat, storage_block_reader())
                    == Ok::<(Seq<StorageBlock>, int), UnpackError>((blocks@, blocks_end)),
                spec_u32(d, blocks_end, true) == Ok::<(u32, int), UnpackError>((node_count, q0)),
                j <= node_count,
                spec_repeat(d, q0, j as nat, directory_node_reader())
                    == Ok::<(Seq<DirectoryNodeView>, int), UnpackError>((nodes@.map_values(|n: DirectoryNode| n@), cur.position())),
            decreases node_count - j,
        {
            let ghost before = cur;
            let res = read_directory_node(&mut cur);
            proof {
                assert(directory_node_reader()(d, before.position()) == spec_directory_node(d, before.position()));
            }
            let node = match res {
                Ok(v) => v,
                Err(e) => {
                    proof { lemma_repeat_err(d, q0, (j + 1) as nat, node_count as nat, directory_node_reader()); }
                    return Err(e);
                },
            };
            let ghost old_nodes = nodes@;
            nodes.push(node);
            proof {
                assert(nodes@.map_values(|n: DirectoryNode| n@) =~= old_nodes.map_values(|n: DirectoryNode| n@).push(nodes@.last()@));
            }
            j = j + 1;
        }

        Ok(BlockInfo { blocks, nodes })
    }

    /// Reads every storage block from `reader`, decompresses it and appends
    /// it to `output`; returns how many bytes were appended. Where a block
    /// fails, the blocks before it stay appended.
    pub fn decompress(&self, reader: &mut Reader, output: &mut Vec<u8>, header: &BundleHeader) -> (r: Result<usize, UnpackError>)
        requires
            header.flags & 0x200 != 0 ==> old(reader).position() <= u64::MAX - 15,
        ensures
            final(reader).bytes() == old(reader).bytes(),
            match spec_decompress(old(reader).bytes(), old(reader).position(), header@, self.blocks@) {
                Ok((data, p)) => r == Ok::<usize, UnpackError>(data.len() as usize)
                    && final(output)@ == old(output)@ + data && final(reader).position() == p,
                Err(e) => r == Err::<usize, UnpackError>(e)
                    && final(output)@ == old(output)@ + spec_decompress_written(old(reader).bytes(),
                        old(reader).position(), header@, self.blocks@),
            },
    {
        if header.flags & 0x200 != 0 {
            let pos = reader.stream_position();
            let aligned = (pos + 15) / 16 * 16;
            if aligned > pos {
                reader.seek_start(aligned);
            }
        }
        let ghost d = reader.bytes();
        let ghost start = reader.position();
        let ghost out0 = output@;
        let start_len = output.len();
        let mut total_decompressed: usize = 0;
        proof {
            assert(self.blocks@.subrange(0, 0) =~= Seq::<StorageBlock>::empty());
            assert(output@.subrange(out0.len() as int, output@.len() as int) =~= Seq::<u8>::empty());
        }

        let mut k: usize = 0;
        while k < self.blocks.len()
            invariant
                reader.bytes() == d,
                d == old(reader).bytes(),
                start == (if header.flags & 0x200 != 0 && align16(old(reader).position()) > old(reader).position() {
                    align16(old(reader).position())
                } else {
                    old(reader).position()
                }),
                out0 == old(output)@,
                start_len == out0.len(),
                k <= self.blocks@.len(),
                spec_blocks_data(d, start, self.blocks@.subrange(0, k as int))
                    == Ok::<(Seq<u8>, int), UnpackError>((output@.subrange(out0.len() as int, output@.len() as int), reader.position())),
                out0.is_prefix_of(output@),
                total_decompressed == output@.len() - out0.len(),
            decreases self.blocks@.len() - k,
        {
            let storage_block = self.blocks[k];
            proof {
                assert(self.blocks@.subrange(0, k + 1).drop_last() =~= self.blocks@.subrange(0, k as int));
            }
            let buf = match reader.read_exact(storage_block.compressed_size as u64) {
                Ok(b) => b,
                Err(e) => {
                    proof { lemma_written_at_failure(d, start, self.blocks@, k as int); }
                    return Err(e);
                },
            };
            let kind = storage_block.flags & 0x3F;
            let dec = if kind == 0 {
                buf
            } else if kind == 2 || kind == 3 {
                match decompress_lz4_block(buf.as_slice(), storage_block.decompressed_size as usize) {
                    Ok(v) => v,
                    Err(e) => {
                        proof { lemma_written_at_failure(d, start, self.blocks@, k as int); }
                        return Err(e);
                    },
                }
            } else if kind == 4 {
                match lz4inv::decompress(buf.as_slice(), storage_block.decompressed_size as usize) {
                    Ok(v) => v,
                    Err(e) => {
                        proof { lemma_written_at_failure(d, start, self.blocks@, k as int); }
                        return Err(e);
                    },
                }
            } else {
                proof { lemma_written_at_failure(d, start, self.blocks@, k as int); }
                return Err(UnpackError::UnsupportedCompression(kind));
            };
            let ghost before = output@;
            let n = dec.len();
            let mut t: usize = 0;
            while t < n
                invariant
                    t <= n == dec@.len(),
                    output@ == before + dec@.subrange(0, t as int),
                decreases n - t,
            {
                proof {
                    assert(dec@.subrange(0, t + 1) =~= dec@.subrange(0, t as int).push(dec@[t as int]));
                }
                output.push(dec[t]);
                t = t + 1;
            }
            proof {
                assert(dec@.subrange(0, n as int) =~= dec@);
                assert(output@.subrange(out0.len() as int, output@.len() as int)
                    =~= before.subrange(out0.len() as int, before.len() as int) + dec@);
            }
            total_decompressed = output.len() - start_len;
            k = k + 1;
        }
        proof {
            assert(self.blocks@.subrange(0, self.blocks@.len() as int) =~= self.blocks@);
        }
        Ok(total_decompressed)
    }
}

} // verus!
