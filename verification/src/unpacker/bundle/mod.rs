//! Unity asset bundles: the header, the block table, the serialized files
//! inside and the assets they hold.

pub mod read;
pub mod header;
pub mod block;
pub mod serialized;
pub mod common_table;
pub mod asset;
pub mod typetree;
pub mod extraction;

use vstd::prelude::*;

use crate::error::UnpackError;
use vstd::string::StrSliceExecFns;
use read::{Reader, SpecRead, read_follows, spec_cstring, spec_u32, spec_i64, pos_of, val_of, err_of};
use header::{BundleHeader, BundleHeaderView, spec_header};
use block::{BlockInfo, BlockInfoView, DirectoryNodeView, spec_block_info, spec_decompress, spec_decompress_written};
use serialized::{SerializedFile, SerializedFileView, spec_serialized_file};

verus! {

/// Reads the header of a `UnityFS` bundle.
pub fn parse_header(reader: &mut Reader) -> (r: Result<BundleHeader, UnpackError>)
    ensures
        read_follows(r, *old(reader), *final(reader), spec_header(old(reader).bytes(), old(reader).position())),
{
    BundleHeader::parse(reader)
}

fn read_cstring(reader: &mut Reader) -> (r: Result<String, UnpackError>)
    ensures
        read_follows(r, *old(reader), *final(reader), spec_cstring(old(reader).bytes(), old(reader).position())),
{
    read::cstring(reader)
}

fn read_u32(reader: &mut Reader) -> (r: Result<u32, UnpackError>)
    ensures
        read_follows(r, *old(reader), *final(reader), spec_u32(old(reader).bytes(), old(reader).position(), true)),
{
    read::u32_be(reader)
}

fn read_i64(reader: &mut Reader) -> (r: Result<i64, UnpackError>)
    ensures
        read_follows(r, *old(reader), *final(reader), spec_i64(old(reader).bytes(), old(reader).position(), true)),
{
    read::i64_be(reader)
}

/// A bundle: its header and its block table.
#[derive(Debug)]
pub struct UnityBundle {
    pub header: BundleHeader,
    pub info: BlockInfo,
}

pub struct UnityBundleView {
    pub header: BundleHeaderView,
    pub info: BlockInfoView,
}

impl View for UnityBundle {
    type V = UnityBundleView;

    open spec fn view(&self) -> UnityBundleView {
        UnityBundleView { header: self.header@, info: self.info@ }
    }
}

/// A bundle at `p`: the header, then the block table it points to.
pub open spec fn spec_bundle(d: Seq<u8>, p: int) -> SpecRead<UnityBundleView> {
    let header = spec_header(d, p);
    let info = spec_block_info(d, pos_of(header), val_of(header));
    if header is Err {
        Err(err_of(header))
    } else if info is Err {
        Err(err_of(info))
    } else {
        Ok((UnityBundleView { header: val_of(header), info: val_of(info) }, pos_of(info)))
    }
}

/// The serialized files among the directory entries, in their order: the
/// entries whose name has no `.` (the others are resource files).
pub open spec fn spec_serialized_files(d: Seq<u8>, p: int, nodes: Seq<DirectoryNodeView>) -> SpecRead<Seq<SerializedFileView>>
    decreases nodes.len(),
{
    if nodes.len() == 0 {
        Ok((Seq::empty(), p))
    } else {
        let prev = spec_serialized_files(d, p, nodes.drop_last());
        let node = nodes.last();
        let file = spec_serialized_file(d, node.name, node.offset);
        if prev is Err {
            prev
        } else if node.name.contains('.') {
            prev
        } else if file is Err {
            Err(err_of(file))
        } else {
            Ok((val_of(prev).push(val_of(file)), pos_of(file)))
        }
    }
}


/// The number of directory entries that are serialized files: those whose
/// name has no `.`.
pub open spec fn count_serialized(nodes: Seq<DirectoryNodeView>) -> nat
    decreases nodes.len(),
{
    if nodes.len() == 0 {
        0
    } else if nodes.last().name.contains('.') {
        count_serialized(nodes.drop_last())
    } else {
        count_serialized(nodes.drop_last()) + 1
    }
}

/// Reading the serialized files of a bundle gives one file for each
/// directory entry without a `.` in its name, and none for the others.
pub proof fn one_file_per_serialized_entry(d: Seq<u8>, p: int, nodes: Seq<DirectoryNodeView>)
    ensures
        spec_serialized_files(d, p, nodes) matches Ok((files, _)) ==> files.len() == count_serialized(nodes),
    decreases nodes.len(),
{
    if nodes.len() > 0 {
        one_file_per_serialized_entry(d, p, nodes.drop_last());
    }
}

proof fn lemma_serialized_files_err(d: Seq<u8>, p: int, nodes: Seq<DirectoryNodeView>, i: int)
    requires
        0 <= i <= nodes.len(),
        spec_serialized_files(d, p, nodes.subrange(0, i)) is Err,
    ensures
        spec_serialized_files(d, p, nodes) == spec_serialized_files(d, p, nodes.subrange(0, i)),
    decreases nodes.len() - i,
{
    if i < nodes.len() {
        assert(nodes.subrange(0, nodes.len() - 1).subrange(0, i) =~= nodes.subrange(0, i));
        lemma_serialized_files_err(d, p, nodes.subrange(0, nodes.len() - 1), i);
        assert(nodes.drop_last() =~= nodes.subrange(0, nodes.len() - 1));
    } else {
        assert(nodes.subrange(0, i) =~= nodes);
    }
}

/// Whether `s` holds the character `.`.
pub fn contains_dot(s: &str) -> (b: bool)
    ensures
        b == s@.contains('.'),
{
    let n = s.unicode_len();
    let mut i: usize = 0;
    while i < n
        invariant
            n == s@.len(),
            i <= n,
            forall|j: int| 0 <= j < i ==> s@[j] != '.',
        decreases n - i,
    {
        if s.get_char(i) == '.' {
            return true;
        }
        i = i + 1;
    }
    false
}

impl UnityBundle {
    /// Reads the header and the block table.
    pub fn parse(reader: &mut Reader) -> (r: Result<Self, UnpackError>)
        ensures
            read_follows(r, *old(reader), *final(reader), spec_bundle(old(reader).bytes(), old(reader).position())),
    {
        let header = BundleHeader::parse(reader)?;
        let info = BlockInfo::parse(reader, &header)?;
        Ok(Self { header, info })
    }

    /// Decompresses all storage blocks into `output`; see [`BlockInfo::decompress`].
    pub fn decompress(&self, reader: &mut Reader, output: &mut Vec<u8>) -> (r: Result<usize, UnpackError>)
        requires
            self.header.flags & 0x200 != 0 ==> old(reader).position() <= u64::MAX - 15,
        ensures
            final(reader).bytes() == old(reader).bytes(),
            match spec_decompress(old(reader).bytes(), old(reader).position(), self.header@, self.info.blocks@) {
                Ok((data, p)) => r == Ok::<usize, UnpackError>(data.len() as usize)
                    && final(output)@ == old(output)@ + data && final(reader).position() == p,
                Err(e) => r == Err::<usize, UnpackError>(e)
                    && final(output)@ == old(output)@ + spec_decompress_written(old(reader).bytes(),
                        old(reader).position(), self.header@, self.info.blocks@),
            },
    {
        self.info.decompress(reader, output, &self.header)
    }

    /// Reads every serialized file of the bundle from the decompressed data.
    pub fn get_serialized(&self, reader: &mut Reader) -> (r: Result<Vec<SerializedFile>, UnpackError>)
        ensures
            final(reader).bytes() == old(reader).bytes(),
            match spec_serialized_files(old(reader).bytes(), old(reader).position(), self.info@.nodes) {
                Ok((files, q)) => r is Ok && r->Ok_0@.map_values(|f: SerializedFile| f@) == files
                    && final(reader).position() == q,
                Err(e) => r == Err::<Vec<SerializedFile>, UnpackError>(e),
            },
    {
        let ghost d = reader.bytes();
        let ghost p0 = reader.position();
        let ghost nodes = self.info@.nodes;
        let mut out: Vec<SerializedFile> = Vec::new();
        proof {
            assert(nodes.subrange(0, 0) =~= Seq::<DirectoryNodeView>::empty());
            assert(out@.map_values(|f: SerializedFile| f@) =~= Seq::<SerializedFileView>::empty());
        }
        let mut k: usize = 0;
        while k < self.info.nodes.len()
            invariant
                d == old(reader).bytes(),
                p0 == old(reader).position(),
                nodes == self.info@.nodes,
                nodes.len() == self.info.nodes@.len(),
                reader.bytes() == d,
                k <= nodes.len(),
                spec_serialized_files(d, p0, nodes.subrange(0, k as int))
                    == Ok::<(Seq<SerializedFileView>, int), UnpackError>((out@.map_values(|f: SerializedFile| f@), reader.position())),
            decreases nodes.len() - k,
        {
            let node = &self.info.nodes[k];
            proof {
                assert(nodes.subrange(0, k + 1).drop_last() =~= nodes.subrange(0, k as int));
                assert(nodes[k as int] == node@);
            }
            if !contains_dot(node.name.as_str()) {
                let file = match SerializedFile::parse(node.name.as_str(), reader, node.offset, node.size) {
                    Ok(f) => f,
                    Err(e) => {
                        proof { lemma_serialized_files_err(d, p0, nodes, k + 1); }
                        return Err(e);
                    },
                };
                let ghost old_out = out@;
                out.push(file);
                proof {
                    assert(out@.map_values(|f: SerializedFile| f@) =~= old_out.map_values(|f: SerializedFile| f@).push(out@.last()@));
                }
            }
            k = k + 1;
        }
        proof {
            assert(nodes.subrange(0, nodes.len() as int) =~= nodes);
        }
        Ok(out)
    }
}

} // verus!
