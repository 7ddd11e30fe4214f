//! The fixed header at the start of a `UnityFS` bundle.

use vstd::prelude::*;

use crate::error::UnpackError;
use super::read::{
    Reader, SpecRead, read_follows, spec_cstring, spec_u32, spec_i64, pos_of, val_of, err_of, rest_agrees,
    shifted_reads, lemma_cstring_shift, lemma_u32_shift, lemma_i64_shift, be_nat, signed_of, lemma_be_nat_bound,
    lemma_signed_of_range, lemma_pow256_values,
};

verus! {

/// The header of a `UnityFS` bundle; all numbers are big-endian.
#[derive(Debug)]
pub struct BundleHeader {
    pub format_version: u32,
    pub unity_version_min: String,
    pub unity_version_built: String,
    pub file_size: i64,
    pub compressed_blocks_size: u32,
    pub decompressed_blocks_size: u32,
    pub flags: u32,
}

/// A header as values.
pub struct BundleHeaderView {
    pub format_version: u32,
    pub unity_version_min: Seq<char>,
    pub unity_version_built: Seq<char>,
    pub file_size: i64,
    pub compressed_blocks_size: u32,
    pub decompressed_blocks_size: u32,
    pub flags: u32,
}

impl View for BundleHeader {
    type V = BundleHeaderView;

    open spec fn view(&self) -> BundleHeaderView {
        BundleHeaderView {
            format_version: self.format_version,
            unity_version_min: self.unity_version_min@,
            unity_version_built: self.unity_version_built@,
            file_size: self.file_size,
            compressed_blocks_size: self.compressed_blocks_size,
            decompressed_blocks_size: self.decompressed_blocks_size,
            flags: self.flags,
        }
    }
}

/// The header at `p`: the signature `UnityFS` as a zero-terminated string,
/// then the format version, the two engine versions, the file size and the
/// sizes and flags of the block table.
pub open spec fn spec_header(d: Seq<u8>, p: int) -> SpecRead<BundleHeaderView> {
    let sig = spec_cstring(d, p);
    let format_version = spec_u32(d, pos_of(sig), true);
    let unity_version_min = spec_cstring(d, pos_of(format_version));
    let unity_version_built = spec_cstring(d, pos_of(unity_version_min));
    let file_size = spec_i64(d, pos_of(unity_version_built), true);
    let compressed = spec_u32(d, pos_of(file_size), true);
    let decompressed = spec_u32(d, pos_of(compressed), true);
    let flags = spec_u32(d, pos_of(decompressed), true);
    if sig is Err {
        Err(err_of(sig))
    } else if val_of(sig) != "UnityFS"@ {
        Err(UnpackError::NotUnityFs)
    } else if format_version is Err {
        Err(err_of(format_version))
    } else if unity_version_min is Err {
        Err(err_of(unity_version_min))
    } else if unity_version_built is Err {
        Err(err_of(unity_version_built))
    } else if file_size is Err {
        Err(err_of(file_size))
    } else if compressed is Err {
        Err(err_of(compressed))
    } else if decompressed is Err {
        Err(err_of(decompressed))
    } else if flags is Err {
        Err(err_of(flags))
    } else {
        Ok((BundleHeaderView {
            format_version: val_of(format_version),
            unity_version_min: val_of(unity_version_min),
            unity_version_built: val_of(unity_version_built),
            file_size: val_of(file_size),
            compressed_blocks_size: val_of(compressed),
            decompressed_blocks_size: val_of(decompressed),
            flags: val_of(flags),
        }, pos_of(flags)))
    }
}

/// A header is read from the bytes where it starts on, and from nothing
/// else: two readers whose remaining bytes agree read the same header and
/// the same number of bytes, or fail with the same error.
#[verifier::rlimit(50)]
pub proof fn header_depends_only_on_what_follows(d1: Seq<u8>, p1: int, d2: Seq<u8>, p2: int)
    requires
        rest_agrees(d1, p1, d2, p2),
    ensures
        shifted_reads(spec_header(d1, p1), spec_header(d2, p2), p1 - p2),
{
    let sig = spec_cstring(d1, p1);
    lemma_cstring_shift(d1, p1, d2, p2, 0);
    if sig is Ok {
        let x1 = pos_of(sig) - p1;
        lemma_u32_shift(d1, p1, d2, p2, x1, true);
        let fv = spec_u32(d1, p1 + x1, true);
        if fv is Ok {
            let x2 = pos_of(fv) - p1;
            lemma_cstring_shift(d1, p1, d2, p2, x2);
            let vmin = spec_cstring(d1, p1 + x2);
            if vmin is Ok {
                let x3 = pos_of(vmin) - p1;
                lemma_cstring_shift(d1, p1, d2, p2, x3);
                let vbuilt = spec_cstring(d1, p1 + x3);
                if vbuilt is Ok {
                    let x4 = pos_of(vbuilt) - p1;
                    lemma_i64_shift(d1, p1, d2, p2, x4, true);
                    let fsize = spec_i64(d1, p1 + x4, true);
                    if fsize is Ok {
                        let x5 = pos_of(fsize) - p1;
                        lemma_u32_shift(d1, p1, d2, p2, x5, true);
                        let comp = spec_u32(d1, p1 + x5, true);
                        if comp is Ok {
                            let x6 = pos_of(comp) - p1;
                            lemma_u32_shift(d1, p1, d2, p2, x6, true);
                            let decomp = spec_u32(d1, p1 + x6, true);
                            if decomp is Ok {
                                let x7 = pos_of(decomp) - p1;
                                lemma_u32_shift(d1, p1, d2, p2, x7, true);
                            }
                        }
                    }
                }
            }
        }
    }
}

/// A header ends with its sizes and flags, big-endian, in this order: the
/// eight-byte file size, the compressed and the decompressed size of the
/// block table, and the flags, four bytes each.
pub proof fn header_ends_with_sizes_and_flags(d: Seq<u8>, p: int)
    ensures
        spec_header(d, p) matches Ok((h, q)) ==> {
            &&& h.flags == be_nat(d.subrange(q - 4, q))
            &&& h.decompressed_blocks_size == be_nat(d.subrange(q - 8, q - 4))
            &&& h.compressed_blocks_size == be_nat(d.subrange(q - 12, q - 8))
            &&& h.file_size == signed_of(be_nat(d.subrange(q - 20, q - 12)), 8)
        },
{
    if spec_header(d, p) is Ok {
        lemma_pow256_values();
        let q = pos_of(spec_header(d, p));
        lemma_be_nat_bound(d.subrange(q - 4, q));
        lemma_be_nat_bound(d.subrange(q - 8, q - 4));
        lemma_be_nat_bound(d.subrange(q - 12, q - 8));
        lemma_be_nat_bound(d.subrange(q - 20, q - 12));
        lemma_signed_of_range(be_nat(d.subrange(q - 20, q - 12)), 8);
    }
}

impl BundleHeader {
    /// Reads the header; fails with `NotUnityFs` where the signature differs.
    pub fn parse(reader: &mut Reader) -> (r: Result<Self, UnpackError>)
        ensures
            read_follows(r, *old(reader), *final(reader), spec_header(old(reader).bytes(), old(reader).position())),
    {
        let signature = super::read_cstring(reader)?;
        if !super::read::string_is(&signature, "UnityFS") {
            return Err(UnpackError::NotUnityFs);
        }
        let format_version = super::read_u32(reader)?;
        let unity_version_min = super::read_cstring(reader)?;
        let unity_version_built = super::read_cstring(reader)?;
        let file_size = super::read_i64(reader)?;
        let compressed_blocks_size = super::read_u32(reader)?;
        let decompressed_blocks_size = super::read_u32(reader)?;
        let flags = super::read_u32(reader)?;
        Ok(Self {
            format_version,
            unity_version_min,
            unity_version_built,
            file_size,
            compressed_blocks_size,
            decompressed_blocks_size,
            flags,
        })
    }
}

} // verus!
