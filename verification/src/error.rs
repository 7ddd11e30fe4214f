use vstd::prelude::*;

verus! {

/// Every way in which decoding a bundle or one of its parts can fail.
#[derive(Debug, Clone, Copy, PartialEq, Eq, Structural)]
pub enum UnpackError {
    /// A read went past the end of the data.
    UnexpectedEof,
    /// A seek would move before the start of the data or past `u64::MAX`.
    InvalidSeek,
    /// Bytes that should hold UTF-8 text do not.
    InvalidUtf8,
    /// The data does not start with the `UnityFS` signature.
    NotUnityFs,
    /// An LZ4 block that `lz4_flex` could not decode.
    Lz4Block,
    /// An LZ4 block with a length extension so long that the length
    /// counters of `lz4_flex` would overflow.
    Lz4LengthOverflow,
    /// An LZ4 block whose decompressed size is more than this machine can
    /// allocate at once (`isize::MAX`).
    OutputTooLarge,
    /// A storage block with a compression type that is not supported.
    UnsupportedCompression(u16),
    /// The engine version of a serialized file is not `major.minor...`.
    BadUnityVersion,
    /// A type tree names a string past the end of its string buffer.
    StringOffsetOutOfBounds,
    /// An object entry would be aligned from a base after the current position.
    PositionBeforeBase,
    /// An object refers to a type that the file does not declare.
    TypeIdOutOfBounds { type_id: i32, total: usize },
    /// A type tree node lacks the children its type needs.
    MalformedTypeTree,
    /// The size of an array in a type tree is not an integer.
    ArraySizeNotInteger,
    /// The size of an array in a type tree is negative.
    NegativeArraySize,
    /// A type tree node whose fields do not cover its declared size.
    UnsupportedType,
    /// An object whose end lies before the data read from it, or past `u64::MAX`.
    ObjectOutOfRange,
    /// A streamed asset names a resource file that the bundle does not have.
    MissingResourceNode,
    /// A zip archive that cannot be opened.
    ZipArchive,
    /// An entry of a zip archive that cannot be read.
    ZipEntry,
    /// An index archive whose path has no file name to extract it under.
    NoFileName,
    /// LZ4Inv: no token where one more was needed.
    Lz4InvInputTruncated,
    /// LZ4Inv: the input ends inside an extended literal length.
    Lz4InvLitLenTruncated,
    /// LZ4Inv: a literal run reaches past the end of the input.
    Lz4InvLiteralOutOfBounds,
    /// LZ4Inv: the input ends inside a match offset.
    Lz4InvOffsetTruncated,
    /// LZ4Inv: a match offset of zero.
    Lz4InvZeroOffset,
    /// LZ4Inv: the input ends inside an extended match length.
    Lz4InvMatchLenTruncated,
    /// LZ4Inv: a match offset reaches before the start of the output.
    Lz4InvOffsetOutOfRange,
}

} // verus!
