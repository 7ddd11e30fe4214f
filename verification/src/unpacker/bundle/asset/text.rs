//! Text assets.

use vstd::prelude::*;

use crate::error::UnpackError;
use crate::unpacker::bundle::read::{Reader, SpecRead, read_follows, spec_aligned_string, spec_aligned_bytes, pos_of, val_of, err_of, aligned_string, aligned_bytes};

verus! {

/// A text asset: a name and its raw contents.
#[derive(Debug)]
pub struct TextAsset {
    pub name: String,
    pub data: Vec<u8>,
}

pub struct TextAssetView {
    pub name: Seq<char>,
    pub data: Seq<u8>,
}

impl View for TextAsset {
    type V = TextAssetView;

    open spec fn view(&self) -> TextAssetView {
        TextAssetView { name: self.name@, data: self.data@ }
    }
}

/// A text asset at `abs`: its name and its contents, both length-prefixed.
pub open spec fn spec_text_asset(d: Seq<u8>, abs: int) -> SpecRead<TextAssetView> {
    let name = spec_aligned_string(d, abs);
    let data = spec_aligned_bytes(d, pos_of(name));
    if name is Err {
        Err(err_of(name))
    } else if data is Err {
        Err(err_of(data))
    } else {
        Ok((TextAssetView { name: val_of(name), data: val_of(data) }, pos_of(data)))
    }
}

impl TextAsset {
    /// Reads the text asset stored at `abs_offset`.
    pub fn parse(reader: &mut Reader, abs_offset: u64) -> (r: Result<Self, UnpackError>)
        ensures
            read_follows(r, *old(reader), *final(reader), spec_text_asset(old(reader).bytes(), abs_offset as int)),
    {
        reader.seek_start(abs_offset);
        let name = aligned_string(reader)?;
        let data = aligned_bytes(reader)?;
        Ok(TextAsset { name, data })
    }
}

} // verus!
