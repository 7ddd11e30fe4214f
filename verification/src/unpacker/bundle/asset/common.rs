//! Small values that several assets share.

use vstd::prelude::*;

use crate::error::UnpackError;
use crate::unpacker::bundle::read::{Reader, SpecRead, read_follows, spec_u32, spec_i32, spec_i64, pos_of, val_of, err_of, u32_le, i32_le, i64_le};

verus! {

/// A rectangle of four `f32` values (x, y, width, height), each kept as
/// its IEEE-754 bit pattern.
#[derive(Debug, Clone, Copy)]
pub struct Rectangle(pub [u32; 4]);

impl View for Rectangle {
    type V = Seq<u32>;

    open spec fn view(&self) -> Seq<u32> {
        self.0@
    }
}

/// Four little-endian 32-bit values.
pub open spec fn spec_rectangle(d: Seq<u8>, p: int) -> SpecRead<Seq<u32>> {
    let a = spec_u32(d, p, false);
    let b = spec_u32(d, pos_of(a), false);
    let c = spec_u32(d, pos_of(b), false);
    let e = spec_u32(d, pos_of(c), false);
    if a is Err {
        Err(err_of(a))
    } else if b is Err {
        Err(err_of(b))
    } else if c is Err {
        Err(err_of(c))
    } else if e is Err {
        Err(err_of(e))
    } else {
        Ok((seq![val_of(a), val_of(b), val_of(c), val_of(e)], pos_of(e)))
    }
}

impl Rectangle {
    pub fn parse(reader: &mut Reader) -> (r: Result<Self, UnpackError>)
        ensures
            read_follows(r, *old(reader), *final(reader), spec_rectangle(old(reader).bytes(), old(reader).position())),
    {
        let a = u32_le(reader)?;
        let b = u32_le(reader)?;
        let c = u32_le(reader)?;
        let e = u32_le(reader)?;
        let rect = [a, b, c, e];
        proof {
            assert(rect@ =~= seq![a, b, c, e]);
        }
        Ok(Self(rect))
    }
}

/// A reference to an object: the file (0 for the same file) and the path id.
#[derive(Debug, Clone, Copy)]
pub struct ObjectPtr {
    pub file_id: i32,
    pub path_id: i64,
}

impl View for ObjectPtr {
    type V = ObjectPtr;

    open spec fn view(&self) -> ObjectPtr {
        *self
    }
}

/// A file id (little-endian `i32`) and a path id (little-endian `i64`).
pub open spec fn spec_object_ptr(d: Seq<u8>, p: int) -> SpecRead<ObjectPtr> {
    let file_id = spec_i32(d, p, false);
    let path_id = spec_i64(d, pos_of(file_id), false);
    if file_id is Err {
        Err(err_of(file_id))
    } else if path_id is Err {
        Err(err_of(path_id))
    } else {
        Ok((ObjectPtr { file_id: val_of(file_id), path_id: val_of(path_id) }, pos_of(path_id)))
    }
}

impl ObjectPtr {
    pub fn parse(reader: &mut Reader) -> (r: Result<Self, UnpackError>)
        ensures
            read_follows(r, *old(reader), *final(reader), spec_object_ptr(old(reader).bytes(), old(reader).position())),
    {
        let file_id = i32_le(reader)?;
        let path_id = i64_le(reader)?;
        Ok(Self { file_id, path_id })
    }
}

} // verus!
