//! Sprites: the part of a sprite that locates it on its texture.

use vstd::prelude::*;

use crate::error::UnpackError;
use crate::unpacker::bundle::read::{
    Reader, SpecRead, read_follows, spec_take, spec_aligned_string, spec_aligned_bytes, spec_align4_seek,
    spec_seek_current, spec_i32, spec_u32, spec_repeat, lemma_repeat_err, pos_of, val_of, err_of, byte, i32_le,
    i64_le, u32_le, align4, aligned_string, aligned_bytes,
};
use crate::unpacker::bundle::serialized::count_of;
use super::common::{Rectangle, ObjectPtr, spec_rectangle, spec_object_ptr};

verus! {

/// A sprite: its name, its texture and alpha texture, and its rectangle on
/// the texture.
#[derive(Debug)]
pub struct Sprite {
    pub name: String,
    pub texture: ObjectPtr,
    pub alpha_texture: ObjectPtr,
    pub texture_rect: Rectangle,
}

pub struct SpriteView {
    pub name: Seq<char>,
    pub texture: ObjectPtr,
    pub alpha_texture: ObjectPtr,
    pub texture_rect: Seq<u32>,
}

impl View for Sprite {
    type V = SpriteView;

    open spec fn view(&self) -> SpriteView {
        SpriteView { name: self.name@, texture: self.texture, alpha_texture: self.alpha_texture, texture_rect: self.texture_rect@ }
    }
}

pub open spec fn spec_unit_aligned_bytes(d: Seq<u8>, p: int) -> SpecRead<()> {
    match spec_aligned_bytes(d, p) {
        Ok((_, q)) => Ok(((), q)),
        Err(e) => Err(e),
    }
}

/// A secondary texture: a reference and a name.
pub open spec fn spec_secondary_texture(d: Seq<u8>, p: int) -> SpecRead<()> {
    let ptr = spec_object_ptr(d, p);
    let name = spec_aligned_bytes(d, pos_of(ptr));
    if ptr is Err {
        Err(err_of(ptr))
    } else if name is Err {
        Err(err_of(name))
    } else {
        Ok(((), pos_of(name)))
    }
}

/// A submesh, skipped by a seek of 48 bytes.
pub open spec fn spec_submesh(d: Seq<u8>, p: int) -> SpecRead<()> {
    match spec_seek_current(p, 48) {
        Ok(q) => Ok(((), q)),
        Err(e) => Err(e),
    }
}

/// A vertex channel description: four bytes.
pub open spec fn spec_channel(d: Seq<u8>, p: int) -> SpecRead<()> {
    match spec_take(d, p, 4) {
        Ok((_, q)) => Ok(((), q)),
        Err(e) => Err(e),
    }
}

/// A bind pose: sixteen `f32` values, 64 bytes.
pub open spec fn spec_bind_pose(d: Seq<u8>, p: int) -> SpecRead<()> {
    match spec_take(d, p, 64) {
        Ok((_, q)) => Ok(((), q)),
        Err(e) => Err(e),
    }
}

pub open spec fn atlas_tag_reader() -> spec_fn(Seq<u8>, int) -> SpecRead<()> {
    |d: Seq<u8>, p: int| spec_unit_aligned_bytes(d, p)
}

pub open spec fn secondary_texture_reader() -> spec_fn(Seq<u8>, int) -> SpecRead<()> {
    |d: Seq<u8>, p: int| spec_secondary_texture(d, p)
}

pub open spec fn submesh_reader() -> spec_fn(Seq<u8>, int) -> SpecRead<()> {
    |d: Seq<u8>, p: int| spec_submesh(d, p)
}

pub open spec fn channel_reader() -> spec_fn(Seq<u8>, int) -> SpecRead<()> {
    |d: Seq<u8>, p: int| spec_channel(d, p)
}

pub open spec fn bind_pose_reader() -> spec_fn(Seq<u8>, int) -> SpecRead<()> {
    |d: Seq<u8>, p: int| spec_bind_pose(d, p)
}

/// `count` values read by `elem` and dropped.
pub open spec fn spec_skip_list(d: Seq<u8>, p: int, elem: spec_fn(Seq<u8>, int) -> SpecRead<()>) -> SpecRead<()> {
    let count = spec_i32(d, p, false);
    let items = spec_repeat(d, pos_of(count), count_of(val_of(count)), elem);
    if count is Err {
        Err(err_of(count))
    } else if items is Err {
        Err(err_of(items))
    } else {
        Ok(((), pos_of(items)))
    }
}

/// The first part of a sprite at `abs`: the name, then rectangle, offset,
/// border, pixels per unit, pivot, extrusion and polygon flag (57 bytes),
/// alignment, the render data key (24 bytes) and the atlas tags.
pub open spec fn spec_sprite_head(d: Seq<u8>, abs: int) -> SpecRead<Seq<char>> {
    let name = spec_aligned_string(d, abs);
    let fields = spec_take(d, pos_of(name), 57);
    let a = spec_align4_seek(pos_of(fields), 0);
    let key = spec_take(d, a->Ok_0, 24);
    let tags = spec_skip_list(d, pos_of(key), atlas_tag_reader());
    if name is Err {
        Err(err_of(name))
    } else if fields is Err {
        Err(err_of(fields))
    } else if a is Err {
        Err(a->Err_0)
    } else if key is Err {
        Err(err_of(key))
    } else if tags is Err {
        Err(err_of(tags))
    } else {
        Ok((val_of(name), pos_of(tags)))
    }
}

/// The references that follow: the sprite atlas (skipped), the texture
/// and the alpha texture.
pub open spec fn spec_sprite_textures(d: Seq<u8>, p: int) -> SpecRead<(ObjectPtr, ObjectPtr)> {
    let atlas = spec_object_ptr(d, p);
    let texture = spec_object_ptr(d, pos_of(atlas));
    let alpha = spec_object_ptr(d, pos_of(texture));
    if atlas is Err {
        Err(err_of(atlas))
    } else if texture is Err {
        Err(err_of(texture))
    } else if alpha is Err {
        Err(err_of(alpha))
    } else {
        Ok(((val_of(texture), val_of(alpha)), pos_of(alpha)))
    }
}

/// The render data that follows, all skipped: secondary textures,
/// submeshes, index buffer, vertex count, channels, vertex data and bind
/// poses.
pub open spec fn spec_sprite_mesh(d: Seq<u8>, p: int) -> SpecRead<()> {
    let secondary = spec_skip_list(d, p, secondary_texture_reader());
    let submeshes = spec_skip_list(d, pos_of(secondary), submesh_reader());
    let indices = spec_aligned_bytes(d, pos_of(submeshes));
    let vertex_count = spec_u32(d, pos_of(indices), false);
    let channels = spec_skip_list(d, pos_of(vertex_count), channel_reader());
    let vertices = spec_aligned_bytes(d, pos_of(channels));
    let poses = spec_skip_list(d, pos_of(vertices), bind_pose_reader());
    if secondary is Err {
        Err(err_of(secondary))
    } else if submeshes is Err {
        Err(err_of(submeshes))
    } else if indices is Err {
        Err(err_of(indices))
    } else if vertex_count is Err {
        Err(err_of(vertex_count))
    } else if channels is Err {
        Err(err_of(channels))
    } else if vertices is Err {
        Err(err_of(vertices))
    } else if poses is Err {
        Err(err_of(poses))
    } else {
        Ok(((), pos_of(poses)))
    }
}

/// A sprite at `abs`: head, references, mesh and the texture rectangle.
pub open spec fn spec_sprite(d: Seq<u8>, abs: int) -> SpecRead<SpriteView> {
    let name = spec_sprite_head(d, abs);
    let textures = spec_sprite_textures(d, pos_of(name));
    let mesh = spec_sprite_mesh(d, pos_of(textures));
    let rect = spec_rectangle(d, pos_of(mesh));
    if name is Err {
        Err(err_of(name))
    } else if textures is Err {
        Err(err_of(textures))
    } else if mesh is Err {
        Err(err_of(mesh))
    } else if rect is Err {
        Err(err_of(rect))
    } else {
        Ok((SpriteView {
            name: val_of(name),
            texture: val_of(textures).0,
            alpha_texture: val_of(textures).1,
            texture_rect: val_of(rect),
        }, pos_of(rect)))
    }
}

/// Skips `count` atlas tags (length-prefixed byte arrays).
fn skip_atlas_tags(reader: &mut Reader, count: i32) -> (r: Result<(), UnpackError>)
    ensures
        final(reader).bytes() == old(reader).bytes(),
        final(reader).bytes().len() <= isize::MAX,
        match spec_repeat(old(reader).bytes(), old(reader).position(), count_of(count), atlas_tag_reader()) {
            Ok((_, q)) => r is Ok && final(reader).position() == q,
            Err(e) => r == Err::<(), UnpackError>(e),
        },
{
    let ghost d = reader.bytes();
    let ghost p0 = reader.position();
    let ghost mut seen: Seq<()> = Seq::empty();
    let _ = reader.len();
    let mut i: i32 = 0;
    while i < count
        invariant
            d == old(reader).bytes(),
            p0 == old(reader).position(),
            reader.bytes() == d,
            d.len() <= isize::MAX,
            0 <= i,
            i <= count || count < 0,
            count < 0 ==> i == 0,
            spec_repeat(d, p0, i as nat, atlas_tag_reader()) == Ok::<(Seq<()>, int), UnpackError>((seen, reader.position())),
        decreases count - i,
    {
        let ghost before = reader.position();
        proof {
            assert(atlas_tag_reader()(d, before) == spec_unit_aligned_bytes(d, before));
        }
        match aligned_bytes(reader) {
            Ok(_) => {},
            Err(e) => {
                proof { lemma_repeat_err(d, p0, (i + 1) as nat, count_of(count), atlas_tag_reader()); }
                return Err(e);
            },
        }
        proof {
            seen = seen.push(());
        }
        i = i + 1;
    }
    proof {
        assert(i as nat == count_of(count));
    }
    Ok(())
}

/// Skips `count` secondary textures (a reference and a name).
fn skip_secondary_textures(reader: &mut Reader, count: i32) -> (r: Result<(), UnpackError>)
    ensures
        final(reader).bytes() == old(reader).bytes(),
        final(reader).bytes().len() <= isize::MAX,
        match spec_repeat(old(reader).bytes(), old(reader).position(), count_of(count), secondary_texture_reader()) {
            Ok((_, q)) => r is Ok && final(reader).position() == q,
            Err(e) => r == Err::<(), UnpackError>(e),
        },
{
    let ghost d = reader.bytes();
    let ghost p0 = reader.position();
    let ghost mut seen: Seq<()> = Seq::empty();
    let _ = reader.len();
    let mut i: i32 = 0;
    while i < count
        invariant
            d == old(reader).bytes(),
            p0 == old(reader).position(),
            reader.bytes() == d,
            d.len() <= isize::MAX,
            0 <= i,
            i <= count || count < 0,
            count < 0 ==> i == 0,
            spec_repeat(d, p0, i as nat, secondary_texture_reader()) == Ok::<(Seq<()>, int), UnpackError>((seen, reader.position())),
        decreases count - i,
    {
        let ghost before = reader.position();
        proof {
            assert(secondary_texture_reader()(d, before) == spec_secondary_texture(d, before));
        }
        match ObjectPtr::parse(reader) {
            Ok(_) => {},
            Err(e) => {
                proof { lemma_repeat_err(d, p0, (i + 1) as nat, count_of(count), secondary_texture_reader()); }
                return Err(e);
            },
        }
        match aligned_bytes(reader) {
            Ok(_) => {},
            Err(e) => {
                proof { lemma_repeat_err(d, p0, (i + 1) as nat, count_of(count), secondary_texture_reader()); }
                return Err(e);
            },
        }
        proof {
            seen = seen.push(());
        }
        i = i + 1;
    }
    proof {
        assert(i as nat == count_of(count));
    }
    Ok(())
}

/// Skips `count` submeshes of 48 bytes each.
fn skip_submeshes(reader: &mut Reader, count: i32) -> (r: Result<(), UnpackError>)
    ensures
        final(reader).bytes() == old(reader).bytes(),
        final(reader).bytes().len() <= isize::MAX,
        match spec_repeat(old(reader).bytes(), old(reader).position(), count_of(count), submesh_reader()) {
            Ok((_, q)) => r is Ok && final(reader).position() == q,
            Err(e) => r == Err::<(), UnpackError>(e),
        },
{
    let ghost d = reader.bytes();
    let ghost p0 = reader.position();
    let ghost mut seen: Seq<()> = Seq::empty();
    let _ = reader.len();
    let mut i: i32 = 0;
    while i < count
        invariant
            d == old(reader).bytes(),
            p0 == old(reader).position(),
            reader.bytes() == d,
            d.len() <= isize::MAX,
            0 <= i,
            i <= count || count < 0,
            count < 0 ==> i == 0,
            spec_repeat(d, p0, i as nat, submesh_reader()) == Ok::<(Seq<()>, int), UnpackError>((seen, reader.position())),
        decreases count - i,
    {
        let ghost before = reader.position();
        proof {
            assert(submesh_reader()(d, before) == spec_submesh(d, before));
        }
        match reader.seek_current(48) {
            Ok(_) => {},
            Err(e) => {
                proof { lemma_repeat_err(d, p0, (i + 1) as nat, count_of(count), submesh_reader()); }
                return Err(e);
            },
        }
        proof {
            seen = seen.push(());
        }
        i = i + 1;
    }
    proof {
        assert(i as nat == count_of(count));
    }
    Ok(())
}

/// Skips `count` vertex channel descriptions of four bytes each.
fn skip_channels(reader: &mut Reader, count: i32) -> (r: Result<(), UnpackError>)
    ensures
        final(reader).bytes() == old(reader).bytes(),
        final(reader).bytes().len() <= isize::MAX,
        match spec_repeat(old(reader).bytes(), old(reader).position(), count_of(count), channel_reader()) {
            Ok((_, q)) => r is Ok && final(reader).position() == q,
            Err(e) => r == Err::<(), UnpackError>(e),
        },
{
    let ghost d = reader.bytes();
    let ghost p0 = reader.position();
    let ghost mut seen: Seq<()> = Seq::empty();
    let _ = reader.len();
    let mut i: i32 = 0;
    while i < count
        invariant
            d == old(reader).bytes(),
            p0 == old(reader).position(),
            reader.bytes() == d,
            d.len() <= isize::MAX,
            0 <= i,
            i <= count || count < 0,
            count < 0 ==> i == 0,
            spec_repeat(d, p0, i as nat, channel_reader()) == Ok::<(Seq<()>, int), UnpackError>((seen, reader.position())),
        decreases count - i,
    {
        let ghost before = reader.position();
        proof {
            assert(channel_reader()(d, before) == spec_channel(d, before));
        }
        match byte(reader) {
            Ok(_) => {},
            Err(e) => {
                proof { lemma_repeat_err(d, p0, (i + 1) as nat, count_of(count), channel_reader()); }
                return Err(e);
            },
        }
        match byte(reader) {
            Ok(_) => {},
            Err(e) => {
                proof { lemma_repeat_err(d, p0, (i + 1) as nat, count_of(count), channel_reader()); }
                return Err(e);
            },
        }
        match byte(reader) {
            Ok(_) => {},
            Err(e) => {
                proof { lemma_repeat_err(d, p0, (i + 1) as nat, count_of(count), channel_reader()); }
                return Err(e);
            },
        }
        match byte(reader) {
            Ok(_) => {},
            Err(e) => {
                proof { lemma_repeat_err(d, p0, (i + 1) as nat, count_of(count), channel_reader()); }
                return Err(e);
            },
        }
        proof {
            seen = seen.push(());
        }
        i = i + 1;
    }
    proof {
        assert(i as nat == count_of(count));
    }
    Ok(())
}

/// Skips `count` bind pose matrices of sixteen `f32` values each.
fn skip_bind_poses(reader: &mut Reader, count: i32) -> (r: Result<(), UnpackError>)
    ensures
        final(reader).bytes() == old(reader).bytes(),
        final(reader).bytes().len() <= isize::MAX,
        match spec_repeat(old(reader).bytes(), old(reader).position(), count_of(count), bind_pose_reader()) {
            Ok((_, q)) => r is Ok && final(reader).position() == q,
            Err(e) => r == Err::<(), UnpackError>(e),
        },
{
    let ghost d = reader.bytes();
    let ghost p0 = reader.position();
    let ghost mut seen: Seq<()> = Seq::empty();
    let _ = reader.len();
    let mut i: i32 = 0;
    while i < count
        invariant
            d == old(reader).bytes(),
            p0 == old(reader).position(),
            reader.bytes() == d,
            d.len() <= isize::MAX,
            0 <= i,
            i <= count || count < 0,
            count < 0 ==> i == 0,
            spec_repeat(d, p0, i as nat, bind_pose_reader()) == Ok::<(Seq<()>, int), UnpackError>((seen, reader.position())),
        decreases count - i,
    {
        let ghost before = reader.position();
        proof {
            assert(bind_pose_reader()(d, before) == spec_bind_pose(d, before));
        }
        let mut k: u32 = 0;
        while k < 16
            invariant
                reader.bytes() == d,
                d == old(reader).bytes(),
                p0 == old(reader).position(),
                d.len() <= isize::MAX,
                0 <= i < count,
                spec_repeat(d, p0, i as nat, bind_pose_reader()) == Ok::<(Seq<()>, int), UnpackError>((seen, before)),
                bind_pose_reader()(d, before) == spec_bind_pose(d, before),
                k <= 16,
                reader.position() == before + 4 * k,
                k > 0 ==> 0 <= before && before + 4 * k <= d.len(),
            decreases 16 - k,
        {
            match u32_le(reader) {
                Ok(_) => {},
                Err(e) => {
                    proof { lemma_repeat_err(d, p0, (i + 1) as nat, count_of(count), bind_pose_reader()); }
                    return Err(e);
                },
            }
            k = k + 1;
        }
        proof {
            seen = seen.push(());
        }
        i = i + 1;
    }
    proof {
        assert(i as nat == count_of(count));
    }
    Ok(())
}

fn read_sprite_head(reader: &mut Reader) -> (r: Result<String, UnpackError>)
    ensures
        read_follows(r, *old(reader), *final(reader), spec_sprite_head(old(reader).bytes(), old(reader).position())),
{
    let name = aligned_string(reader)?;
    let _rect = Rectangle::parse(reader)?;
    let _offset_x = u32_le(reader)?;
    let _offset_y = u32_le(reader)?;
    let _border = Rectangle::parse(reader)?;
    let _pixel_to_units = u32_le(reader)?;
    let _pivot_x = u32_le(reader)?;
    let _pivot_y = u32_le(reader)?;
    let _extrude = u32_le(reader)?;
    let _is_polygon = byte(reader)? != 0;
    align4(reader, 0)?;
    let _guid = reader.read_exact(16)?;
    let _render_data_key = i64_le(reader)?;
    let atlas_tag_count = i32_le(reader)?;
    skip_atlas_tags(reader, atlas_tag_count)?;
    Ok(name)
}

fn read_sprite_textures(reader: &mut Reader) -> (r: Result<(ObjectPtr, ObjectPtr), UnpackError>)
    ensures
        read_follows(r, *old(reader), *final(reader), spec_sprite_textures(old(reader).bytes(), old(reader).position())),
{
    let _sprite_atlas = ObjectPtr::parse(reader)?;
    let texture = ObjectPtr::parse(reader)?;
    let alpha_texture = ObjectPtr::parse(reader)?;
    Ok((texture, alpha_texture))
}

fn skip_sprite_mesh(reader: &mut Reader) -> (r: Result<(), UnpackError>)
    ensures
        read_follows(r, *old(reader), *final(reader), spec_sprite_mesh(old(reader).bytes(), old(reader).position())),
{
    let secondary_count = i32_le(reader)?;
    skip_secondary_textures(reader, secondary_count)?;
    let submesh_count = i32_le(reader)?;
    skip_submeshes(reader, submesh_count)?;
    let _index_buffer = aligned_bytes(reader)?;
    let _vertex_count = u32_le(reader)?;
    let channel_count = i32_le(reader)?;
    skip_channels(reader, channel_count)?;
    let _v_data = aligned_bytes(reader)?;
    let matrix_count = i32_le(reader)?;
    skip_bind_poses(reader, matrix_count)?;
    Ok(())
}

impl Sprite {
    /// Reads the sprite stored at `abs_offset`.
    pub fn parse(reader: &mut Reader, abs_offset: u64) -> (r: Result<Self, UnpackError>)
        ensures
            read_follows(r, *old(reader), *final(reader), spec_sprite(old(reader).bytes(), abs_offset as int)),
    {
        reader.seek_start(abs_offset);
        let name = read_sprite_head(reader)?;
        let (texture, alpha_texture) = read_sprite_textures(reader)?;
        skip_sprite_mesh(reader)?;
        let texture_rect = Rectangle::parse(reader)?;
        Ok(Self { name, texture, alpha_texture, texture_rect })
    }
}

} // verus!
