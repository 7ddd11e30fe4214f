//! Textures.

use vstd::prelude::*;

use crate::error::UnpackError;
use crate::unpacker::bundle::read::{
    Reader, SpecRead, read_follows, spec_take, spec_i32, spec_i64, spec_u32, spec_aligned_string, spec_aligned_bytes,
    spec_align4_seek, pos_of, val_of, err_of, byte, i32_le, i64_le, u32_le, align4, aligned_string, aligned_bytes,
};

verus! {

/// Where the pixels of a texture are: in the object itself, or in a
/// resource file of the bundle at an offset.
#[derive(Debug)]
pub enum ImageData {
    Inline(Vec<u8>),
    Streaming { path: String, offset: u64, size: u32 },
}

pub enum ImageDataView {
    Inline(Seq<u8>),
    Streaming { path: Seq<char>, offset: u64, size: u32 },
}

impl View for ImageData {
    type V = ImageDataView;

    open spec fn view(&self) -> ImageDataView {
        match self {
            ImageData::Inline(v) => ImageDataView::Inline(v@),
            ImageData::Streaming { path, offset, size } => ImageDataView::Streaming { path: path@, offset: *offset, size: *size },
        }
    }
}

/// A texture: name, size, pixel format and where its pixels are.
#[derive(Debug)]
pub struct Texture2D {
    pub name: String,
    pub width: i32,
    pub height: i32,
    pub format: i32,
    pub image: ImageData,
}

pub struct Texture2DView {
    pub name: Seq<char>,
    pub width: i32,
    pub height: i32,
    pub format: i32,
    pub image: ImageDataView,
}

impl View for Texture2D {
    type V = Texture2DView;

    open spec fn view(&self) -> Texture2DView {
        Texture2DView { name: self.name@, width: self.width, height: self.height, format: self.format, image: self.image@ }
    }
}

/// Engines from 2022.2 on store a mipmap limit group name.
pub open spec fn has_mipmap_limit_group(major: u32, minor: u32) -> bool {
    major > 2022 || (major == 2022 && minor >= 2)
}

/// The first part of a texture at `abs`: name, the fallback format and two
/// flags (6 bytes, skipped), alignment, width, height, image size and
/// stripped mips (8 bytes, skipped), format, mip count and three flags
/// (7 bytes, skipped). Yields name, width, height and format.
pub open spec fn spec_texture_head(d: Seq<u8>, abs: int) -> SpecRead<(Seq<char>, i32, i32, i32)> {
    let name = spec_aligned_string(d, abs);
    let g1 = spec_take(d, pos_of(name), 6);
    let a1 = spec_align4_seek(pos_of(g1), 0);
    let width = spec_i32(d, a1->Ok_0, false);
    let height = spec_i32(d, pos_of(width), false);
    let g2 = spec_take(d, pos_of(height), 8);
    let format = spec_i32(d, pos_of(g2), false);
    let g3 = spec_take(d, pos_of(format), 7);
    if name is Err {
        Err(err_of(name))
    } else if g1 is Err {
        Err(err_of(g1))
    } else if a1 is Err {
        Err(a1->Err_0)
    } else if width is Err {
        Err(err_of(width))
    } else if height is Err {
        Err(err_of(height))
    } else if g2 is Err {
        Err(err_of(g2))
    } else if format is Err {
        Err(err_of(format))
    } else if g3 is Err {
        Err(err_of(g3))
    } else {
        Ok(((val_of(name), val_of(width), val_of(height), val_of(format)), pos_of(g3)))
    }
}

/// The settings that follow, all skipped: the mipmap limit group name (from
/// engine 2022.2 on), the streaming flag (1 byte), alignment, then
/// priority, image count, dimension, filter, anisotropy, mip bias, three
/// wrap modes, lightmap format and colour space (44 bytes), and the
/// platform blob.
pub open spec fn spec_texture_settings(d: Seq<u8>, p: int, version: (u32, u32)) -> SpecRead<()> {
    let limit = if has_mipmap_limit_group(version.0, version.1) {
        spec_aligned_bytes(d, p)
    } else {
        Ok((Seq::empty(), p))
    };
    let g4 = spec_take(d, pos_of(limit), 1);
    let a2 = spec_align4_seek(pos_of(g4), 0);
    let g5 = spec_take(d, a2->Ok_0, 44);
    let platform = spec_aligned_bytes(d, pos_of(g5));
    if limit is Err {
        Err(err_of(limit))
    } else if g4 is Err {
        Err(err_of(g4))
    } else if a2 is Err {
        Err(a2->Err_0)
    } else if g5 is Err {
        Err(err_of(g5))
    } else if platform is Err {
        Err(err_of(platform))
    } else {
        Ok(((), pos_of(platform)))
    }
}

/// The pixels: an `i32` size, then that many bytes; a size of 0 is
/// followed by the offset, size and path of the pixels in a resource file.
pub open spec fn spec_image_data(d: Seq<u8>, p: int) -> SpecRead<ImageDataView> {
    let size = spec_i32(d, p, false);
    let stream_offset = spec_i64(d, pos_of(size), false);
    let stream_size = spec_u32(d, pos_of(stream_offset), false);
    let stream_path = spec_aligned_string(d, pos_of(stream_size));
    let pixels = spec_take(d, pos_of(size), val_of(size) as int);
    if size is Err {
        Err(err_of(size))
    } else if val_of(size) == 0 {
        if stream_offset is Err {
            Err(err_of(stream_offset))
        } else if stream_size is Err {
            Err(err_of(stream_size))
        } else if stream_path is Err {
            Err(err_of(stream_path))
        } else {
            Ok((ImageDataView::Streaming {
                path: val_of(stream_path),
                offset: val_of(stream_offset) as u64,
                size: val_of(stream_size),
            }, pos_of(stream_path)))
        }
    } else if pixels is Err {
        Err(err_of(pixels))
    } else {
        Ok((ImageDataView::Inline(val_of(pixels)), pos_of(pixels)))
    }
}

/// A texture at `abs` as engine `version` writes it.
pub open spec fn spec_texture(d: Seq<u8>, abs: int, version: (u32, u32)) -> SpecRead<Texture2DView> {
    let head = spec_texture_head(d, abs);
    let settings = spec_texture_settings(d, pos_of(head), version);
    let image = spec_image_data(d, pos_of(settings));
    if head is Err {
        Err(err_of(head))
    } else if settings is Err {
        Err(err_of(settings))
    } else if image is Err {
        Err(err_of(image))
    } else {
        let (name, width, height, format) = val_of(head);
        Ok((Texture2DView { name, width, height, format, image: val_of(image) }, pos_of(image)))
    }
}

/// A texture is read the same way under any two engine versions on the
/// same side of 2022.2: the version matters only through whether the
/// mipmap limit group name is stored.
pub proof fn texture_layout_changes_only_at_2022_2(d: Seq<u8>, abs: int, v1: (u32, u32), v2: (u32, u32))
    requires
        has_mipmap_limit_group(v1.0, v1.1) == has_mipmap_limit_group(v2.0, v2.1),
    ensures
        spec_texture(d, abs, v1) == spec_texture(d, abs, v2),
{
    let head = spec_texture_head(d, abs);
    assert(spec_texture_settings(d, pos_of(head), v1) == spec_texture_settings(d, pos_of(head), v2));
}

fn read_texture_head(reader: &mut Reader) -> (r: Result<(String, i32, i32, i32), UnpackError>)
    ensures
        final(reader).bytes() == old(reader).bytes(),
        final(reader).bytes().len() <= isize::MAX,
        match spec_texture_head(old(reader).bytes(), old(reader).position()) {
            Ok((v, q)) => r matches Ok((name, w, h, f)) && (name@, w, h, f) == v && final(reader).position() == q,
            Err(e) => r == Err::<(String, i32, i32, i32), UnpackError>(e),
        },
{
    let name = aligned_string(reader)?;

    // Texture
    let _forced_fallback_format = i32_le(reader)?;
    let _downscale_fallback = byte(reader)?;
    let _is_alpha_channel_optional = byte(reader)?;
    align4(reader, 0)?;

    // Texture2D
    let width = i32_le(reader)?;
    let height = i32_le(reader)?;
    let _complete_image_size = i32_le(reader)?;
    let _mips_stripped = i32_le(reader)?;
    let texture_format = i32_le(reader)?;
    let _mip_count = i32_le(reader)?;
    let _is_readable = byte(reader)?;
    let _is_pre_processed = byte(reader)?;
    let _ignore_master_texture_limit = byte(reader)?;
    Ok((name, width, height, texture_format))
}

fn skip_texture_settings(reader: &mut Reader, major: u32, minor: u32) -> (r: Result<(), UnpackError>)
    ensures
        read_follows(r, *old(reader), *final(reader), spec_texture_settings(old(reader).bytes(), old(reader).position(), (major, minor))),
{
    if major > 2022 || (major == 2022 && minor >= 2) {
        let _mipmap_limit_group_name = aligned_bytes(reader)?;
    }
    let _streaming_mipmaps = byte(reader)?;
    align4(reader, 0)?;
    let _streaming_mipmaps_priority = i32_le(reader)?;
    let _image_count = i32_le(reader)?;
    let _texture_dims = i32_le(reader)?;

    // GL texture settings
    let _filter_mode = i32_le(reader)?;
    let _aniso = i32_le(reader)?;
    let _mip_bias_bits = u32_le(reader)?;
    let _wrap_u = i32_le(reader)?;
    let _wrap_v = i32_le(reader)?;
    let _wrap_w = i32_le(reader)?;

    // Texture2D
    let _lightmap_format = i32_le(reader)?;
    let _color_space = i32_le(reader)?;
    let _platform_bytes = aligned_bytes(reader)?;
    Ok(())
}

fn read_image_data(reader: &mut Reader) -> (r: Result<ImageData, UnpackError>)
    ensures
        read_follows(r, *old(reader), *final(reader), spec_image_data(old(reader).bytes(), old(reader).position())),
{
    let image_data_size = i32_le(reader)?;
    if image_data_size == 0 {
        let stream_offset = i64_le(reader)?;
        let stream_size = u32_le(reader)?;
        let stream_path = aligned_string(reader)?;
        Ok(ImageData::Streaming { path: stream_path, size: stream_size, offset: stream_offset as u64 })
    } else {
        if image_data_size < 0 {
            return Err(UnpackError::UnexpectedEof);
        }
        let image_data = reader.read_exact(image_data_size as u64)?;
        Ok(ImageData::Inline(image_data))
    }
}

impl Texture2D {
    /// Reads the texture stored at `abs_offset` by an engine of version
    /// `(major, minor)`.
    pub fn parse(version: (u32, u32), reader: &mut Reader, abs_offset: u64) -> (r: Result<Self, UnpackError>)
        ensures
            read_follows(r, *old(reader), *final(reader), spec_texture(old(reader).bytes(), abs_offset as int, version)),
    {
        let (major, minor) = version;
        reader.seek_start(abs_offset);
        let (name, width, height, format) = read_texture_head(reader)?;
        let _ = reader.len();
        skip_texture_settings(reader, major, minor)?;
        let image = read_image_data(reader)?;
        Ok(Self { name, width, height, format, image })
    }
}

} // verus!
