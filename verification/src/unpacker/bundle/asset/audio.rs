//! Audio clips.

use vstd::prelude::*;

use crate::error::UnpackError;
use crate::unpacker::bundle::read::{
    Reader, SpecRead, read_follows, spec_take, spec_i32, spec_i64, spec_u32, spec_aligned_string, spec_align4_seek,
    pos_of, val_of, err_of, byte, i32_le, i64_le, u32_le, align4, aligned_string,
};

verus! {

/// Where the sound of a clip is: in the object itself, or in a resource
/// file of the bundle.
#[derive(Debug)]
pub enum AudioData {
    Inline(Vec<u8>),
    Streaming { path: String, offset: u64, size: u64 },
}

pub enum AudioDataView {
    Inline(Seq<u8>),
    Streaming { path: Seq<char>, offset: u64, size: u64 },
}

impl View for AudioData {
    type V = AudioDataView;

    open spec fn view(&self) -> AudioDataView {
        match self {
            AudioData::Inline(v) => AudioDataView::Inline(v@),
            AudioData::Streaming { path, offset, size } => AudioDataView::Streaming { path: path@, offset: *offset, size: *size },
        }
    }
}

/// An audio clip. `length` is the bit pattern of its `f32` length in seconds.
#[derive(Debug)]
pub struct AudioClip {
    pub name: String,
    pub channels: i32,
    pub frequency: i32,
    pub length: u32,
    pub compression_format: i32,
    pub audio: AudioData,
}

pub struct AudioClipView {
    pub name: Seq<char>,
    pub channels: i32,
    pub frequency: i32,
    pub length: u32,
    pub compression_format: i32,
    pub audio: AudioDataView,
}

impl View for AudioClip {
    type V = AudioClipView;

    open spec fn view(&self) -> AudioClipView {
        AudioClipView {
            name: self.name@,
            channels: self.channels,
            frequency: self.frequency,
            length: self.length,
            compression_format: self.compression_format,
            audio: self.audio@,
        }
    }
}

/// The first part of a clip at `abs`: name, load type (skipped), channels,
/// frequency, bits per sample (skipped), length, a tracker flag (skipped),
/// alignment, sound index and three flags (7 bytes, skipped), alignment.
pub open spec fn spec_audio_head(d: Seq<u8>, abs: int) -> SpecRead<(Seq<char>, i32, i32, u32)> {
    let name = spec_aligned_string(d, abs);
    let load_type = spec_take(d, pos_of(name), 4);
    let channels = spec_i32(d, pos_of(load_type), false);
    let frequency = spec_i32(d, pos_of(channels), false);
    let bits = spec_take(d, pos_of(frequency), 4);
    let length = spec_u32(d, pos_of(bits), false);
    let tracker = spec_take(d, pos_of(length), 1);
    let a1 = spec_align4_seek(pos_of(tracker), 0);
    let flags = spec_take(d, a1->Ok_0, 7);
    let a2 = spec_align4_seek(pos_of(flags), 0);
    if name is Err {
        Err(err_of(name))
    } else if load_type is Err {
        Err(err_of(load_type))
    } else if channels is Err {
        Err(err_of(channels))
    } else if frequency is Err {
        Err(err_of(frequency))
    } else if bits is Err {
        Err(err_of(bits))
    } else if length is Err {
        Err(err_of(length))
    } else if tracker is Err {
        Err(err_of(tracker))
    } else if a1 is Err {
        Err(a1->Err_0)
    } else if flags is Err {
        Err(err_of(flags))
    } else if a2 is Err {
        Err(a2->Err_0)
    } else {
        Ok(((val_of(name), val_of(channels), val_of(frequency), val_of(length)), a2->Ok_0))
    }
}

/// The sound: the resource path, offset and size, the compression format,
/// then, where the path is empty, `size` bytes of sound.
pub open spec fn spec_audio_data(d: Seq<u8>, p: int) -> SpecRead<(i32, AudioDataView)> {
    let source = spec_aligned_string(d, p);
    let offset = spec_i64(d, pos_of(source), false);
    let size = spec_i64(d, pos_of(offset), false);
    let compression = spec_i32(d, pos_of(size), false);
    let sound = spec_take(d, pos_of(compression), (val_of(size) as u64) as int);
    if source is Err {
        Err(err_of(source))
    } else if offset is Err {
        Err(err_of(offset))
    } else if size is Err {
        Err(err_of(size))
    } else if compression is Err {
        Err(err_of(compression))
    } else if val_of(source).len() == 0 {
        if sound is Err {
            Err(err_of(sound))
        } else {
            Ok(((val_of(compression), AudioDataView::Inline(val_of(sound))), pos_of(sound)))
        }
    } else {
        Ok(((val_of(compression), AudioDataView::Streaming {
            path: val_of(source),
            offset: val_of(offset) as u64,
            size: val_of(size) as u64,
        }), pos_of(compression)))
    }
}

/// An audio clip at `abs`.
pub open spec fn spec_audio_clip(d: Seq<u8>, abs: int) -> SpecRead<AudioClipView> {
    let head = spec_audio_head(d, abs);
    let data = spec_audio_data(d, pos_of(head));
    if head is Err {
        Err(err_of(head))
    } else if data is Err {
        Err(err_of(data))
    } else {
        let (name, channels, frequency, length) = val_of(head);
        let (compression_format, audio) = val_of(data);
        Ok((AudioClipView { name, channels, frequency, length, compression_format, audio }, pos_of(data)))
    }
}

fn read_audio_head(reader: &mut Reader) -> (r: Result<(String, i32, i32, u32), UnpackError>)
    ensures
        final(reader).bytes() == old(reader).bytes(),
        final(reader).bytes().len() <= isize::MAX,
        match spec_audio_head(old(reader).bytes(), old(reader).position()) {
            Ok((v, q)) => r matches Ok((name, c, f, l)) && (name@, c, f, l) == v && final(reader).position() == q,
            Err(e) => r == Err::<(String, i32, i32, u32), UnpackError>(e),
        },
{
    let name = aligned_string(reader)?;
    let _load_type = i32_le(reader)?;
    let channels = i32_le(reader)?;
    let frequency = i32_le(reader)?;
    let _bits_per_sample = i32_le(reader)?;
    let length = u32_le(reader)?;
    let _is_tracker_format = byte(reader)?;
    align4(reader, 0)?;
    let _sound_index = i32_le(reader)?;
    let _preload_audio_data = byte(reader)?;
    let _load_in_background = byte(reader)?;
    let _legacy_3d = byte(reader)?;
    align4(reader, 0)?;
    Ok((name, channels, frequency, length))
}

fn read_audio_data(reader: &mut Reader) -> (r: Result<(i32, AudioData), UnpackError>)
    ensures
        final(reader).bytes() == old(reader).bytes(),
        final(reader).bytes().len() <= isize::MAX,
        match spec_audio_data(old(reader).bytes(), old(reader).position()) {
            Ok((v, q)) => r matches Ok((c, a)) && (c, a@) == v && final(reader).position() == q,
            Err(e) => r == Err::<(i32, AudioData), UnpackError>(e),
        },
{
    let source = aligned_string(reader)?;
    let offset = i64_le(reader)? as u64;
    let size = i64_le(reader)? as u64;
    let compression_format = i32_le(reader)?;
    let audio = if source.as_str().is_empty() {
        let buf = reader.read_exact(size)?;
        AudioData::Inline(buf)
    } else {
        AudioData::Streaming { path: source, offset, size }
    };
    Ok((compression_format, audio))
}

impl AudioClip {
    /// Reads the audio clip stored at `abs_offset`.
    pub fn parse(reader: &mut Reader, abs_offset: u64) -> (r: Result<Self, UnpackError>)
        ensures
            read_follows(r, *old(reader), *final(reader), spec_audio_clip(old(reader).bytes(), abs_offset as int)),
    {
        reader.seek_start(abs_offset);
        let (name, channels, frequency, length) = read_audio_head(reader)?;
        let (compression_format, audio) = read_audio_data(reader)?;
        Ok(Self { name, channels, frequency, length, compression_format, audio })
    }
}

} // verus!
