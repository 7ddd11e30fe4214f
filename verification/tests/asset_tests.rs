use ak_assets::error::UnpackError;
use ak_assets::unpacker::bundle::asset::audio::{AudioClip, AudioData};
use ak_assets::unpacker::bundle::asset::common::{ObjectPtr, Rectangle};
use ak_assets::unpacker::bundle::asset::mono::MonoBehaviour;
use ak_assets::unpacker::bundle::asset::sprite::Sprite;
use ak_assets::unpacker::bundle::asset::text::TextAsset;
use ak_assets::unpacker::bundle::asset::texture::{ImageData, Texture2D};
use ak_assets::unpacker::bundle::read::Reader;
use ak_assets::unpacker::bundle::serialized::TypeTreeNode;
use ak_assets::unpacker::bundle::typetree::JsonValue;

fn aligned(bytes: &[u8]) -> Vec<u8> {
    let mut v = (bytes.len() as u32).to_le_bytes().to_vec();
    v.extend_from_slice(bytes);
    while v.len() % 4 != 0 {
        v.push(0);
    }
    v
}

fn i32s(v: &mut Vec<u8>, values: &[i32]) {
    for x in values {
        v.extend_from_slice(&x.to_le_bytes());
    }
}

fn pad4(v: &mut Vec<u8>) {
    while v.len() % 4 != 0 {
        v.push(0);
    }
}

#[test]
fn text_asset_is_read_at_its_offset() {
    let mut d = vec![0xAA; 8];
    d.extend_from_slice(&aligned(b"story"));
    d.extend_from_slice(&aligned(&[1, 2, 3]));
    let mut r = Reader::new(d);
    let t = TextAsset::parse(&mut r, 8).unwrap();
    assert_eq!(t.name, "story");
    assert_eq!(t.data, vec![1, 2, 3]);
    let mut r = Reader::new(vec![0; 4]);
    assert_eq!(TextAsset::parse(&mut r, 2).unwrap_err(), UnpackError::UnexpectedEof);
}

#[test]
fn object_pointer_and_rectangle() {
    let mut d = Vec::new();
    i32s(&mut d, &[-1]);
    d.extend_from_slice(&77i64.to_le_bytes());
    d.extend_from_slice(&1.5f32.to_bits().to_le_bytes());
    d.extend_from_slice(&2.0f32.to_bits().to_le_bytes());
    d.extend_from_slice(&64.0f32.to_bits().to_le_bytes());
    d.extend_from_slice(&32.0f32.to_bits().to_le_bytes());
    let mut r = Reader::new(d);
    let p = ObjectPtr::parse(&mut r).unwrap();
    assert_eq!(p.file_id, -1);
    assert_eq!(p.path_id, 77);
    let rect = Rectangle::parse(&mut r).unwrap();
    assert_eq!(f32::from_bits(rect.0[0]), 1.5);
    assert_eq!(f32::from_bits(rect.0[3]), 32.0);
}

fn audio_bytes(source: &[u8], offset: i64, size: i64, inline: &[u8]) -> Vec<u8> {
    let mut d = aligned(b"voice");
    i32s(&mut d, &[1, 2, 44100, 16]);
    d.extend_from_slice(&2.5f32.to_bits().to_le_bytes());
    d.push(0);
    pad4(&mut d);
    i32s(&mut d, &[0]);
    d.extend_from_slice(&[1, 0, 0]);
    pad4(&mut d);
    d.extend_from_slice(&aligned(source));
    d.extend_from_slice(&offset.to_le_bytes());
    d.extend_from_slice(&size.to_le_bytes());
    i32s(&mut d, &[2]);
    d.extend_from_slice(inline);
    d
}

#[test]
fn audio_clip_inline_and_streamed() {
    let mut r = Reader::new(audio_bytes(b"", 0, 3, &[9, 8, 7]));
    let a = AudioClip::parse(&mut r, 0).unwrap();
    assert_eq!(a.name, "voice");
    assert_eq!(a.channels, 2);
    assert_eq!(a.frequency, 44100);
    assert_eq!(f32::from_bits(a.length), 2.5);
    assert_eq!(a.compression_format, 2);
    assert!(matches!(a.audio, AudioData::Inline(ref b) if b == &vec![9, 8, 7]));
    let mut r = Reader::new(audio_bytes(b"archive:/CAB-a/CAB-a.resource", 100, 20, &[]));
    let a = AudioClip::parse(&mut r, 0).unwrap();
    match a.audio {
        AudioData::Streaming { path, offset, size } => {
            assert_eq!(path, "archive:/CAB-a/CAB-a.resource");
            assert_eq!(offset, 100);
            assert_eq!(size, 20);
        }
        other => panic!("unexpected {:?}", other),
    }
}

fn texture_bytes(with_group_name: bool, image: &[u8]) -> Vec<u8> {
    let mut d = aligned(b"portrait");
    i32s(&mut d, &[0]);
    d.extend_from_slice(&[0, 0]);
    pad4(&mut d);
    i32s(&mut d, &[256, 128, 0, 0, 4, 1]);
    d.extend_from_slice(&[0, 0, 0]);
    if with_group_name {
        d.extend_from_slice(&5u32.to_le_bytes());
        d.extend_from_slice(b"group");
        pad4(&mut d);
    }
    d.push(0);
    pad4(&mut d);
    i32s(&mut d, &[0, 1, 2, 1, 1]);
    d.extend_from_slice(&0.0f32.to_bits().to_le_bytes());
    i32s(&mut d, &[1, 1, 1, 0, 1]);
    d.extend_from_slice(&aligned(&[]));
    d.extend_from_slice(image);
    d
}

#[test]
fn texture_with_inline_pixels() {
    let mut image = Vec::new();
    i32s(&mut image, &[4]);
    image.extend_from_slice(&[1, 2, 3, 4]);
    let mut r = Reader::new(texture_bytes(false, &image));
    let t = Texture2D::parse((2019, 4), &mut r, 0).unwrap();
    assert_eq!(t.name, "portrait");
    assert_eq!(t.width, 256);
    assert_eq!(t.height, 128);
    assert_eq!(t.format, 4);
    assert!(matches!(t.image, ImageData::Inline(ref b) if b == &vec![1, 2, 3, 4]));
}

#[test]
fn texture_of_newer_versions_has_a_group_name_and_streams() {
    let mut image = Vec::new();
    i32s(&mut image, &[0]);
    image.extend_from_slice(&64i64.to_le_bytes());
    image.extend_from_slice(&16u32.to_le_bytes());
    image.extend_from_slice(&aligned(b"archive:/CAB-t/CAB-t.resS"));
    let mut r = Reader::new(texture_bytes(true, &image));
    let t = Texture2D::parse((2022, 3), &mut r, 0).unwrap();
    match t.image {
        ImageData::Streaming { path, offset, size } => {
            assert_eq!(path, "archive:/CAB-t/CAB-t.resS");
            assert_eq!(offset, 64);
            assert_eq!(size, 16);
        }
        other => panic!("unexpected {:?}", other),
    }
}

#[test]
fn truncated_sprite_is_an_error() {
    let mut d = aligned(b"icon");
    d.extend_from_slice(&[0; 8]);
    let mut r = Reader::new(d);
    assert_eq!(Sprite::parse(&mut r, 0).unwrap_err(), UnpackError::UnexpectedEof);
}

fn node(level: u8, typename: &str, name: &str, byte_size: i32, meta_flag: i32) -> TypeTreeNode {
    TypeTreeNode { level, typename: typename.to_string(), name: name.to_string(), byte_size, meta_flag }
}

#[test]
fn script_object_with_type_tree_is_named_by_its_field() {
    let nodes = vec![
        node(0, "MonoBehaviour", "Base", -1, 0),
        node(1, "string", "m_Name", -1, 0x4000),
        node(1, "int", "m_Count", 4, 0),
    ];
    let mut d = vec![0; 4];
    d.extend_from_slice(&aligned(b"gacha_table"));
    i32s(&mut d, &[42]);
    let mut r = Reader::new(d);
    let m = MonoBehaviour::parse(&nodes, &mut r, 4, 0).unwrap();
    assert_eq!(m.name, "gacha_table");
    assert_eq!(
        m.data,
        JsonValue::Object(vec![
            ("m_Name".to_string(), JsonValue::String("gacha_table".to_string())),
            ("m_Count".to_string(), JsonValue::Int(42)),
        ])
    );
}

#[test]
fn script_object_without_text_name_has_an_empty_name() {
    let nodes = vec![node(0, "MonoBehaviour", "Base", -1, 0), node(1, "int", "m_Name", 4, 0)];
    let mut r = Reader::new(7i32.to_le_bytes().to_vec());
    let m = MonoBehaviour::parse(&nodes, &mut r, 0, 0).unwrap();
    assert_eq!(m.name, "");
}

#[test]
fn script_object_without_type_tree_is_read_to_its_end() {
    let mut d = Vec::new();
    i32s(&mut d, &[0]);
    d.extend_from_slice(&1i64.to_le_bytes());
    d.extend_from_slice(&[1, 0, 0, 0]);
    i32s(&mut d, &[0]);
    d.extend_from_slice(&2i64.to_le_bytes());
    d.extend_from_slice(&aligned(b"plain"));
    let named_end = d.len() as u32;
    d.extend_from_slice(&[5; 6]);
    let mut r = Reader::new(d.clone());
    let m = MonoBehaviour::parse(&[], &mut r, 0, named_end + 6).unwrap();
    assert_eq!(m.name, "plain");
    assert_eq!(m.data, JsonValue::Null);
    assert_eq!(r.stream_position(), (named_end + 6) as u64);
    let mut r = Reader::new(d.clone());
    assert_eq!(MonoBehaviour::parse(&[], &mut r, 0, named_end - 1).unwrap_err(), UnpackError::ObjectOutOfRange);
    let mut r = Reader::new(d);
    assert_eq!(MonoBehaviour::parse(&[], &mut r, 0, named_end + 7).unwrap_err(), UnpackError::UnexpectedEof);
}

#[test]
fn group_name_is_read_from_engine_2022_2_on() {
    let mut image = Vec::new();
    i32s(&mut image, &[2]);
    image.extend_from_slice(&[7, 8]);
    let old = texture_bytes(false, &image);
    for version in [(2021, 3), (2022, 1), (5, 6)] {
        let mut r = Reader::new(old.clone());
        let t = Texture2D::parse(version, &mut r, 0).unwrap();
        assert!(matches!(t.image, ImageData::Inline(ref b) if b == &vec![7, 8]));
    }
    let new = texture_bytes(true, &image);
    for version in [(2022, 2), (2022, 5), (2024, 0)] {
        let mut r = Reader::new(new.clone());
        let t = Texture2D::parse(version, &mut r, 0).unwrap();
        assert_eq!(t.width, 256);
        assert!(matches!(t.image, ImageData::Inline(ref b) if b == &vec![7, 8]));
    }
}
