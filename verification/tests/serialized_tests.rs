use ak_assets::error::UnpackError;
use ak_assets::unpacker::bundle::read::Reader;
use ak_assets::unpacker::bundle::serialized::{common_string, resolve_str, unity_version, SerializedFile};

/// A version 22 file with one type whose tree has one node naming itself by
/// `name_offset`, and one object of type `type_id`.
fn small_file(version: &[u8], name_offset: u32, type_id: i32) -> Vec<u8> {
    let mut f = Vec::new();
    for v in [0u32, 0, 22, 0] {
        f.extend_from_slice(&v.to_be_bytes());
    }
    f.extend_from_slice(&[0, 0, 0, 0]);
    f.extend_from_slice(&0u32.to_be_bytes());
    f.extend_from_slice(&0i64.to_be_bytes());
    f.extend_from_slice(&0i64.to_be_bytes());
    f.extend_from_slice(&[0; 8]);
    f.extend_from_slice(version);
    f.push(0);
    f.extend_from_slice(&0i32.to_le_bytes());
    f.push(1);
    f.extend_from_slice(&1i32.to_le_bytes());
    f.extend_from_slice(&49i32.to_le_bytes());
    f.push(0);
    f.extend_from_slice(&0i16.to_le_bytes());
    f.extend_from_slice(&[0; 16]);
    let strings = b"T\0";
    f.extend_from_slice(&1u32.to_le_bytes());
    f.extend_from_slice(&(strings.len() as u32).to_le_bytes());
    f.extend_from_slice(&1u16.to_le_bytes());
    f.push(0);
    f.push(0);
    f.extend_from_slice(&0u32.to_le_bytes());
    f.extend_from_slice(&name_offset.to_le_bytes());
    f.extend_from_slice(&(-1i32).to_le_bytes());
    f.extend_from_slice(&0i32.to_le_bytes());
    f.extend_from_slice(&0i32.to_le_bytes());
    f.extend_from_slice(&0u64.to_le_bytes());
    f.extend_from_slice(strings);
    f.extend_from_slice(&0i32.to_le_bytes());
    f.extend_from_slice(&1i32.to_le_bytes());
    let base = 48;
    while (f.len() - base) % 4 != 0 {
        f.push(0);
    }
    f.extend_from_slice(&1i64.to_le_bytes());
    f.extend_from_slice(&0i64.to_le_bytes());
    f.extend_from_slice(&0u32.to_le_bytes());
    f.extend_from_slice(&type_id.to_le_bytes());
    f.extend_from_slice(&0i32.to_le_bytes());
    f.extend_from_slice(&0i32.to_le_bytes());
    f
}

#[test]
fn small_file_is_read() {
    let mut r = Reader::new(small_file(b"2021.3.1f1", 0, 0));
    let f = SerializedFile::parse("CAB-s", &mut r, 0, 0).unwrap();
    assert_eq!(f.objects.len(), 1);
    assert_eq!(f.objects[0].unity_version, (2021, 3));
    assert_eq!(f.types[0].nodes[0].name, "T");
    assert_eq!(f.externals.len(), 0);
}

#[test]
fn version_without_numbers_is_refused() {
    let mut r = Reader::new(small_file(b"unknown", 0, 0));
    assert_eq!(SerializedFile::parse("CAB-s", &mut r, 0, 0).unwrap_err(), UnpackError::BadUnityVersion);
}

#[test]
fn string_offset_past_the_buffer_is_refused() {
    let mut r = Reader::new(small_file(b"2021.3.1f1", 9, 0));
    assert_eq!(SerializedFile::parse("CAB-s", &mut r, 0, 0).unwrap_err(), UnpackError::StringOffsetOutOfBounds);
}

#[test]
fn object_of_an_unknown_type_is_refused() {
    let mut r = Reader::new(small_file(b"2021.3.1f1", 0, 3));
    assert_eq!(
        SerializedFile::parse("CAB-s", &mut r, 0, 0).unwrap_err(),
        UnpackError::TypeIdOutOfBounds { type_id: 3, total: 1 }
    );
    let mut r = Reader::new(small_file(b"2021.3.1f1", 0, -1));
    assert_eq!(
        SerializedFile::parse("CAB-s", &mut r, 0, 0).unwrap_err(),
        UnpackError::TypeIdOutOfBounds { type_id: -1, total: 1 }
    );
}

#[test]
fn type_tree_strings_are_resolved() {
    assert_eq!(common_string(0), "AABB");
    assert_eq!(resolve_str(0x8000_0000, b""), "AABB");
    assert_eq!(resolve_str(2, b"ab\0cd\0"), "");
    assert_eq!(resolve_str(3, b"ab\0cd\0"), "cd");
    assert_eq!(resolve_str(4, b"ab\0cd"), "d");
    assert_eq!(resolve_str(5, b"ab\0cd"), "");
}

#[test]
fn engine_versions_are_major_and_minor() {
    assert_eq!(unity_version(b"2019.4.34f1"), Some((2019, 4)));
    assert_eq!(unity_version(b"5.6"), Some((5, 6)));
    assert_eq!(unity_version(b"2019"), None);
    assert_eq!(unity_version(b"x.4.1"), None);
}

#[test]
fn common_names_start_after_each_terminator() {
    assert_eq!(common_string(5), "AnimationClip");
    assert_eq!(common_string(19), "AnimationCurve");
    assert_eq!(common_string(1161), "Hash128");
    assert_eq!(common_string(1), "");
    assert_eq!(common_string(4), "");
    assert_eq!(common_string(1169), "");
}
