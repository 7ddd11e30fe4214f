use ak_assets::error::UnpackError;
use ak_assets::unpacker::bundle::extraction::object_at;
use ak_assets::unpacker::bundle::serialized::{ObjectData, SerializedFile};
use ak_assets::unpacker::extract::archive_outputs;
use std::io::{Cursor, Write};
use zip::write::SimpleFileOptions;
use zip::{CompressionMethod, ZipWriter};

fn zip_of(entries: &[(&str, Option<&[u8]>)]) -> Vec<u8> {
    let mut w = ZipWriter::new(Cursor::new(Vec::new()));
    let options = SimpleFileOptions::default().compression_method(CompressionMethod::Stored);
    for (name, data) in entries {
        match data {
            Some(bytes) => {
                w.start_file(name.to_string(), options).unwrap();
                w.write_all(bytes).unwrap();
            }
            None => {
                w.add_directory(name.to_string(), options).unwrap();
            }
        }
    }
    w.finish().unwrap().into_inner()
}

#[test]
fn archive_entries_are_extracted_in_order() {
    let bytes = zip_of(&[("dir/", None), ("dir/a.ab", Some(b"first")), ("b.ab", Some(b"second"))]);
    let out = archive_outputs("in/pack.ab", &bytes, false);
    assert_eq!(out.error, None);
    assert_eq!(
        out.files,
        vec![("dir/a.ab".to_string(), b"first".to_vec()), ("b.ab".to_string(), b"second".to_vec())]
    );
}

#[test]
fn index_archives_extract_under_their_own_name() {
    let bytes = zip_of(&[("x", Some(b"1")), ("y/", None)]);
    let out = archive_outputs("in/files.idx", &bytes, true);
    assert_eq!(out.error, None);
    assert_eq!(out.files, vec![("files.idx".to_string(), b"1".to_vec())]);
    let out = archive_outputs("/", &bytes, true);
    assert_eq!(out.error, Some(UnpackError::NoFileName));
    assert_eq!(out.files.len(), 0);
    let only_dirs = zip_of(&[("y/", None)]);
    assert_eq!(archive_outputs("/", &only_dirs, true).error, None);
}

#[test]
fn unreadable_archives_and_entries_are_errors() {
    let out = archive_outputs("in/x.ab", b"not a zip archive", false);
    assert_eq!(out.error, Some(UnpackError::ZipArchive));
    let mut bytes = zip_of(&[("a", Some(b"good")), ("b", Some(b"hello"))]);
    let at = bytes.windows(5).position(|w| w == b"hello").unwrap();
    bytes[at] = b'j';
    let out = archive_outputs("in/x.ab", &bytes, false);
    assert_eq!(out.files, vec![("a".to_string(), b"good".to_vec())]);
    assert_eq!(out.error, Some(UnpackError::ZipEntry));
}

fn file_of(n: usize) -> SerializedFile {
    let obj = ObjectData { unity_version: (2019, 4), path_id: 0, byte_start: 0, byte_size: 0, class_id: 49, type_id: 0 };
    SerializedFile {
        name: "f".to_string(),
        node_offset: 0,
        metadata_size: 0,
        file_size: 0,
        version: 22,
        data_offset: 0,
        endianness: 0,
        objects: vec![obj; n],
        types: Vec::new(),
        externals: Vec::new(),
    }
}

#[test]
fn objects_are_numbered_across_files() {
    let files = vec![file_of(2), file_of(0), file_of(3)];
    assert_eq!(object_at(&files, 0), Some((0, 0)));
    assert_eq!(object_at(&files, 1), Some((0, 1)));
    assert_eq!(object_at(&files, 2), Some((2, 0)));
    assert_eq!(object_at(&files, 4), Some((2, 2)));
    assert_eq!(object_at(&files, 5), None);
}
