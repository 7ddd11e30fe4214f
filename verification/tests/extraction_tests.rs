use ak_assets::error::UnpackError;
use ak_assets::unpacker::bundle::block::{BlockInfo, DirectoryNode};
use ak_assets::unpacker::bundle::extraction::{
    bundle_dir_name, decimal, find_node, mono_file_name, object_offset, uses_subdirectory, Extraction,
};
use ak_assets::unpacker::bundle::header::BundleHeader;
use ak_assets::unpacker::bundle::read::Reader;
use ak_assets::unpacker::bundle::serialized::{ObjectData, SerializedFile};
use ak_assets::unpacker::bundle::UnityBundle;

fn file_with(objects: Vec<ObjectData>, node_offset: u64, data_offset: i64) -> SerializedFile {
    SerializedFile {
        name: "CAB-f".to_string(),
        node_offset,
        metadata_size: 0,
        file_size: 0,
        version: 22,
        data_offset,
        endianness: 0,
        objects,
        types: Vec::new(),
        externals: Vec::new(),
    }
}

fn object(class_id: i32, byte_start: i64) -> ObjectData {
    ObjectData { unity_version: (2019, 4), path_id: 1, byte_start, byte_size: 0, class_id, type_id: 0 }
}

fn bundle_with(nodes: Vec<DirectoryNode>) -> UnityBundle {
    UnityBundle {
        header: BundleHeader {
            format_version: 6,
            unity_version_min: "5.x.x".to_string(),
            unity_version_built: "2019.4.34f1".to_string(),
            file_size: 0,
            compressed_blocks_size: 0,
            decompressed_blocks_size: 0,
            flags: 0,
        },
        info: BlockInfo { blocks: Vec::new(), nodes },
    }
}

fn dir_node(offset: u64, name: &str) -> DirectoryNode {
    DirectoryNode { offset, size: 0, flags: 4, name: name.to_string() }
}

fn aligned(bytes: &[u8]) -> Vec<u8> {
    let mut v = (bytes.len() as u32).to_le_bytes().to_vec();
    v.extend_from_slice(bytes);
    while v.len() % 4 != 0 {
        v.push(0);
    }
    v
}

#[test]
fn numbers_are_written_in_decimal() {
    assert_eq!(decimal(0), "0");
    assert_eq!(decimal(7), "7");
    assert_eq!(decimal(10), "10");
    assert_eq!(decimal(4096), "4096");
    assert_eq!(decimal(usize::MAX), usize::MAX.to_string());
}

#[test]
fn unnamed_script_objects_are_named_by_index() {
    assert_eq!(mono_file_name(&String::new(), 12), "mono12");
    assert_eq!(mono_file_name(&"character_table".to_string(), 12), "character_table");
    assert!(!mono_file_name(&String::new(), 0).is_empty());
}

#[test]
fn object_offset_adds_the_three_parts() {
    let f = file_with(Vec::new(), 100, 20);
    assert_eq!(object_offset(&f, &object(49, 3)), Some(123));
    assert_eq!(object_offset(&f, &object(49, -200)), None);
    let far = file_with(Vec::new(), u64::MAX, 1);
    assert_eq!(object_offset(&far, &object(49, 0)), None);
    assert_eq!(object_offset(&far, &object(49, -1)), Some(u64::MAX));
}

#[test]
fn first_node_of_a_name_is_found() {
    let nodes = vec![dir_node(10, "a.resS"), dir_node(20, "b.resS"), dir_node(30, "a.resS")];
    assert_eq!(find_node(&nodes, "a.resS"), Some(10));
    assert_eq!(find_node(&nodes, "b.resS"), Some(20));
    assert_eq!(find_node(&nodes, "c.resS"), None);
}

#[test]
fn subdirectory_only_for_several_objects() {
    assert!(!uses_subdirectory(&vec![]));
    assert!(!uses_subdirectory(&vec![file_with(vec![object(49, 0)], 0, 0), file_with(vec![], 0, 0)]));
    assert!(uses_subdirectory(&vec![file_with(vec![object(49, 0)], 0, 0), file_with(vec![object(49, 0)], 0, 0)]));
    assert_eq!(bundle_dir_name("/data/tmp/char_002_amiya.ab"), "char_002_amiya");
    assert_eq!(bundle_dir_name("/"), "bundle");
}

#[test]
fn unknown_classes_yield_nothing() {
    let bundle = bundle_with(Vec::new());
    let f = file_with(vec![object(1, 0)], 0, 0);
    let mut r = Reader::new(Vec::new());
    assert!(matches!(bundle.extract_object(&mut r, &f, &f.objects[0], 0), Ok(Extraction::Skip)));
    let mut r = Reader::new(Vec::new());
    assert!(matches!(bundle.extract_object(&mut r, &f, &object(49, -5), 0), Err(UnpackError::ObjectOutOfRange)));
}

fn streamed_audio(source: &str, offset: i64, size: i64) -> Vec<u8> {
    let mut d = aligned(b"bgm");
    for x in [1i32, 2, 48000, 16] {
        d.extend_from_slice(&x.to_le_bytes());
    }
    d.extend_from_slice(&1.0f32.to_bits().to_le_bytes());
    d.extend_from_slice(&[0, 0, 0, 0]);
    d.extend_from_slice(&0i32.to_le_bytes());
    d.extend_from_slice(&[0, 0, 0, 0]);
    d.extend_from_slice(&aligned(source.as_bytes()));
    d.extend_from_slice(&offset.to_le_bytes());
    d.extend_from_slice(&size.to_le_bytes());
    d.extend_from_slice(&2i32.to_le_bytes());
    d
}

#[test]
fn streamed_audio_is_read_from_its_resource_node() {
    let mut d = streamed_audio("archive:/CAB-m/CAB-m.resource", 2, 3);
    let res_start = d.len() as u64;
    d.extend_from_slice(&[0, 0, 11, 22, 33, 0]);
    let bundle = bundle_with(vec![dir_node(0, "CAB-m"), dir_node(res_start, "CAB-m.resource")]);
    let f = file_with(vec![object(83, 0)], 0, 0);
    let mut r = Reader::new(d.clone());
    match bundle.extract_object(&mut r, &f, &f.objects[0], 0) {
        Ok(Extraction::Bytes { name, data }) => {
            assert_eq!(name, "bgm");
            assert_eq!(data, vec![11, 22, 33]);
        }
        other => panic!("unexpected {:?}", other),
    }
    let missing = bundle_with(vec![dir_node(0, "CAB-m")]);
    let mut r = Reader::new(d.clone());
    assert!(matches!(missing.extract_object(&mut r, &f, &f.objects[0], 0), Err(UnpackError::MissingResourceNode)));
    let mut short = streamed_audio("CAB-m.resource", 5, 3);
    let start = short.len() as u64;
    short.extend_from_slice(&[1, 2, 3, 4]);
    let bundle = bundle_with(vec![dir_node(start, "CAB-m.resource")]);
    let mut r = Reader::new(short);
    assert!(matches!(bundle.extract_object(&mut r, &f, &f.objects[0], 0), Err(UnpackError::UnexpectedEof)));
}
