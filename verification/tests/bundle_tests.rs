use ak_assets::error::UnpackError;
use ak_assets::unpacker::bundle::block::BlockInfo;
use ak_assets::unpacker::bundle::extraction::{uses_subdirectory, Extraction};
use ak_assets::unpacker::bundle::header::BundleHeader;
use ak_assets::unpacker::bundle::read::Reader;
use ak_assets::unpacker::bundle::serialized::SerializedFile;
use ak_assets::unpacker::bundle::typetree::JsonValue;
use ak_assets::unpacker::bundle::{contains_dot, parse_header, UnityBundle};

fn be32(v: u32) -> [u8; 4] {
    v.to_be_bytes()
}

fn header_bytes(sig: &[u8], csize: u32, dsize: u32, flags: u32, file_size: i64) -> Vec<u8> {
    let mut h = Vec::new();
    h.extend_from_slice(sig);
    h.push(0);
    h.extend_from_slice(&be32(6));
    h.extend_from_slice(b"5.x.x\0");
    h.extend_from_slice(b"2019.4.34f1\0");
    h.extend_from_slice(&file_size.to_be_bytes());
    h.extend_from_slice(&be32(csize));
    h.extend_from_slice(&be32(dsize));
    h.extend_from_slice(&be32(flags));
    h
}

/// A block table: (decompressed size, compressed size, flags) per block,
/// (offset, size, name) per node.
fn table_bytes(blocks: &[(u32, u32, u16)], nodes: &[(u64, u64, &str)]) -> Vec<u8> {
    let mut t = vec![0u8; 16];
    t.extend_from_slice(&be32(blocks.len() as u32));
    for (d, c, f) in blocks {
        t.extend_from_slice(&be32(*d));
        t.extend_from_slice(&be32(*c));
        t.extend_from_slice(&f.to_be_bytes());
    }
    t.extend_from_slice(&be32(nodes.len() as u32));
    for (o, s, n) in nodes {
        t.extend_from_slice(&o.to_be_bytes());
        t.extend_from_slice(&s.to_be_bytes());
        t.extend_from_slice(&be32(4));
        t.extend_from_slice(n.as_bytes());
        t.push(0);
    }
    t
}

/// A whole bundle: header, block table (LZ4) at the next multiple of 16,
/// then the raw blocks.
fn bundle_bytes(blocks: &[(u32, u16, Vec<u8>)], nodes: &[(u64, u64, &str)]) -> Vec<u8> {
    let spec: Vec<(u32, u32, u16)> = blocks.iter().map(|(d, f, raw)| (*d, raw.len() as u32, *f)).collect();
    let table = table_bytes(&spec, nodes);
    let compressed = lz4_flex::block::compress(&table);
    let mut out = header_bytes(b"UnityFS", compressed.len() as u32, table.len() as u32, 0, 0);
    while out.len() % 16 != 0 {
        out.push(0);
    }
    out.extend_from_slice(&compressed);
    for (_, _, raw) in blocks {
        out.extend_from_slice(raw);
    }
    out
}

#[test]
fn header_is_read_in_big_endian() {
    let bytes = header_bytes(b"UnityFS", 10, 20, 0x43, 1234);
    let mut r = Reader::new(bytes.clone());
    let h = parse_header(&mut r).unwrap();
    assert_eq!(h.format_version, 6);
    assert_eq!(h.unity_version_min, "5.x.x");
    assert_eq!(h.unity_version_built, "2019.4.34f1");
    assert_eq!(h.file_size, 1234);
    assert_eq!(h.compressed_blocks_size, 10);
    assert_eq!(h.decompressed_blocks_size, 20);
    assert_eq!(h.flags, 0x43);
    assert_eq!(r.stream_position(), bytes.len() as u64);
    let mut r = Reader::new(bytes);
    let h2 = BundleHeader::parse(&mut r).unwrap();
    assert_eq!(h2.file_size, 1234);
}

#[test]
fn other_signatures_are_refused() {
    let mut r = Reader::new(header_bytes(b"UnityWeb", 0, 0, 0, 0));
    assert_eq!(parse_header(&mut r).unwrap_err(), UnpackError::NotUnityFs);
    let mut r = Reader::new(b"UnityFS\0".to_vec());
    assert_eq!(parse_header(&mut r).unwrap_err(), UnpackError::UnexpectedEof);
}

#[test]
fn block_table_is_decoded() {
    let table = table_bytes(&[(100, 60, 2), (7, 7, 0)], &[(0, 50, "CAB-one"), (50, 57, "CAB-one.resS")]);
    let info = BlockInfo::parse_table(table).unwrap();
    assert_eq!(info.blocks.len(), 2);
    assert_eq!(info.blocks[0].decompressed_size, 100);
    assert_eq!(info.blocks[0].compressed_size, 60);
    assert_eq!(info.blocks[0].flags, 2);
    assert_eq!(info.blocks[1].flags, 0);
    assert_eq!(info.nodes.len(), 2);
    assert_eq!(info.nodes[1].offset, 50);
    assert_eq!(info.nodes[1].size, 57);
    assert_eq!(info.nodes[1].flags, 4);
    assert_eq!(info.nodes[1].name, "CAB-one.resS");
}

#[test]
fn blocks_of_every_kind_are_decompressed_in_order() {
    let stored = b"stored!".to_vec();
    let plain: Vec<u8> = b"lz4 block, lz4 block, lz4 block".to_vec();
    let lz4 = lz4_flex::block::compress(&plain);
    let inv = vec![3, b'i', b'n', b'v'];
    let bytes = bundle_bytes(
        &[(7, 0, stored.clone()), (plain.len() as u32, 2, lz4.clone()), (3, 4, inv)],
        &[(0, 41, "CAB-x.resS")],
    );
    let mut r = Reader::new(bytes);
    let bundle = UnityBundle::parse(&mut r).unwrap();
    assert_eq!(bundle.info.blocks.len(), 3);
    assert_eq!(bundle.info.nodes[0].name, "CAB-x.resS");
    let mut out = Vec::new();
    let n = bundle.decompress(&mut r, &mut out).unwrap();
    let mut expected = stored;
    expected.extend_from_slice(&plain);
    expected.extend_from_slice(b"inv");
    assert_eq!(n, expected.len());
    assert_eq!(out, expected);
}

#[test]
fn stored_blocks_are_copied_unchanged() {
    let bytes = bundle_bytes(&[(3, 0, vec![1, 2, 3]), (2, 0, vec![4, 5])], &[]);
    let mut r = Reader::new(bytes);
    let bundle = UnityBundle::parse(&mut r).unwrap();
    let mut out = vec![9];
    assert_eq!(bundle.info.decompress(&mut r, &mut out, &bundle.header), Ok(5));
    assert_eq!(out, vec![9, 1, 2, 3, 4, 5]);
}

#[test]
fn unknown_compression_is_refused() {
    let bytes = bundle_bytes(&[(1, 0, vec![1]), (2, 5, vec![4, 5])], &[]);
    let mut r = Reader::new(bytes);
    let bundle = UnityBundle::parse(&mut r).unwrap();
    let mut out = Vec::new();
    assert_eq!(bundle.decompress(&mut r, &mut out), Err(UnpackError::UnsupportedCompression(5)));
    assert_eq!(out, vec![1]);
}

#[test]
fn bad_lz4_block_is_an_error() {
    let bytes = bundle_bytes(&[(10, 2, vec![0xF0])], &[]);
    let mut r = Reader::new(bytes);
    let bundle = UnityBundle::parse(&mut r).unwrap();
    let mut out = Vec::new();
    assert_eq!(bundle.decompress(&mut r, &mut out), Err(UnpackError::Lz4Block));
}

#[test]
fn resource_entries_are_not_serialized_files() {
    assert!(contains_dot("CAB-1.resS"));
    assert!(!contains_dot("CAB-1"));
    let bytes = bundle_bytes(&[(2, 0, vec![0, 0])], &[(0, 1, "a.resS"), (1, 1, "b.resource")]);
    let mut r = Reader::new(bytes);
    let bundle = UnityBundle::parse(&mut r).unwrap();
    let mut out = Vec::new();
    bundle.decompress(&mut r, &mut out).unwrap();
    let mut dec = Reader::new(out);
    let files = bundle.get_serialized(&mut dec).unwrap();
    assert_eq!(files.len(), 0);
}

fn le32(v: i32) -> [u8; 4] {
    v.to_le_bytes()
}

/// A serialized file of version 22 with a text type (with a type tree) and
/// a script type (without one), two objects and one external; the object
/// data starts at `data_offset`.
fn serialized_bytes(data_offset: i64, text_start: i64, mono_start: i64, mono_size: u32) -> Vec<u8> {
    let mut f = Vec::new();
    f.extend_from_slice(&be32(0));
    f.extend_from_slice(&be32(0));
    f.extend_from_slice(&be32(22));
    f.extend_from_slice(&be32(0));
    f.extend_from_slice(&[0, 0, 0, 0]);
    f.extend_from_slice(&be32(77));
    f.extend_from_slice(&1000i64.to_be_bytes());
    f.extend_from_slice(&data_offset.to_be_bytes());
    f.extend_from_slice(&[0; 8]);
    let base = f.len();
    f.extend_from_slice(b"2019.4.34f1\0");
    f.extend_from_slice(&le32(13));
    f.push(1);
    f.extend_from_slice(&le32(2));
    // type 0: a text asset with a type tree of three nodes
    f.extend_from_slice(&le32(49));
    f.push(0);
    f.extend_from_slice(&(-1i16).to_le_bytes());
    f.extend_from_slice(&[0; 16]);
    let strings = b"TextAsset\0string\0m_Name\0m_Script\0";
    f.extend_from_slice(&3u32.to_le_bytes());
    f.extend_from_slice(&(strings.len() as u32).to_le_bytes());
    let nodes: [(u8, u32, u32, i32, i32); 3] = [
        (0, 0, 0x8000_0000, -1, 0),
        (1, 10, 17, -1, 0x4000),
        (1, 10, 24, -1, 0x4000),
    ];
    for (level, ts, ns, size, meta) in nodes {
        f.extend_from_slice(&1u16.to_le_bytes());
        f.push(level);
        f.push(0);
        f.extend_from_slice(&ts.to_le_bytes());
        f.extend_from_slice(&ns.to_le_bytes());
        f.extend_from_slice(&le32(size));
        f.extend_from_slice(&le32(0));
        f.extend_from_slice(&le32(meta));
        f.extend_from_slice(&0u64.to_le_bytes());
    }
    f.extend_from_slice(strings);
    f.extend_from_slice(&le32(0));
    // type 1: a script without a type tree
    f.extend_from_slice(&le32(114));
    f.push(0);
    f.extend_from_slice(&0i16.to_le_bytes());
    f.extend_from_slice(&[0; 32]);
    f.extend_from_slice(&0u32.to_le_bytes());
    f.extend_from_slice(&0u32.to_le_bytes());
    f.extend_from_slice(&le32(0));
    // two objects
    f.extend_from_slice(&le32(2));
    for (path_id, start, size, type_id) in [(11i64, text_start, 24u32, 0i32), (12, mono_start, mono_size, 1)] {
        while (f.len() - base) % 4 != 0 {
            f.push(0);
        }
        f.extend_from_slice(&path_id.to_le_bytes());
        f.extend_from_slice(&start.to_le_bytes());
        f.extend_from_slice(&size.to_le_bytes());
        f.extend_from_slice(&le32(type_id));
    }
    // one script type, one external
    f.extend_from_slice(&le32(1));
    f.extend_from_slice(&le32(0));
    f.extend_from_slice(&5i64.to_le_bytes());
    f.extend_from_slice(&le32(1));
    f.push(0);
    f.extend_from_slice(&[0; 16]);
    f.extend_from_slice(&le32(0));
    f.extend_from_slice(b"archive:/CAB-ext/CAB-ext.resS\0");
    f
}

fn aligned(bytes: &[u8]) -> Vec<u8> {
    let mut v = (bytes.len() as u32).to_le_bytes().to_vec();
    v.extend_from_slice(bytes);
    while v.len() % 4 != 0 {
        v.push(0);
    }
    v
}

/// Decompressed data: the serialized file at 0, its objects from 512 on:
/// a text asset at 512 and a script object without type tree at 544.
fn decompressed_data() -> Vec<u8> {
    let mut d = serialized_bytes(512, 0, 32, 40);
    assert!(d.len() <= 512);
    d.resize(512, 0);
    let mut text = aligned(b"greeting");
    text.extend_from_slice(&aligned(b"hello"));
    text.resize(32, 0);
    d.extend_from_slice(&text);
    let mut mono = Vec::new();
    mono.extend_from_slice(&le32(0));
    mono.extend_from_slice(&1i64.to_le_bytes());
    mono.push(1);
    mono.extend_from_slice(&[0, 0, 0]);
    mono.extend_from_slice(&le32(0));
    mono.extend_from_slice(&2i64.to_le_bytes());
    mono.extend_from_slice(&aligned(b""));
    mono.resize(40, 7);
    d.extend_from_slice(&mono);
    d
}

#[test]
fn serialized_file_is_read_with_its_types_and_objects() {
    let d = decompressed_data();
    let mut r = Reader::new(d);
    let f = SerializedFile::parse("CAB-main", &mut r, 0, 0).unwrap();
    assert_eq!(f.name, "CAB-main");
    assert_eq!(f.version, 22);
    assert_eq!(f.metadata_size, 77);
    assert_eq!(f.file_size, 1000);
    assert_eq!(f.data_offset, 512);
    assert_eq!(f.endianness, 0);
    assert_eq!(f.types.len(), 2);
    assert_eq!(f.types[0].class_id, 49);
    assert_eq!(f.types[0].nodes.len(), 3);
    assert_eq!(f.types[0].nodes[0].typename, "TextAsset");
    assert_eq!(f.types[0].nodes[0].name, "AABB");
    assert_eq!(f.types[0].nodes[1].typename, "string");
    assert_eq!(f.types[0].nodes[1].name, "m_Name");
    assert_eq!(f.types[0].nodes[2].name, "m_Script");
    assert_eq!(f.types[0].nodes[2].meta_flag, 0x4000);
    assert_eq!(f.types[1].class_id, 114);
    assert_eq!(f.types[1].nodes.len(), 0);
    assert_eq!(f.objects.len(), 2);
    assert_eq!(f.objects[0].path_id, 11);
    assert_eq!(f.objects[0].class_id, 49);
    assert_eq!(f.objects[0].unity_version, (2019, 4));
    assert_eq!(f.objects[1].byte_start, 32);
    assert_eq!(f.objects[1].byte_size, 40);
    assert_eq!(f.objects[1].class_id, 114);
    assert_eq!(f.objects[1].type_id, 1);
    assert_eq!(f.externals, vec!["CAB-ext".to_string()]);
    assert_eq!(f.type_nodes(0).len(), 3);
    assert_eq!(f.type_nodes(5).len(), 0);
}

#[test]
fn old_serialized_files_stop_after_the_header() {
    let mut d = Vec::new();
    d.extend_from_slice(&be32(1));
    d.extend_from_slice(&be32(2));
    d.extend_from_slice(&be32(8));
    d.extend_from_slice(&be32(3));
    let mut r = Reader::new(d);
    let f = SerializedFile::parse("old", &mut r, 0, 0).unwrap();
    assert_eq!(f.version, 8);
    assert_eq!(f.data_offset, 3);
    assert_eq!(f.objects.len(), 0);
}

#[test]
fn whole_bundle_is_unpacked_to_its_objects() {
    let d = decompressed_data();
    let len = d.len() as u64;
    let bytes = bundle_bytes(&[(d.len() as u32, 0, d)], &[(0, len, "CAB-main")]);
    let mut r = Reader::new(bytes);
    let bundle = UnityBundle::parse(&mut r).unwrap();
    let mut out = Vec::new();
    bundle.decompress(&mut r, &mut out).unwrap();
    let mut dec = Reader::new(out);
    let files = bundle.get_serialized(&mut dec).unwrap();
    assert_eq!(files.len(), 1);
    assert!(uses_subdirectory(&files));
    let extracted = bundle.extract_objects(&mut dec, &files);
    assert_eq!(extracted.error, None);
    assert_eq!(extracted.items.len(), 2);
    match &extracted.items[0] {
        Extraction::Bytes { name, data } => {
            assert_eq!(name, "greeting");
            assert_eq!(data, b"hello");
        }
        other => panic!("unexpected {:?}", other),
    }
    match &extracted.items[1] {
        Extraction::Json { name, value } => {
            assert_eq!(name, "mono1");
            assert_eq!(value, &JsonValue::Null);
        }
        other => panic!("unexpected {:?}", other),
    }
}

#[test]
fn extraction_stops_at_the_first_failing_object() {
    let mut d = decompressed_data();
    d.truncate(512 + 32 + 10);
    let len = d.len() as u64;
    let bytes = bundle_bytes(&[(d.len() as u32, 0, d)], &[(0, len, "CAB-main")]);
    let mut r = Reader::new(bytes);
    let bundle = UnityBundle::parse(&mut r).unwrap();
    let mut out = Vec::new();
    bundle.decompress(&mut r, &mut out).unwrap();
    let mut dec = Reader::new(out);
    let files = bundle.get_serialized(&mut dec).unwrap();
    let extracted = bundle.extract_objects(&mut dec, &files);
    assert_eq!(extracted.items.len(), 1);
    assert_eq!(extracted.error, Some(UnpackError::UnexpectedEof));
}

#[test]
fn large_lz4_block_is_decoded() {
    let mut x: u32 = 0x1234_5678;
    let plain: Vec<u8> = (0..17_000_000u32)
        .map(|_| {
            x ^= x << 13;
            x ^= x >> 17;
            x ^= x << 5;
            x as u8
        })
        .collect();
    let packed = lz4_flex::block::compress(&plain);
    assert!(packed.len() >= 0x0101_0101);
    let bytes = bundle_bytes(&[(plain.len() as u32, 2, packed)], &[]);
    let mut r = Reader::new(bytes);
    let bundle = UnityBundle::parse(&mut r).unwrap();
    let mut out = Vec::new();
    assert_eq!(bundle.decompress(&mut r, &mut out), Ok(plain.len()));
    assert!(out == plain);
}

#[test]
fn overflowing_length_extension_is_refused() {
    let mut block = vec![0xF0u8];
    block.extend(std::iter::repeat(0xFFu8).take(0x0101_0101));
    block.push(1);
    let bytes = bundle_bytes(&[(16, 2, block)], &[]);
    let mut r = Reader::new(bytes);
    let bundle = UnityBundle::parse(&mut r).unwrap();
    let mut out = Vec::new();
    assert_eq!(bundle.decompress(&mut r, &mut out), Err(UnpackError::Lz4LengthOverflow));
    // the same run ending in a zero sums to exactly u32::MAX, which lz4_flex
    // counts without overflow; the literals then run past the input
    let mut exact = vec![0xF0u8];
    exact.extend(std::iter::repeat(0xFFu8).take(0x0101_0101));
    exact.push(0);
    let bytes = bundle_bytes(&[(16, 2, exact)], &[]);
    let mut r = Reader::new(bytes);
    let bundle = UnityBundle::parse(&mut r).unwrap();
    let mut out = Vec::new();
    assert_eq!(bundle.decompress(&mut r, &mut out), Err(UnpackError::Lz4Block));
}

#[test]
fn long_run_of_ff_in_literals_is_decoded() {
    let n: usize = 0x0101_0101 + 5;
    let mut block = vec![0xF0u8];
    block.extend(std::iter::repeat(0xFFu8).take((n - 15) / 255));
    block.push(((n - 15) % 255) as u8);
    block.extend(std::iter::repeat(0xFFu8).take(n));
    let bytes = bundle_bytes(&[(n as u32, 2, block)], &[]);
    let mut r = Reader::new(bytes);
    let bundle = UnityBundle::parse(&mut r).unwrap();
    let mut out = Vec::new();
    assert_eq!(bundle.decompress(&mut r, &mut out), Ok(n));
    assert!(out.len() == n && out.iter().all(|&b| b == 0xFF));
}

#[test]
fn header_reads_the_same_wherever_it_starts() {
    let header = header_bytes(b"UnityFS", 7, 9, 0x200, 99);
    let mut shifted = vec![0xEE; 13];
    shifted.extend_from_slice(&header);
    let mut r1 = Reader::new(header.clone());
    let mut r2 = Reader::new(shifted);
    r2.seek_start(13);
    let h1 = BundleHeader::parse(&mut r1).unwrap();
    let h2 = parse_header(&mut r2).unwrap();
    assert_eq!(h1.unity_version_built, h2.unity_version_built);
    assert_eq!((h1.file_size, h1.flags, h1.compressed_blocks_size), (h2.file_size, h2.flags, h2.compressed_blocks_size));
    assert_eq!(r2.stream_position() - 13, r1.stream_position());
}
