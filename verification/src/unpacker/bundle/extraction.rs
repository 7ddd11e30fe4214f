//! What each object of a bundle yields for the output directory: the
//! decision that the unpacker makes per object, apart from writing files.

use vstd::prelude::*;

use crate::error::UnpackError;
use vstd::string::{StrSliceExecFns, StringExecFns};
use super::UnityBundle;
use super::read::{Reader, spec_take, string_is};
use super::block::{DirectoryNode, DirectoryNodeView};
use super::serialized::{SerializedFile, SerializedFileView, ObjectData, TypeTreeNodeView, file_stem_of, path_file_stem};
use super::typetree::{JsonValue, JsonView};
use super::asset::texture::{Texture2D, Texture2DView, ImageData, ImageDataView, spec_texture};
use super::asset::text::{TextAsset, spec_text_asset};
use super::asset::audio::{AudioClip, AudioClipView, AudioData, AudioDataView, spec_audio_clip};
use super::asset::mono::{MonoBehaviour, spec_mono};
use super::asset::sprite::{Sprite, spec_sprite};

verus! {

/// Class id of a texture.
pub const CLASS_TEXTURE: i32 = 28;
/// Class id of a text asset.
pub const CLASS_TEXT: i32 = 49;
/// Class id of an audio clip.
pub const CLASS_AUDIO: i32 = 83;
/// Class id of a script object.
pub const CLASS_MONO: i32 = 114;
/// Class id of a sprite.
pub const CLASS_SPRITE: i32 = 213;

/// What one object yields.
#[derive(Debug)]
pub enum Extraction {
    /// Bytes to be written to a file of this name.
    Bytes { name: String, data: Vec<u8> },
    /// A decoded value to be written as JSON to a file of this name.
    Json { name: String, value: JsonValue },
    /// Nothing to write.
    Skip,
}

pub enum ExtractionView {
    Bytes { name: Seq<char>, data: Seq<u8> },
    Json { name: Seq<char>, value: JsonView },
    Skip,
}

impl View for Extraction {
    type V = ExtractionView;

    open spec fn view(&self) -> ExtractionView {
        match self {
            Extraction::Bytes { name, data } => ExtractionView::Bytes { name: name@, data: data@ },
            Extraction::Json { name, value } => ExtractionView::Json { name: name@, value: value@ },
            Extraction::Skip => ExtractionView::Skip,
        }
    }
}

/// The character of a decimal digit.
pub open spec fn digit_char(d: nat) -> char {
    (48 + d) as char
}

/// `n` written in decimal, without leading zeros.
pub open spec fn spec_decimal(n: nat) -> Seq<char>
    decreases n,
{
    if n < 10 {
        seq![digit_char(n)]
    } else {
        spec_decimal(n / 10).push(digit_char(n % 10))
    }
}

fn digit_str(d: usize) -> (s: &'static str)
    requires
        d < 10,
    ensures
        s@ == seq![digit_char(d as nat)],
{
    proof {
        reveal_strlit("0");
        reveal_strlit("1");
        reveal_strlit("2");
        reveal_strlit("3");
        reveal_strlit("4");
        reveal_strlit("5");
        reveal_strlit("6");
        reveal_strlit("7");
        reveal_strlit("8");
        reveal_strlit("9");
    }
    match d {
        0 => "0",
        1 => "1",
        2 => "2",
        3 => "3",
        4 => "4",
        5 => "5",
        6 => "6",
        7 => "7",
        8 => "8",
        _ => "9",
    }
}

/// `n` in decimal.
pub fn decimal(n: usize) -> (s: String)
    ensures
        s@ == spec_decimal(n as nat),
    decreases n,
{
    if n < 10 {
        String::from_str(digit_str(n))
    } else {
        let mut s = decimal(n / 10);
        s.append(digit_str(n % 10));
        s
    }
}

/// The file name of a script object: its own name, or `mono` and its
/// index where it has none.
pub open spec fn spec_mono_file_name(name: Seq<char>, index: nat) -> Seq<char> {
    if name.len() == 0 {
        "mono"@ + spec_decimal(index)
    } else {
        name
    }
}

pub fn mono_file_name(name: &String, index: usize) -> (s: String)
    ensures
        s@ == spec_mono_file_name(name@, index as nat),
{
    if name.as_str().unicode_len() == 0 {
        let mut s = String::from_str("mono");
        let digits = decimal(index);
        s.append(digits.as_str());
        s
    } else {
        name.clone()
    }
}

/// Where the data of object `obj` of `file` starts in the decompressed
/// data: the offset of the file's node, the file's data offset and the
/// object's start, added; `None` where that is not a `u64`.
pub open spec fn spec_object_offset(file: SerializedFileView, obj: ObjectData) -> Option<u64> {
    let abs = file.node_offset + file.data_offset + obj.byte_start;
    if 0 <= abs <= u64::MAX {
        Some(abs as u64)
    } else {
        None
    }
}

pub fn object_offset(file: &SerializedFile, obj: &ObjectData) -> (r: Option<u64>)
    ensures
        r == spec_object_offset(file@, *obj),
{
    let abs: i128 = file.node_offset as i128 + file.data_offset as i128 + obj.byte_start as i128;
    if 0 <= abs && abs <= u64::MAX as i128 {
        Some(abs as u64)
    } else {
        None
    }
}

/// What `Path::file_name` gives for `path`, as text.
pub uninterp spec fn path_file_name(path: Seq<char>) -> Option<Seq<char>>;

/// `std::path::Path::file_name` on a path given as text. The contract names
/// the result; a name taken from text is text again.
#[verifier::external_body]
pub(crate) fn file_name_of(path: &str) -> (r: Option<String>)
    ensures
        match path_file_name(path@) {
            Some(name) => r is Some && r->Some_0@ == name,
            None => r is None,
        },
{
    match std::path::Path::new(path).file_name() {
        Some(name) => Some(name.to_string_lossy().into_owned()),
        None => None,
    }
}

/// The name of the resource node that a streamed asset names by `path`:
/// the last component of the path, or the whole path where it has none.
pub open spec fn spec_resource_name(path: Seq<char>) -> Seq<char> {
    match path_file_name(path) {
        Some(name) => name,
        None => path,
    }
}

/// The offset of the first directory node called `name`.
pub open spec fn spec_find_node(nodes: Seq<DirectoryNodeView>, name: Seq<char>) -> Option<u64>
    decreases nodes.len(),
{
    if nodes.len() == 0 {
        None
    } else if nodes[0].name == name {
        Some(nodes[0].offset)
    } else {
        spec_find_node(nodes.drop_first(), name)
    }
}

pub fn find_node(nodes: &Vec<DirectoryNode>, name: &str) -> (r: Option<u64>)
    ensures
        r == spec_find_node(nodes@.map_values(|n: DirectoryNode| n@), name@),
{
    let ghost views = nodes@.map_values(|n: DirectoryNode| n@);
    let mut k: usize = 0;
    proof {
        assert(views.subrange(0, views.len() as int) =~= views);
    }
    while k < nodes.len()
        invariant
            k <= nodes@.len(),
            views == nodes@.map_values(|n: DirectoryNode| n@),
            spec_find_node(views, name@) == spec_find_node(views.subrange(k as int, views.len() as int), name@),
        decreases nodes@.len() - k,
    {
        let ghost rest = views.subrange(k as int, views.len() as int);
        proof {
            assert(rest[0] == nodes@[k as int]@);
            assert(rest.drop_first() =~= views.subrange(k + 1, views.len() as int));
        }
        if string_is(&nodes[k].name, name) {
            return Some(nodes[k].offset);
        }
        k = k + 1;
    }
    None
}

/// The offset of the resource node for a streamed asset at `path`.
fn resource_base(nodes: &Vec<DirectoryNode>, path: &String) -> (r: Option<u64>)
    ensures
        r == spec_find_node(nodes@.map_values(|n: DirectoryNode| n@), spec_resource_name(path@)),
{
    match file_name_of(path.as_str()) {
        Some(name) => find_node(nodes, name.as_str()),
        None => find_node(nodes, path.as_str()),
    }
}

/// `size` bytes at `offset` from `base`.
fn read_resource(reader: &mut Reader, base: u64, offset: u64, size: u64) -> (r: Result<Vec<u8>, UnpackError>)
    ensures
        final(reader).bytes() == old(reader).bytes(),
        match spec_take(old(reader).bytes(), base + offset, size as int) {
            Ok((b, _)) => r is Ok && r->Ok_0@ == b,
            Err(e) => r == Err::<Vec<u8>, UnpackError>(e),
        },
{
    let _ = reader.len();
    if base > u64::MAX - offset {
        return Err(UnpackError::UnexpectedEof);
    }
    reader.seek_start(base + offset);
    reader.read_exact(size)
}

/// Streamed bytes: `size` bytes at `offset` in the resource node named by
/// `path`; an error where there is no such node.
pub open spec fn spec_streamed(nodes: Seq<DirectoryNodeView>, d: Seq<u8>, path: Seq<char>, offset: u64, size: int)
    -> Result<Seq<u8>, UnpackError>
{
    match spec_find_node(nodes, spec_resource_name(path)) {
        None => Err(UnpackError::MissingResourceNode),
        Some(base) => match spec_take(d, base + offset, size) {
            Ok((b, _)) => Ok(b),
            Err(e) => Err(e),
        },
    }
}

fn streamed(nodes: &Vec<DirectoryNode>, reader: &mut Reader, path: &String, offset: u64, size: u64)
    -> (r: Result<Vec<u8>, UnpackError>)
    ensures
        final(reader).bytes() == old(reader).bytes(),
        match spec_streamed(nodes@.map_values(|n: DirectoryNode| n@), old(reader).bytes(), path@, offset, size as int) {
            Ok(b) => r is Ok && r->Ok_0@ == b,
            Err(e) => r == Err::<Vec<u8>, UnpackError>(e),
        },
{
    match resource_base(nodes, path) {
        None => Err(UnpackError::MissingResourceNode),
        Some(base) => read_resource(reader, base, offset, size),
    }
}

/// The type tree of type `type_id` of `file`; empty where it has no such type.
pub open spec fn spec_type_nodes(file: SerializedFileView, type_id: usize) -> Seq<TypeTreeNodeView> {
    if type_id < file.types.len() {
        file.types[type_id as int].nodes
    } else {
        Seq::empty()
    }
}

/// What object `obj` of `file`, the `index`-th object of the bundle,
/// yields from the decompressed data `d`, where `nodes` are the bundle's
/// directory nodes: a texture, text or audio clip gives its bytes (inline,
/// or streamed from a resource node) under its name; a script object its
/// decoded data under [`spec_mono_file_name`]; a sprite is read and gives
/// nothing; any other class gives nothing without being read.
#[verifier::opaque]
pub open spec fn spec_extract_object(
    nodes: Seq<DirectoryNodeView>,
    d: Seq<u8>,
    file: SerializedFileView,
    obj: ObjectData,
    index: nat,
) -> Result<ExtractionView, UnpackError> {
    match spec_object_offset(file, obj) {
        None => Err(UnpackError::ObjectOutOfRange),
        Some(abs) => if obj.class_id == CLASS_TEXTURE {
            match spec_texture(d, abs as int, obj.unity_version) {
                Err(e) => Err(e),
                Ok((t, _)) => match t.image {
                    ImageDataView::Inline(data) => Ok(ExtractionView::Bytes { name: t.name, data }),
                    ImageDataView::Streaming { path, offset, size } => match spec_streamed(nodes, d, path, offset, size as int) {
                        Ok(data) => Ok(ExtractionView::Bytes { name: t.name, data }),
                        Err(e) => Err(e),
                    },
                },
            }
        } else if obj.class_id == CLASS_TEXT {
            match spec_text_asset(d, abs as int) {
                Err(e) => Err(e),
                Ok((t, _)) => Ok(ExtractionView::Bytes { name: t.name, data: t.data }),
            }
        } else if obj.class_id == CLASS_AUDIO {
            match spec_audio_clip(d, abs as int) {
                Err(e) => Err(e),
                Ok((a, _)) => match a.audio {
                    AudioDataView::Inline(data) => Ok(ExtractionView::Bytes { name: a.name, data }),
                    AudioDataView::Streaming { path, offset, size } => match spec_streamed(nodes, d, path, offset, size as int) {
                        Ok(data) => Ok(ExtractionView::Bytes { name: a.name, data }),
                        Err(e) => Err(e),
                    },
                },
            }
        } else if obj.class_id == CLASS_MONO {
            match spec_mono(spec_type_nodes(file, obj.type_id), d, abs as int, obj.byte_size as int) {
                Err(e) => Err(e),
                Ok((m, _)) => Ok(ExtractionView::Json { name: spec_mono_file_name(m.name, index), value: m.data }),
            }
        } else if obj.class_id == CLASS_SPRITE {
            match spec_sprite(d, abs as int) {
                Err(e) => Err(e),
                Ok(_) => Ok(ExtractionView::Skip),
            }
        } else {
            Ok(ExtractionView::Skip)
        }
    }
}

/// The total number of objects in `files`.
pub open spec fn spec_total_objects(files: Seq<SerializedFileView>) -> nat
    decreases files.len(),
{
    if files.len() == 0 {
        0
    } else {
        spec_total_objects(files.drop_last()) + files.last().objects.len()
    }
}

proof fn lemma_total_prefix(files: Seq<SerializedFileView>, i: int)
    requires
        0 <= i <= files.len(),
    ensures
        spec_total_objects(files.take(i)) <= spec_total_objects(files),
    decreases files.len(),
{
    if i < files.len() {
        assert(files.drop_last().take(i) =~= files.take(i));
        lemma_total_prefix(files.drop_last(), i);
    } else {
        assert(files.take(i) =~= files);
    }
}

/// Whether the objects of a bundle go to a directory of their own: where
/// there are more than one.
pub fn uses_subdirectory(files: &Vec<SerializedFile>) -> (b: bool)
    ensures
        b == (spec_total_objects(files@.map_values(|f: SerializedFile| f@)) > 1),
{
    let ghost views = files@.map_values(|f: SerializedFile| f@);
    let mut total: usize = 0;
    let mut k: usize = 0;
    proof {
        assert(views.take(0) =~= Seq::<SerializedFileView>::empty());
    }
    while k < files.len()
        invariant
            k <= files@.len(),
            views == files@.map_values(|f: SerializedFile| f@),
            total <= 1,
            total == spec_total_objects(views.take(k as int)),
        decreases files@.len() - k,
    {
        proof {
            assert(views.take(k + 1).drop_last() =~= views.take(k as int));
            assert(views[k as int].objects.len() == files@[k as int].objects@.len());
        }
        let n = files[k].objects.len();
        if n > 1 - total {
            proof {
                lemma_total_prefix(views, k + 1);
            }
            return true;
        }
        total = total + n;
        k = k + 1;
    }
    proof {
        assert(views.take(k as int) =~= views);
    }
    false
}

/// The name of the directory that the objects of the bundle at `path` go
/// to, where [`uses_subdirectory`] says they do: the file's stem, or
/// `bundle` where it has none.
pub open spec fn spec_bundle_dir_name(path: Seq<char>) -> Seq<char> {
    match path_file_stem(path) {
        Some(stem) => stem,
        None => "bundle"@,
    }
}

pub fn bundle_dir_name(path: &str) -> (s: String)
    ensures
        s@ == spec_bundle_dir_name(path@),
{
    match file_stem_of(path) {
        Some(stem) => stem,
        None => String::from_str("bundle"),
    }
}


/// Every object of `files` with the file it belongs to, file by file.
pub open spec fn spec_all_objects(files: Seq<SerializedFileView>) -> Seq<(SerializedFileView, ObjectData)>
    decreases files.len(),
{
    if files.len() == 0 {
        Seq::empty()
    } else {
        let f = files.last();
        spec_all_objects(files.drop_last()) + f.objects.map_values(|o: ObjectData| (f, o))
    }
}

/// The objects `objs` extracted in order, each with its index among them,
/// up to the first that fails: what they yield, and the error that stopped
/// the extraction, if one did.
pub open spec fn spec_extract_all(
    nodes: Seq<DirectoryNodeView>,
    d: Seq<u8>,
    objs: Seq<(SerializedFileView, ObjectData)>,
) -> (Seq<ExtractionView>, Option<UnpackError>)
    decreases objs.len(),
{
    if objs.len() == 0 {
        (Seq::empty(), None)
    } else {
        let prev = spec_extract_all(nodes, d, objs.drop_last());
        let last = objs.last();
        if prev.1 is Some {
            prev
        } else {
            match spec_extract_object(nodes, d, last.0, last.1, (objs.len() - 1) as nat) {
                Ok(e) => (prev.0.push(e), None),
                Err(err) => (prev.0, Some(err)),
            }
        }
    }
}

proof fn lemma_extract_all_stops(nodes: Seq<DirectoryNodeView>, d: Seq<u8>, objs: Seq<(SerializedFileView, ObjectData)>, i: int)
    requires
        0 <= i <= objs.len(),
        spec_extract_all(nodes, d, objs.take(i)).1 is Some,
    ensures
        spec_extract_all(nodes, d, objs) == spec_extract_all(nodes, d, objs.take(i)),
    decreases objs.len() - i,
{
    if i < objs.len() {
        assert(objs.drop_last().take(i) =~= objs.take(i));
        lemma_extract_all_stops(nodes, d, objs.drop_last(), i);
    } else {
        assert(objs.take(i) =~= objs);
    }
}


proof fn lemma_all_objects_prefix(files: Seq<SerializedFileView>, i: int)
    requires
        0 <= i <= files.len(),
    ensures
        spec_all_objects(files.take(i)).len() <= spec_all_objects(files).len(),
        spec_all_objects(files.take(i)) == spec_all_objects(files).take(spec_all_objects(files.take(i)).len() as int),
    decreases files.len(),
{
    if i < files.len() {
        assert(files.drop_last().take(i) =~= files.take(i));
        lemma_all_objects_prefix(files.drop_last(), i);
        let a = spec_all_objects(files.drop_last());
        let f = files.last();
        let b = f.objects.map_values(|o: ObjectData| (f, o));
        let n = spec_all_objects(files.take(i)).len() as int;
        assert(spec_all_objects(files) == a + b);
        assert((a + b).take(n) =~= a.take(n));
    } else {
        assert(files.take(i) =~= files);
        assert(spec_all_objects(files).take(spec_all_objects(files).len() as int) =~= spec_all_objects(files));
    }
}

proof fn lemma_extract_step(nodes: Seq<DirectoryNodeView>, d: Seq<u8>, objs: Seq<(SerializedFileView, ObjectData)>, k: int)
    requires
        0 <= k < objs.len(),
        spec_extract_all(nodes, d, objs.take(k)).1 is None,
    ensures
        spec_extract_all(nodes, d, objs.take(k + 1)) == match spec_extract_object(nodes, d, objs[k].0, objs[k].1, k as nat) {
            Ok(e) => (spec_extract_all(nodes, d, objs.take(k)).0.push(e), None),
            Err(err) => (spec_extract_all(nodes, d, objs.take(k)).0, Some(err)),
        },
{
    assert(objs.take(k + 1).drop_last() =~= objs.take(k));
    assert(objs.take(k + 1).last() == objs[k]);
}


/// Extraction yields one item for each object up to the first that fails:
/// one for every object where none fails, fewer where one does.
pub proof fn extraction_covers_objects(nodes: Seq<DirectoryNodeView>, d: Seq<u8>, objs: Seq<(SerializedFileView, ObjectData)>)
    ensures
        spec_extract_all(nodes, d, objs).1 is None ==> spec_extract_all(nodes, d, objs).0.len() == objs.len(),
        spec_extract_all(nodes, d, objs).1 is Some ==> spec_extract_all(nodes, d, objs).0.len() < objs.len(),
    decreases objs.len(),
{
    if objs.len() > 0 {
        extraction_covers_objects(nodes, d, objs.drop_last());
    }
}

proof fn lemma_decimal_nonempty(n: nat)
    ensures
        spec_decimal(n).len() >= 1,
    decreases n,
{
    if n >= 10 {
        lemma_decimal_nonempty(n / 10);
    }
}

/// Every script object gets a file name that is not empty.
pub proof fn mono_file_names_are_not_empty(name: Seq<char>, index: nat)
    ensures
        spec_mono_file_name(name, index).len() > 0,
{
    lemma_decimal_nonempty(index);
}

/// Where the object at `index` among all objects of `files` stands: the
/// index of its file and its index in that file; `None` past the last.
pub fn object_at(files: &Vec<SerializedFile>, index: usize) -> (r: Option<(usize, usize)>)
    ensures
        ({
            let all = spec_all_objects(files@.map_values(|f: SerializedFile| f@));
            match r {
                Some((f, o)) => f < files@.len() && o < files@[f as int].objects@.len() && index < all.len()
                    && all[index as int] == (files@[f as int]@, files@[f as int].objects@[o as int]),
                None => index >= all.len(),
            }
        }),
{
    let ghost views = files@.map_values(|f: SerializedFile| f@);
    let ghost all = spec_all_objects(views);
    let mut base: usize = 0;
    let mut fi: usize = 0;
    proof {
        assert(views.take(0) =~= Seq::<SerializedFileView>::empty());
    }
    while fi < files.len()
        invariant
            fi <= files@.len(),
            views == files@.map_values(|f: SerializedFile| f@),
            all == spec_all_objects(views),
            base == spec_all_objects(views.take(fi as int)).len(),
            base <= index,
        decreases files@.len() - fi,
    {
        let n = files[fi].objects.len();
        let ghost before = spec_all_objects(views.take(fi as int));
        let ghost fv = files@[fi as int]@;
        proof {
            assert(views[fi as int] == fv);
            assert(views.take(fi + 1).drop_last() =~= views.take(fi as int));
            assert(spec_all_objects(views.take(fi + 1)) == before + fv.objects.map_values(|o: ObjectData| (fv, o)));
        }
        if index - base < n {
            proof {
                lemma_all_objects_prefix(views, fi + 1);
                let cur = spec_all_objects(views.take(fi + 1));
                assert(cur[index as int] == all[index as int]);
            }
            return Some((fi, index - base));
        }
        base = base + n;
        fi = fi + 1;
    }
    proof {
        assert(views.take(files@.len() as int) =~= views);
    }
    None
}

proof fn lemma_find_first(nodes: Seq<DirectoryNodeView>, name: Seq<char>, j: int)
    requires
        0 <= j < nodes.len(),
        nodes[j].name == name,
        forall|i: int| 0 <= i < j ==> #[trigger] nodes[i].name != name,
    ensures
        spec_find_node(nodes, name) == Some(nodes[j].offset),
    decreases j,
{
    if j > 0 {
        assert(nodes[0].name != name);
        let rest = nodes.drop_first();
        assert forall|i: int| 0 <= i < j - 1 implies #[trigger] rest[i].name != name by {
            assert(rest[i] == nodes[i + 1]);
        }
        lemma_find_first(rest, name, j - 1);
    }
}

/// A texture whose pixels are streamed yields, under its name, exactly the
/// `size` bytes that start `offset` bytes into the first directory node
/// named like the last component of its stream path.
pub proof fn streamed_texture_reads_its_resource(
    nodes: Seq<DirectoryNodeView>,
    d: Seq<u8>,
    file: SerializedFileView,
    obj: ObjectData,
    index: nat,
    t: Texture2DView,
    path: Seq<char>,
    offset: u64,
    size: u32,
    j: int,
)
    requires
        obj.class_id == 28,
        0 <= file.node_offset + file.data_offset + obj.byte_start <= u64::MAX,
        spec_texture(d, file.node_offset + file.data_offset + obj.byte_start, obj.unity_version) is Ok,
        spec_texture(d, file.node_offset + file.data_offset + obj.byte_start, obj.unity_version)->Ok_0.0 == t,
        t.image == (ImageDataView::Streaming { path, offset, size }),
        0 <= j < nodes.len(),
        nodes[j].name == spec_resource_name(path),
        forall|i: int| 0 <= i < j ==> #[trigger] nodes[i].name != spec_resource_name(path),
        nodes[j].offset + offset + size <= d.len(),
    ensures
        spec_extract_object(nodes, d, file, obj, index) == Ok::<ExtractionView, UnpackError>(ExtractionView::Bytes {
            name: t.name,
            data: d.subrange(nodes[j].offset + offset, nodes[j].offset + offset + size),
        }),
{
    reveal(spec_extract_object);
    lemma_find_first(nodes, spec_resource_name(path), j);
}

/// An audio clip whose samples are streamed yields, under its name, exactly
/// the `size` bytes that start `offset` bytes into the first directory node
/// named like the last component of its stream path.
pub proof fn streamed_audio_reads_its_resource(
    nodes: Seq<DirectoryNodeView>,
    d: Seq<u8>,
    file: SerializedFileView,
    obj: ObjectData,
    index: nat,
    a: AudioClipView,
    path: Seq<char>,
    offset: u64,
    size: u64,
    j: int,
)
    requires
        obj.class_id == 83,
        0 <= file.node_offset + file.data_offset + obj.byte_start <= u64::MAX,
        spec_audio_clip(d, file.node_offset + file.data_offset + obj.byte_start) is Ok,
        spec_audio_clip(d, file.node_offset + file.data_offset + obj.byte_start)->Ok_0.0 == a,
        a.audio == (AudioDataView::Streaming { path, offset, size }),
        0 <= j < nodes.len(),
        nodes[j].name == spec_resource_name(path),
        forall|i: int| 0 <= i < j ==> #[trigger] nodes[i].name != spec_resource_name(path),
        nodes[j].offset + offset + size <= d.len(),
    ensures
        spec_extract_object(nodes, d, file, obj, index) == Ok::<ExtractionView, UnpackError>(ExtractionView::Bytes {
            name: a.name,
            data: d.subrange(nodes[j].offset + offset, nodes[j].offset + offset + size),
        }),
{
    reveal(spec_extract_object);
    lemma_find_first(nodes, spec_resource_name(path), j);
}

/// A texture or audio clip whose data is inline yields that data under its
/// name, and a text asset its contents under its name.
pub proof fn inline_assets_yield_their_data(
    nodes: Seq<DirectoryNodeView>,
    d: Seq<u8>,
    file: SerializedFileView,
    obj: ObjectData,
    index: nat,
)
    requires
        0 <= file.node_offset + file.data_offset + obj.byte_start <= u64::MAX,
    ensures
        ({
            let abs = file.node_offset + file.data_offset + obj.byte_start;
            let tex = spec_texture(d, abs, obj.unity_version);
            let clip = spec_audio_clip(d, abs);
            let text = spec_text_asset(d, abs);
            &&& (obj.class_id == 28 && tex is Ok && tex->Ok_0.0.image is Inline) ==> spec_extract_object(nodes, d,
                file, obj, index) == Ok::<ExtractionView, UnpackError>(
                ExtractionView::Bytes { name: tex->Ok_0.0.name, data: tex->Ok_0.0.image->Inline_0 })
            &&& (obj.class_id == 83 && clip is Ok && clip->Ok_0.0.audio is Inline) ==> spec_extract_object(nodes, d,
                file, obj, index) == Ok::<ExtractionView, UnpackError>(
                ExtractionView::Bytes { name: clip->Ok_0.0.name, data: clip->Ok_0.0.audio->Inline_0 })
            &&& (obj.class_id == 49 && text is Ok) ==> spec_extract_object(nodes, d, file, obj, index)
                == Ok::<ExtractionView, UnpackError>(
                ExtractionView::Bytes { name: text->Ok_0.0.name, data: text->Ok_0.0.data })
        }),
{
    reveal(spec_extract_object);
}

/// The number that decimal digits write.
pub open spec fn digits_value(s: Seq<char>) -> int
    decreases s.len(),
{
    if s.len() == 0 {
        0
    } else {
        digits_value(s.drop_last()) * 10 + (s.last() as int - 48)
    }
}

/// Writing a number in decimal gives digits only, with no leading zero,
/// that read back as the number.
pub proof fn decimal_reads_back(n: nat)
    ensures
        digits_value(spec_decimal(n)) == n,
        forall|i: int| 0 <= i < spec_decimal(n).len() ==> '0' <= #[trigger] spec_decimal(n)[i] <= '9',
        spec_decimal(n).len() > 1 ==> spec_decimal(n)[0] != '0',
    decreases n,
{
    assert(digit_char(n % 10) as int == 48 + n % 10);
    if n < 10 {
        assert(spec_decimal(n) == seq![digit_char(n)]);
        assert(seq![digit_char(n)].drop_last() =~= Seq::<char>::empty());
        assert(digits_value(Seq::<char>::empty()) == 0);
        assert(digits_value(spec_decimal(n)) == digits_value(spec_decimal(n).drop_last()) * 10 + (digit_char(n) as int - 48));
    } else {
        decimal_reads_back(n / 10);
        let s = spec_decimal(n / 10);
        assert(spec_decimal(n) == s.push(digit_char(n % 10)));
        assert(spec_decimal(n).drop_last() =~= s);
        assert(digits_value(spec_decimal(n)) == digits_value(s) * 10 + (digit_char(n % 10) as int - 48));
        assert(n / 10 * 10 + n % 10 == n);
        assert forall|i: int| 0 <= i < spec_decimal(n).len() implies '0' <= #[trigger] spec_decimal(n)[i] <= '9' by {
            if i < s.len() {
                assert(spec_decimal(n)[i] == s[i]);
            }
        }
        if n / 10 < 10 {
            assert(s == seq![digit_char(n / 10)]);
            assert(s[0] == digit_char(n / 10));
        } else {
            lemma_decimal_nonempty(n / 100);
            assert(s == spec_decimal(n / 10 / 10).push(digit_char(n / 10 % 10)));
            assert(s.len() > 1);
        }
        assert(spec_decimal(n)[0] == s[0]);
    }
}

/// A script object without a name is written as `mono` followed by the
/// decimal digits of its index; one with a name under that name.
pub proof fn unnamed_scripts_are_named_by_index(name: Seq<char>, index: nat)
    ensures
        name.len() == 0 ==> spec_mono_file_name(name, index).take(4) == "mono"@
            && digits_value(spec_mono_file_name(name, index).skip(4)) == index,
        name.len() > 0 ==> spec_mono_file_name(name, index) == name,
{
    reveal_strlit("mono");
    decimal_reads_back(index);
    if name.len() == 0 {
        let f = "mono"@ + spec_decimal(index);
        assert(f.take(4) =~= "mono"@);
        assert(f.skip(4) =~= spec_decimal(index));
    }
}

/// What a bundle's objects yielded, in order, and the error that stopped
/// the extraction, if one did.
#[derive(Debug)]
pub struct Extracted {
    pub items: Vec<Extraction>,
    pub error: Option<UnpackError>,
}

impl UnityBundle {
    /// What object `obj` of `file`, the `index`-th object of the bundle,
    /// yields; `reader` reads the decompressed data.
    pub fn extract_object(&self, reader: &mut Reader, file: &SerializedFile, obj: &ObjectData, index: usize)
        -> (r: Result<Extraction, UnpackError>)
        ensures
            final(reader).bytes() == old(reader).bytes(),
            match spec_extract_object(self.info@.nodes, old(reader).bytes(), file@, *obj, index as nat) {
                Ok(e) => r is Ok && r->Ok_0@ == e,
                Err(e) => r == Err::<Extraction, UnpackError>(e),
            },
    {
        let ghost nodes = self.info@.nodes;
        proof {
            reveal(spec_extract_object);
            assert(nodes == self.info.nodes@.map_values(|n: DirectoryNode| n@));
        }
        let abs = match object_offset(file, obj) {
            Some(a) => a,
            None => return Err(UnpackError::ObjectOutOfRange),
        };
        if obj.class_id == CLASS_TEXTURE {
            let texture = Texture2D::parse(obj.unity_version, reader, abs)?;
            match texture.image {
                ImageData::Inline(data) => Ok(Extraction::Bytes { name: texture.name, data }),
                ImageData::Streaming { path, offset, size } => {
                    let data = streamed(&self.info.nodes, reader, &path, offset, size as u64)?;
                    Ok(Extraction::Bytes { name: texture.name, data })
                },
            }
        } else if obj.class_id == CLASS_TEXT {
            let text = TextAsset::parse(reader, abs)?;
            Ok(Extraction::Bytes { name: text.name, data: text.data })
        } else if obj.class_id == CLASS_AUDIO {
            let audio = AudioClip::parse(reader, abs)?;
            match audio.audio {
                AudioData::Inline(data) => Ok(Extraction::Bytes { name: audio.name, data }),
                AudioData::Streaming { path, offset, size } => {
                    let data = streamed(&self.info.nodes, reader, &path, offset, size)?;
                    Ok(Extraction::Bytes { name: audio.name, data })
                },
            }
        } else if obj.class_id == CLASS_MONO {
            let type_nodes = file.type_nodes(obj.type_id);
            proof {
                if obj.type_id < file.types@.len() {
                    assert(file@.types[obj.type_id as int] == file.types@[obj.type_id as int]@);
                }
                assert(super::typetree::node_views(type_nodes@) =~= spec_type_nodes(file@, obj.type_id));
            }
            let mono = MonoBehaviour::parse(type_nodes, reader, abs, obj.byte_size)?;
            let name = mono_file_name(&mono.name, index);
            Ok(Extraction::Json { name, value: mono.data })
        } else if obj.class_id == CLASS_SPRITE {
            let _sprite = Sprite::parse(reader, abs)?;
            Ok(Extraction::Skip)
        } else {
            Ok(Extraction::Skip)
        }
    }

    /// Extracts the objects of `files` in order, as
    /// [`UnityBundle::extract_object`] does each, numbering them from 0 over
    /// all files, and stops at the first that fails.
    pub fn extract_objects(&self, reader: &mut Reader, files: &Vec<SerializedFile>) -> (r: Extracted)
        ensures
            final(reader).bytes() == old(reader).bytes(),
            ({
                let s = spec_extract_all(self.info@.nodes, old(reader).bytes(),
                    spec_all_objects(files@.map_values(|f: SerializedFile| f@)));
                r.items@.map_values(|e: Extraction| e@) == s.0 && r.error == s.1
            }),
    {
        let ghost nodes = self.info@.nodes;
        let ghost d = reader.bytes();
        let ghost views = files@.map_values(|f: SerializedFile| f@);
        let ghost all = spec_all_objects(views);
        let mut items: Vec<Extraction> = Vec::new();
        let mut fi: usize = 0;
        proof {
            assert(views.take(0) =~= Seq::<SerializedFileView>::empty());
            assert(items@.map_values(|e: Extraction| e@) =~= Seq::<ExtractionView>::empty());
        }
        while fi < files.len()
            invariant
                fi <= files@.len(),
                nodes == self.info@.nodes,
                d == old(reader).bytes(),
                reader.bytes() == d,
                views == files@.map_values(|f: SerializedFile| f@),
                all == spec_all_objects(views),
                spec_extract_all(nodes, d, spec_all_objects(views.take(fi as int)))
                    == (items@.map_values(|e: Extraction| e@), None::<UnpackError>),
                items@.len() == spec_all_objects(views.take(fi as int)).len(),
            decreases files@.len() - fi,
        {
            let file = &files[fi];
            let ghost before = spec_all_objects(views.take(fi as int));
            let ghost fv = file@;
            let ghost cur = spec_all_objects(views.take(fi + 1));
            proof {
                assert(views[fi as int] == fv);
                assert(views.take(fi + 1).drop_last() =~= views.take(fi as int));
                assert(cur == before + fv.objects.map_values(|o: ObjectData| (fv, o)));
                assert(cur.take(before.len() as int) =~= before);
            }
            let mut oi: usize = 0;
            while oi < file.objects.len()
                invariant
                    fi < files@.len(),
                    file == &files@[fi as int],
                    fv == file@,
                    oi <= file.objects@.len(),
                    nodes == self.info@.nodes,
                    d == old(reader).bytes(),
                    reader.bytes() == d,
                    views == files@.map_values(|f: SerializedFile| f@),
                    all == spec_all_objects(views),
                    before == spec_all_objects(views.take(fi as int)),
                    cur == spec_all_objects(views.take(fi + 1)),
                    cur == before + fv.objects.map_values(|o: ObjectData| (fv, o)),
                    spec_extract_all(nodes, d, cur.take(before.len() + oi))
                        == (items@.map_values(|e: Extraction| e@), None::<UnpackError>),
                    items@.len() == before.len() + oi,
                decreases file.objects@.len() - oi,
            {
                let obj = &file.objects[oi];
                let ghost k = before.len() + oi;
                proof {
                    assert(cur[k] == (fv, *obj));
                    lemma_extract_step(nodes, d, cur, k);
                }
                let index = items.len();
                match self.extract_object(reader, file, obj, index) {
                    Ok(e) => {
                        let ghost old_items = items@;
                        items.push(e);
                        proof {
                            assert(items@.map_values(|x: Extraction| x@)
                                =~= old_items.map_values(|x: Extraction| x@).push(items@.last()@));
                        }
                    },
                    Err(err) => {
                        proof {
                            lemma_all_objects_prefix(views, fi + 1);
                            assert(all.take(k + 1) =~= cur.take(k + 1));
                            lemma_extract_all_stops(nodes, d, all, k + 1);
                        }
                        return Extracted { items, error: Some(err) };
                    },
                }
                oi = oi + 1;
            }
            proof {
                assert(cur.take(before.len() + oi) =~= cur);
            }
            fi = fi + 1;
        }
        proof {
            assert(views.take(files@.len() as int) =~= views);
        }
        Extracted { items, error: None }
    }
}

} // verus!
