//! The serialized files inside a bundle: their headers, type trees and
//! object tables.

use vstd::prelude::*;

use crate::error::UnpackError;
use vstd::slice::slice_subrange;
use super::read::{
    Reader, SpecRead, read_follows, zero_index, lenient_utf8, string_from_utf8_lossy, spec_byte, spec_u16,
    spec_u32, spec_u64, spec_i16, spec_i32, spec_i64, spec_take, spec_cstring, spec_cstring_bytes, spec_utf8,
    spec_align4_seek, spec_seek_current, spec_repeat, lemma_repeat_err, pos_of, val_of, err_of, byte, u16_le,
    u32_be, u32_le, u64_le, i16_le, i32_le, i64_be, i64_le, cstring, align4, string_from_utf8,
};

verus! {

/// The names that type trees share through Unity's common string table,
/// by offset into that table; other offsets have no name.
pub open spec fn spec_common_string(offset: u32) -> Seq<char> {
    match offset {
        0 => "AABB"@,
        5 => "AnimationClip"@,
        19 => "AnimationCurve"@,
        34 => "AnimationState"@,
        49 => "Array"@,
        55 => "Base"@,
        60 => "BitField"@,
        69 => "bitset"@,
        76 => "bool"@,
        81 => "char"@,
        86 => "ColorRGBA"@,
        96 => "Component"@,
        106 => "data"@,
        111 => "deque"@,
        117 => "double"@,
        124 => "dynamic_array"@,
        138 => "FastPropertyName"@,
        155 => "first"@,
        161 => "float"@,
        167 => "Font"@,
        172 => "GameObject"@,
        183 => "Generic Mono"@,
        196 => "GradientNEW"@,
        208 => "GUID"@,
        213 => "GUIStyle"@,
        222 => "int"@,
        226 => "list"@,
        231 => "long long"@,
        241 => "map"@,
        245 => "Matrix4x4f"@,
        256 => "MdFour"@,
        263 => "MonoBehaviour"@,
        277 => "MonoScript"@,
        288 => "m_ByteSize"@,
        299 => "m_Curve"@,
        307 => "m_EditorClassIdentifier"@,
        331 => "m_EditorHideFlags"@,
        349 => "m_Enabled"@,
        359 => "m_ExtensionPtr"@,
        374 => "m_GameObject"@,
        387 => "m_Index"@,
        395 => "m_IsArray"@,
        405 => "m_IsStatic"@,
        416 => "m_MetaFlag"@,
        427 => "m_Name"@,
        434 => "m_ObjectHideFlags"@,
        452 => "m_PrefabInternal"@,
        469 => "m_PrefabParentObject"@,
        490 => "m_Script"@,
        499 => "m_StaticEditorFlags"@,
        519 => "m_Type"@,
        526 => "m_Version"@,
        536 => "Object"@,
        543 => "pair"@,
        548 => "PPtr<Component>"@,
        564 => "PPtr<GameObject>"@,
        581 => "PPtr<Material>"@,
        596 => "PPtr<MonoBehaviour>"@,
        616 => "PPtr<MonoScript>"@,
        633 => "PPtr<Object>"@,
        646 => "PPtr<Prefab>"@,
        659 => "PPtr<Sprite>"@,
        672 => "PPtr<TextAsset>"@,
        688 => "PPtr<Texture>"@,
        702 => "PPtr<Texture2D>"@,
        718 => "PPtr<Transform>"@,
        734 => "Prefab"@,
        741 => "Quaternionf"@,
        753 => "Rectf"@,
        759 => "RectInt"@,
        767 => "RectOffset"@,
        778 => "second"@,
        785 => "set"@,
        789 => "short"@,
        795 => "size"@,
        800 => "SInt16"@,
        807 => "SInt32"@,
        814 => "SInt64"@,
        821 => "SInt8"@,
        827 => "staticvector"@,
        840 => "string"@,
        847 => "TextAsset"@,
        857 => "TextMesh"@,
        866 => "Texture"@,
        874 => "Texture2D"@,
        884 => "Transform"@,
        894 => "TypelessData"@,
        907 => "UInt16"@,
        914 => "UInt32"@,
        921 => "UInt64"@,
        928 => "UInt8"@,
        934 => "unsigned int"@,
        947 => "unsigned long long"@,
        966 => "unsigned short"@,
        981 => "vector"@,
        988 => "Vector2f"@,
        997 => "Vector3f"@,
        1006 => "Vector4f"@,
        1015 => "m_ScriptingClassIdentifier"@,
        1042 => "Gradient"@,
        1051 => "Type*"@,
        1057 => "int2_storage"@,
        1070 => "int3_storage"@,
        1083 => "BoundsInt"@,
        1093 => "m_CorrespondingSourceObject"@,
        1121 => "m_PrefabInstance"@,
        1138 => "m_PrefabAsset"@,
        1152 => "FileSize"@,
        1161 => "Hash128"@,
        _ => ""@,
    }
}

/// A name from Unity's common string table.
pub fn common_string(offset: u32) -> (s: &'static str)
    ensures
        s@ == spec_common_string(offset),
{
    match offset {
        0 => "AABB",
        5 => "AnimationClip",
        19 => "AnimationCurve",
        34 => "AnimationState",
        49 => "Array",
        55 => "Base",
        60 => "BitField",
        69 => "bitset",
        76 => "bool",
        81 => "char",
        86 => "ColorRGBA",
        96 => "Component",
        106 => "data",
        111 => "deque",
        117 => "double",
        124 => "dynamic_array",
        138 => "FastPropertyName",
        155 => "first",
        161 => "float",
        167 => "Font",
        172 => "GameObject",
        183 => "Generic Mono",
        196 => "GradientNEW",
        208 => "GUID",
        213 => "GUIStyle",
        222 => "int",
        226 => "list",
        231 => "long long",
        241 => "map",
        245 => "Matrix4x4f",
        256 => "MdFour",
        263 => "MonoBehaviour",
        277 => "MonoScript",
        288 => "m_ByteSize",
        299 => "m_Curve",
        307 => "m_EditorClassIdentifier",
        331 => "m_EditorHideFlags",
        349 => "m_Enabled",
        359 => "m_ExtensionPtr",
        374 => "m_GameObject",
        387 => "m_Index",
        395 => "m_IsArray",
        405 => "m_IsStatic",
        416 => "m_MetaFlag",
        427 => "m_Name",
        434 => "m_ObjectHideFlags",
        452 => "m_PrefabInternal",
        469 => "m_PrefabParentObject",
        490 => "m_Script",
        499 => "m_StaticEditorFlags",
        519 => "m_Type",
        526 => "m_Version",
        536 => "Object",
        543 => "pair",
        548 => "PPtr<Component>",
        564 => "PPtr<GameObject>",
        581 => "PPtr<Material>",
        596 => "PPtr<MonoBehaviour>",
        616 => "PPtr<MonoScript>",
        633 => "PPtr<Object>",
        646 => "PPtr<Prefab>",
        659 => "PPtr<Sprite>",
        672 => "PPtr<TextAsset>",
        688 => "PPtr<Texture>",
        702 => "PPtr<Texture2D>",
        718 => "PPtr<Transform>",
        734 => "Prefab",
        741 => "Quaternionf",
        753 => "Rectf",
        759 => "RectInt",
        767 => "RectOffset",
        778 => "second",
        785 => "set",
        789 => "short",
        795 => "size",
        800 => "SInt16",
        807 => "SInt32",
        814 => "SInt64",
        821 => "SInt8",
        827 => "staticvector",
        840 => "string",
        847 => "TextAsset",
        857 => "TextMesh",
        866 => "Texture",
        874 => "Texture2D",
        884 => "Transform",
        894 => "TypelessData",
        907 => "UInt16",
        914 => "UInt32",
        921 => "UInt64",
        928 => "UInt8",
        934 => "unsigned int",
        947 => "unsigned long long",
        966 => "unsigned short",
        981 => "vector",
        988 => "Vector2f",
        997 => "Vector3f",
        1006 => "Vector4f",
        1015 => "m_ScriptingClassIdentifier",
        1042 => "Gradient",
        1051 => "Type*",
        1057 => "int2_storage",
        1070 => "int3_storage",
        1083 => "BoundsInt",
        1093 => "m_CorrespondingSourceObject",
        1121 => "m_PrefabInstance",
        1138 => "m_PrefabAsset",
        1152 => "FileSize",
        1161 => "Hash128",
        _ => "",
    }
}

/// A type tree string: where the high bit of `offset` is set, an entry of
/// the common string table; else the zero-terminated text at `offset` in
/// the local buffer, decoded leniently.
pub open spec fn spec_resolve_str(offset: u32, buf: Seq<u8>) -> Seq<char> {
    if offset & 0x8000_0000 == 0 {
        let rest = buf.subrange(offset as int, buf.len() as int);
        lenient_utf8(rest.subrange(0, zero_index(rest) as int))
    } else {
        spec_common_string(offset & 0x7FFF_FFFF)
    }
}

/// Resolves a type tree string; a local offset must lie within the buffer.
pub fn resolve_str(offset: u32, local_buf: &[u8]) -> (s: String)
    requires
        offset & 0x8000_0000 != 0 || offset <= local_buf@.len(),
    ensures
        s@ == spec_resolve_str(offset, local_buf@),
{
    if offset & 0x8000_0000 == 0 {
        let pos = offset as usize;
        let len = local_buf.len();
        let mut end = pos;
        while end < len && local_buf[end] != 0
            invariant
                pos <= end <= len,
                len == local_buf@.len(),
                forall|j: int| pos <= j < end ==> local_buf@[j] != 0,
            decreases len - end,
        {
            end = end + 1;
        }
        let ghost rest = local_buf@.subrange(pos as int, len as int);
        proof {
            super::read::lemma_zero_index(rest, (end - pos) as int);
            assert(rest.subrange(0, (end - pos) as int) =~= local_buf@.subrange(pos as int, end as int));
        }
        string_from_utf8_lossy(slice_subrange(local_buf, pos, end))
    } else {
        let s = common_string(offset & 0x7FFF_FFFF);
        s.to_owned()
    }
}

/// Index of the first `.` in `s`, or its length when there is none.
pub open spec fn dot_index(s: Seq<u8>) -> nat
    decreases s.len(),
{
    if s.len() == 0 {
        0
    } else if s[0] == 46 {
        0
    } else {
        1 + dot_index(s.drop_first())
    }
}

pub open spec fn is_digit(b: u8) -> bool {
    48 <= b <= 57
}

pub open spec fn all_digits(t: Seq<u8>) -> bool {
    forall|k: int| 0 <= k < t.len() ==> is_digit(#[trigger] t[k])
}

/// `s` without one leading `+`.
pub open spec fn strip_plus(s: Seq<u8>) -> Seq<u8> {
    if s.len() > 0 && s[0] == 43 {
        s.drop_first()
    } else {
        s
    }
}

/// Decimal value of ASCII digits.
pub open spec fn dec_value(s: Seq<u8>) -> nat
    decreases s.len(),
{
    if s.len() == 0 {
        0
    } else {
        dec_value(s.drop_last()) * 10 + (s.last() - 48) as nat
    }
}

/// A `u32` in decimal as `str::parse` takes it: an optional `+`, then at
/// least one digit, and no more than `u32::MAX`.
pub open spec fn spec_parse_u32(s: Seq<u8>) -> Option<u32> {
    let t = strip_plus(s);
    if t.len() == 0 || !all_digits(t) {
        None
    } else if dec_value(t) > u32::MAX {
        None
    } else {
        Some(dec_value(t) as u32)
    }
}

/// Major and minor engine version from a version string such as
/// `2021.3.5f1`: the first two `.`-separated parts, both numbers.
pub open spec fn spec_unity_version(b: Seq<u8>) -> Option<(u32, u32)> {
    let i = dot_index(b) as int;
    if i >= b.len() {
        None
    } else {
        let rest = b.subrange(i + 1, b.len() as int);
        let j = dot_index(rest) as int;
        match (spec_parse_u32(b.subrange(0, i)), spec_parse_u32(rest.subrange(0, j))) {
            (Some(major), Some(minor)) => Some((major, minor)),
            _ => None,
        }
    }
}

proof fn lemma_dot_index(s: Seq<u8>, k: int)
    requires
        0 <= k <= s.len(),
        forall|j: int| 0 <= j < k ==> s[j] != 46,
        k == s.len() || s[k] == 46,
    ensures
        dot_index(s) == k,
    decreases k,
{
    if k > 0 {
        lemma_dot_index(s.drop_first(), k - 1);
    }
}

/// Position of the first `.` in `s` at or after `from`, or the length.
fn find_dot(s: &[u8], from: usize) -> (k: usize)
    requires
        from <= s@.len(),
    ensures
        from <= k <= s@.len(),
        k - from == dot_index(s@.subrange(from as int, s@.len() as int)),
{
    let mut k = from;
    while k < s.len() && s[k] != 46
        invariant
            from <= k <= s@.len(),
            forall|j: int| from <= j < k ==> s@[j] != 46,
        decreases s@.len() - k,
    {
        k = k + 1;
    }
    proof {
        lemma_dot_index(s@.subrange(from as int, s@.len() as int), k - from);
    }
    k
}

/// Parses `s[from..to]` as [`spec_parse_u32`] does.
fn parse_u32_dec(s: &[u8], from: usize, to: usize) -> (r: Option<u32>)
    requires
        from <= to <= s@.len(),
    ensures
        r == spec_parse_u32(s@.subrange(from as int, to as int)),
{
    let ghost whole = s@.subrange(from as int, to as int);
    let start = if from < to && s[from] == 43 { from + 1 } else { from };
    let ghost t = s@.subrange(start as int, to as int);
    proof {
        if from < to && s@[from as int] == 43 {
            assert(t =~= whole.drop_first());
        } else {
            assert(t =~= whole);
        }
    }
    if start == to {
        return None;
    }
    let limit: u64 = 0x1_0000_0000;
    let mut v: u64 = 0;
    let mut k = start;
    while k < to
        invariant
            start <= k <= to <= s@.len(),
            t == s@.subrange(start as int, to as int),
            whole == s@.subrange(from as int, to as int),
            t == strip_plus(whole),
            t.len() > 0,
            forall|j: int| start <= j < k ==> is_digit(#[trigger] s@[j]),
            v == if dec_value(s@.subrange(start as int, k as int)) < limit {
                dec_value(s@.subrange(start as int, k as int))
            } else {
                limit as nat
            },
            limit == 0x1_0000_0000,
        decreases to - k,
    {
        let b = s[k];
        if b < 48 || b > 57 {
            proof {
                assert(t[k - start] == b);
                assert(!is_digit(t[k - start]));
                assert(!all_digits(t));
            }
            return None;
        }
        proof {
            assert(s@.subrange(start as int, k + 1).drop_last() =~= s@.subrange(start as int, k as int));
        }
        let next = v * 10 + (b - 48) as u64;
        v = if next < limit { next } else { limit };
        k = k + 1;
    }
    proof {
        assert(forall|j: int| 0 <= j < t.len() ==> #[trigger] t[j] == s@[start + j]);
        assert(all_digits(t));
        assert(t =~= s@.subrange(start as int, k as int));
    }
    if v >= limit {
        None
    } else {
        Some(v as u32)
    }
}

/// Major and minor engine version from the raw bytes of a version string.
pub fn unity_version(b: &[u8]) -> (r: Option<(u32, u32)>)
    ensures
        r == spec_unity_version(b@),
{
    let i = find_dot(b, 0);
    proof {
        assert(b@.subrange(0, b@.len() as int) =~= b@);
    }
    if i >= b.len() {
        return None;
    }
    let j = find_dot(b, i + 1);
    let ghost rest = b@.subrange(i + 1, b@.len() as int);
    proof {
        assert(rest.subrange(0, j - i - 1) =~= b@.subrange(i + 1, j as int));
    }
    let major = parse_u32_dec(b, 0, i);
    let minor = parse_u32_dec(b, i + 1, j);
    match (major, minor) {
        (Some(x), Some(y)) => Some((x, y)),
        _ => None,
    }
}

/// One node of a type tree.
#[derive(Debug)]
pub struct TypeTreeNode {
    pub level: u8,
    pub typename: String,
    pub name: String,
    pub byte_size: i32,
    pub meta_flag: i32,
}

pub struct TypeTreeNodeView {
    pub level: u8,
    pub typename: Seq<char>,
    pub name: Seq<char>,
    pub byte_size: i32,
    pub meta_flag: i32,
}

impl View for TypeTreeNode {
    type V = TypeTreeNodeView;

    open spec fn view(&self) -> TypeTreeNodeView {
        TypeTreeNodeView {
            level: self.level,
            typename: self.typename@,
            name: self.name@,
            byte_size: self.byte_size,
            meta_flag: self.meta_flag,
        }
    }
}

/// A type declared by a serialized file, with its type tree (empty where
/// the file carries no type trees).
#[derive(Debug)]
pub struct SerializedType {
    pub class_id: i32,
    pub nodes: Vec<TypeTreeNode>,
}

pub struct SerializedTypeView {
    pub class_id: i32,
    pub nodes: Seq<TypeTreeNodeView>,
}

impl View for SerializedType {
    type V = SerializedTypeView;

    open spec fn view(&self) -> SerializedTypeView {
        SerializedTypeView { class_id: self.class_id, nodes: self.nodes@.map_values(|n: TypeTreeNode| n@) }
    }
}

/// An entry of the object table.
#[derive(Debug, Clone, Copy)]
pub struct ObjectData {
    pub unity_version: (u32, u32),
    pub path_id: i64,
    pub byte_start: i64,
    pub byte_size: u32,
    pub class_id: i32,
    pub type_id: usize,
}

impl View for ObjectData {
    type V = ObjectData;

    open spec fn view(&self) -> ObjectData {
        *self
    }
}

/// A type tree node as it is stored, with its strings as offsets.
#[derive(Clone, Copy)]
pub struct RawTypeNode {
    pub level: u8,
    pub type_offset: u32,
    pub name_offset: u32,
    pub byte_size: i32,
    pub meta_flag: i32,
}

impl View for RawTypeNode {
    type V = RawTypeNode;

    open spec fn view(&self) -> RawTypeNode {
        *self
    }
}

/// A stored type tree node: version, level, flags, the offsets of its type
/// name and name, byte size, index, meta flags and hash, all little-endian.
pub open spec fn spec_raw_node(d: Seq<u8>, p: int) -> SpecRead<RawTypeNode> {
    let version = spec_u16(d, p, false);
    let level = spec_byte(d, pos_of(version));
    let flags = spec_byte(d, pos_of(level));
    let type_offset = spec_u32(d, pos_of(flags), false);
    let name_offset = spec_u32(d, pos_of(type_offset), false);
    let byte_size = spec_i32(d, pos_of(name_offset), false);
    let index = spec_i32(d, pos_of(byte_size), false);
    let meta_flag = spec_i32(d, pos_of(index), false);
    let hash = spec_u64(d, pos_of(meta_flag), false);
    if version is Err {
        Err(err_of(version))
    } else if level is Err {
        Err(err_of(level))
    } else if flags is Err {
        Err(err_of(flags))
    } else if type_offset is Err {
        Err(err_of(type_offset))
    } else if name_offset is Err {
        Err(err_of(name_offset))
    } else if byte_size is Err {
        Err(err_of(byte_size))
    } else if index is Err {
        Err(err_of(index))
    } else if meta_flag is Err {
        Err(err_of(meta_flag))
    } else if hash is Err {
        Err(err_of(hash))
    } else {
        Ok((RawTypeNode {
            level: val_of(level),
            type_offset: val_of(type_offset),
            name_offset: val_of(name_offset),
            byte_size: val_of(byte_size),
            meta_flag: val_of(meta_flag),
        }, pos_of(hash)))
    }
}

pub open spec fn raw_node_reader() -> spec_fn(Seq<u8>, int) -> SpecRead<RawTypeNode> {
    |d: Seq<u8>, p: int| spec_raw_node(d, p)
}

pub open spec fn offset_ok(offset: u32, len: nat) -> bool {
    offset & 0x8000_0000 != 0 || offset <= len
}

/// Every string offset of the raw nodes lies within a buffer of `len` bytes.
pub open spec fn offsets_ok(raws: Seq<RawTypeNode>, len: nat) -> bool {
    forall|k: int| 0 <= k < raws.len() ==> node_ok(#[trigger] raws[k], len)
}

/// Both string offsets of a raw node lie within a buffer of `len` bytes.
pub open spec fn node_ok(r: RawTypeNode, len: nat) -> bool {
    offset_ok(r.type_offset, len) && offset_ok(r.name_offset, len)
}

pub open spec fn resolve_node(r: RawTypeNode, buf: Seq<u8>) -> TypeTreeNodeView {
    TypeTreeNodeView {
        level: r.level,
        typename: spec_resolve_str(r.type_offset, buf),
        name: spec_resolve_str(r.name_offset, buf),
        byte_size: r.byte_size,
        meta_flag: r.meta_flag,
    }
}

/// A type tree: node count and string buffer size, the nodes, the string
/// buffer and a list of dependencies that is skipped. A string offset past
/// the buffer is an error.
pub open spec fn spec_type_tree(d: Seq<u8>, p: int) -> SpecRead<Seq<TypeTreeNodeView>> {
    let count = spec_u32(d, p, false);
    let buf_size = spec_u32(d, pos_of(count), false);
    let raws = spec_repeat(d, pos_of(buf_size), val_of(count) as nat, raw_node_reader());
    let buf = spec_take(d, pos_of(raws), val_of(buf_size) as int);
    let deps = spec_i32(d, pos_of(buf), false);
    let after = spec_seek_current(pos_of(deps), val_of(deps) * 4);
    if count is Err {
        Err(err_of(count))
    } else if buf_size is Err {
        Err(err_of(buf_size))
    } else if raws is Err {
        Err(err_of(raws))
    } else if buf is Err {
        Err(err_of(buf))
    } else if deps is Err {
        Err(err_of(deps))
    } else if after is Err {
        Err(after->Err_0)
    } else if !offsets_ok(val_of(raws), val_of(buf).len()) {
        Err(UnpackError::StringOffsetOutOfBounds)
    } else {
        Ok((val_of(raws).map_values(|r: RawTypeNode| resolve_node(r, val_of(buf))), after->Ok_0))
    }
}

/// A type entry: class id, a stripped flag, a script index, a hash of 16
/// bytes (two for `MonoBehaviour`, class 114), and the type tree where the
/// file has type trees.
pub open spec fn spec_type_entry(d: Seq<u8>, p: int, enable_tree: bool) -> SpecRead<SerializedTypeView> {
    let class_id = spec_i32(d, p, false);
    let stripped = spec_byte(d, pos_of(class_id));
    let script = spec_i16(d, pos_of(stripped), false);
    let skip = if val_of(class_id) == 114 { spec_seek_current(pos_of(script), 16) } else { Ok(pos_of(script)) };
    let skip2 = spec_seek_current(skip->Ok_0, 16);
    let tree = spec_type_tree(d, skip2->Ok_0);
    if class_id is Err {
        Err(err_of(class_id))
    } else if stripped is Err {
        Err(err_of(stripped))
    } else if script is Err {
        Err(err_of(script))
    } else if skip is Err {
        Err(skip->Err_0)
    } else if skip2 is Err {
        Err(skip2->Err_0)
    } else if !enable_tree {
        Ok((SerializedTypeView { class_id: val_of(class_id), nodes: Seq::empty() }, skip2->Ok_0))
    } else if tree is Err {
        Err(err_of(tree))
    } else {
        Ok((SerializedTypeView { class_id: val_of(class_id), nodes: val_of(tree) }, pos_of(tree)))
    }
}

pub open spec fn type_entry_reader(enable_tree: bool) -> spec_fn(Seq<u8>, int) -> SpecRead<SerializedTypeView> {
    |d: Seq<u8>, p: int| spec_type_entry(d, p, enable_tree)
}

/// An object entry: aligned to four bytes from `base`, then path id, start,
/// size and type index; the class id comes from the declared type.
pub open spec fn spec_object(
    d: Seq<u8>,
    p: int,
    base: int,
    types: Seq<SerializedTypeView>,
    unity_version: (u32, u32),
) -> SpecRead<ObjectData> {
    let aligned = spec_align4_seek(p, base);
    let path_id = spec_i64(d, aligned->Ok_0, false);
    let byte_start = spec_i64(d, pos_of(path_id), false);
    let byte_size = spec_u32(d, pos_of(byte_start), false);
    let type_id = spec_i32(d, pos_of(byte_size), false);
    if aligned is Err {
        Err(aligned->Err_0)
    } else if path_id is Err {
        Err(err_of(path_id))
    } else if byte_start is Err {
        Err(err_of(byte_start))
    } else if byte_size is Err {
        Err(err_of(byte_size))
    } else if type_id is Err {
        Err(err_of(type_id))
    } else if !((val_of(type_id) as usize) < types.len()) {
        Err(UnpackError::TypeIdOutOfBounds { type_id: val_of(type_id), total: types.len() as usize })
    } else {
        Ok((ObjectData {
            unity_version,
            path_id: val_of(path_id),
            byte_start: val_of(byte_start),
            byte_size: val_of(byte_size),
            class_id: types[(val_of(type_id) as usize) as int].class_id,
            type_id: val_of(type_id) as usize,
        }, pos_of(type_id)))
    }
}

pub open spec fn object_reader(
    base: int,
    types: Seq<SerializedTypeView>,
    unity_version: (u32, u32),
) -> spec_fn(Seq<u8>, int) -> SpecRead<ObjectData> {
    |d: Seq<u8>, p: int| spec_object(d, p, base, types, unity_version)
}

/// A count stored as `i32`; a negative one counts nothing.
pub open spec fn count_of(n: i32) -> nat {
    if n < 0 {
        0
    } else {
        n as nat
    }
}

/// The metadata of a serialized file from the engine version on: version,
/// target platform, whether type trees are present, the types and the
/// objects. `prior` are types declared before, which object entries may
/// also refer to. Yields the objects and the new types.
pub open spec fn spec_objects(d: Seq<u8>, p: int, prior: Seq<SerializedTypeView>) -> SpecRead<(Seq<ObjectData>, Seq<SerializedTypeView>)> {
    let (version_bytes, q) = spec_cstring_bytes(d, p);
    let version_text = spec_utf8(version_bytes);
    let unity_version = spec_unity_version(version_bytes);
    let platform = spec_i32(d, q, false);
    let enable = spec_byte(d, pos_of(platform));
    let type_count = spec_i32(d, pos_of(enable), false);
    let types = spec_repeat(d, pos_of(type_count), count_of(val_of(type_count)), type_entry_reader(val_of(enable) != 0));
    let object_count = spec_i32(d, pos_of(types), false);
    let objects = spec_repeat(
        d,
        pos_of(object_count),
        count_of(val_of(object_count)),
        object_reader(p, prior + val_of(types), unity_version->0),
    );
    if version_text is Err {
        Err(version_text->Err_0)
    } else if unity_version is None {
        Err(UnpackError::BadUnityVersion)
    } else if platform is Err {
        Err(err_of(platform))
    } else if enable is Err {
        Err(err_of(enable))
    } else if type_count is Err {
        Err(err_of(type_count))
    } else if types is Err {
        Err(err_of(types))
    } else if object_count is Err {
        Err(err_of(object_count))
    } else if objects is Err {
        Err(err_of(objects))
    } else {
        Ok(((val_of(objects), val_of(types)), pos_of(objects)))
    }
}

fn read_raw_node(reader: &mut Reader) -> (r: Result<RawTypeNode, UnpackError>)
    ensures
        read_follows(r, *old(reader), *final(reader), spec_raw_node(old(reader).bytes(), old(reader).position())),
{
    let _version = u16_le(reader)?;
    let level = byte(reader)?;
    let _flags = byte(reader)?;
    let type_offset = u32_le(reader)?;
    let name_offset = u32_le(reader)?;
    let byte_size = i32_le(reader)?;
    let _index = i32_le(reader)?;
    let meta_flag = i32_le(reader)?;
    let _hash = u64_le(reader)?;
    Ok(RawTypeNode { level, type_offset, name_offset, byte_size, meta_flag })
}

fn read_raw_nodes(reader: &mut Reader, count: u32) -> (r: Result<Vec<RawTypeNode>, UnpackError>)
    ensures
        read_follows(r, *old(reader), *final(reader), spec_repeat(old(reader).bytes(), old(reader).position(), count as nat, raw_node_reader())),
{
    let ghost d = reader.bytes();
    let ghost p0 = reader.position();
    let mut raw: Vec<RawTypeNode> = Vec::new();
    let mut i: u32 = 0;
    while i < count
        invariant
            d == old(reader).bytes(),
            p0 == old(reader).position(),
            reader.bytes() == d,
            reader.bytes().len() <= isize::MAX || i == 0,
            i <= count,
            spec_repeat(d, p0, i as nat, raw_node_reader()) == Ok::<(Seq<RawTypeNode>, int), UnpackError>((raw@, reader.position())),
        decreases count - i,
    {
        let ghost before = reader.position();
        let res = read_raw_node(reader);
        proof {
            assert(raw_node_reader()(d, before) == spec_raw_node(d, before));
        }
        let node = match res {
            Ok(v) => v,
            Err(e) => {
                proof { lemma_repeat_err(d, p0, (i + 1) as nat, count as nat, raw_node_reader()); }
                return Err(e);
            },
        };
        raw.push(node);
        i = i + 1;
    }
    let _ = reader.len();
    Ok(raw)
}

/// The type tree nodes named by the raw nodes, or an error where an offset
/// lies outside the string buffer.
fn resolve_nodes(raws: &Vec<RawTypeNode>, buf: &Vec<u8>) -> (r: Result<Vec<TypeTreeNode>, UnpackError>)
    ensures
        offsets_ok(raws@, buf@.len()) ==> r is Ok
            && r->Ok_0@.map_values(|n: TypeTreeNode| n@) == raws@.map_values(|x: RawTypeNode| resolve_node(x, buf@)),
        !offsets_ok(raws@, buf@.len()) ==> r == Err::<Vec<TypeTreeNode>, UnpackError>(UnpackError::StringOffsetOutOfBounds),
{
    let mut nodes: Vec<TypeTreeNode> = Vec::new();
    let mut k: usize = 0;
    while k < raws.len()
        invariant
            k <= raws@.len(),
            forall|j: int| 0 <= j < k ==> node_ok(#[trigger] raws@[j], buf@.len()),
            nodes@.map_values(|n: TypeTreeNode| n@) == raws@.take(k as int).map_values(|x: RawTypeNode| resolve_node(x, buf@)),
        decreases raws@.len() - k,
    {
        let rn = raws[k];
        let type_ok = rn.type_offset & 0x8000_0000 != 0 || (rn.type_offset as usize) <= buf.len();
        let name_ok = rn.name_offset & 0x8000_0000 != 0 || (rn.name_offset as usize) <= buf.len();
        if !type_ok || !name_ok {
            proof {
                assert(!node_ok(raws@[k as int], buf@.len()));
                assert(!offsets_ok(raws@, buf@.len()));
            }
            return Err(UnpackError::StringOffsetOutOfBounds);
        }
        assert(node_ok(raws@[k as int], buf@.len()));
        let typename = resolve_str(rn.type_offset, buf.as_slice());
        let name = resolve_str(rn.name_offset, buf.as_slice());
        let ghost old_nodes = nodes@;
        nodes.push(TypeTreeNode { level: rn.level, typename, name, byte_size: rn.byte_size, meta_flag: rn.meta_flag });
        proof {
            assert forall|j: int| 0 <= j < k + 1 implies node_ok(#[trigger] raws@[j], buf@.len()) by {
                if j == k as int {
                    assert(raws@[j] == rn);
                }
            }
            assert(raws@.take(k + 1) =~= raws@.take(k as int).push(rn));
            assert(nodes@.map_values(|n: TypeTreeNode| n@) =~= old_nodes.map_values(|n: TypeTreeNode| n@).push(resolve_node(rn, buf@)));
        }
        k = k + 1;
    }
    proof {
        assert(raws@.take(raws@.len() as int) =~= raws@);
    }
    Ok(nodes)
}

fn read_type_tree(reader: &mut Reader) -> (r: Result<Vec<TypeTreeNode>, UnpackError>)
    ensures
        final(reader).bytes() == old(reader).bytes(),
        final(reader).bytes().len() <= isize::MAX,
        match spec_type_tree(old(reader).bytes(), old(reader).position()) {
            Ok((v, q)) => r is Ok && r->Ok_0@.map_values(|n: TypeTreeNode| n@) == v && final(reader).position() == q,
            Err(e) => r == Err::<Vec<TypeTreeNode>, UnpackError>(e),
        },
{
    let node_count = u32_le(reader)?;
    let string_buffer_size = u32_le(reader)?;
    let raw = read_raw_nodes(reader, node_count)?;
    let string_buf = reader.read_exact(string_buffer_size as u64)?;
    let dep_count = i32_le(reader)? as i64;
    reader.seek_current(dep_count * 4)?;
    resolve_nodes(&raw, &string_buf)
}

fn read_type_entry(reader: &mut Reader, enable_tree: bool) -> (r: Result<SerializedType, UnpackError>)
    ensures
        read_follows(r, *old(reader), *final(reader), spec_type_entry(old(reader).bytes(), old(reader).position(), enable_tree)),
{
    let class_id = i32_le(reader)?;
    let _is_stripped = byte(reader)?;
    let _script_type_index = i16_le(reader)?;
    if class_id == 114 {
        reader.seek_current(16)?;
    }
    reader.seek_current(16)?;
    let nodes = if enable_tree {
        read_type_tree(reader)?
    } else {
        let v: Vec<TypeTreeNode> = Vec::new();
        proof {
            assert(v@.map_values(|n: TypeTreeNode| n@) =~= Seq::<TypeTreeNodeView>::empty());
        }
        v
    };
    Ok(SerializedType { class_id, nodes })
}

fn read_object(
    reader: &mut Reader,
    base: u64,
    types: &Vec<SerializedType>,
    unity_version: (u32, u32),
) -> (r: Result<ObjectData, UnpackError>)
    ensures
        read_follows(r, *old(reader), *final(reader), spec_object(old(reader).bytes(), old(reader).position(), base as int,
            types@.map_values(|t: SerializedType| t@), unity_version)),
{
    align4(reader, base)?;
    let path_id = i64_le(reader)?;
    let byte_start = i64_le(reader)?;
    let byte_size = u32_le(reader)?;
    let type_id = i32_le(reader)?;
    let index = type_id as usize;
    if index >= types.len() {
        return Err(UnpackError::TypeIdOutOfBounds { type_id, total: types.len() });
    }
    let class_id = types[index].class_id;
    Ok(ObjectData { unity_version, path_id, byte_start, byte_size, class_id, type_id: index })
}

fn read_types(reader: &mut Reader, types: &mut Vec<SerializedType>, count: i32, enable_tree: bool)
    -> (r: Result<(), UnpackError>)
    ensures
        final(reader).bytes() == old(reader).bytes(),
        final(reader).bytes().len() <= isize::MAX,
        match spec_repeat(old(reader).bytes(), old(reader).position(), count_of(count), type_entry_reader(enable_tree)) {
            Ok((new_types, q)) => r is Ok
                && final(types)@.map_values(|t: SerializedType| t@) == old(types)@.map_values(|t: SerializedType| t@) + new_types
                && final(reader).position() == q,
            Err(e) => r == Err::<(), UnpackError>(e),
        },
{
    let ghost d = reader.bytes();
    let ghost p0 = reader.position();
    let ghost prior = types@.map_values(|t: SerializedType| t@);
    let ghost mut new_types: Seq<SerializedTypeView> = Seq::empty();
    let _ = reader.len();
    proof {
        assert(prior + new_types =~= prior);
    }
    let mut i: i32 = 0;
    while i < count
        invariant
            d == old(reader).bytes(),
            p0 == old(reader).position(),
            prior == old(types)@.map_values(|t: SerializedType| t@),
            reader.bytes() == d,
            d.len() <= isize::MAX,
            0 <= i,
            i <= count || count < 0,
            count < 0 ==> i == 0,
            spec_repeat(d, p0, i as nat, type_entry_reader(enable_tree)) == Ok::<(Seq<SerializedTypeView>, int), UnpackError>((new_types, reader.position())),
            types@.map_values(|t: SerializedType| t@) == prior + new_types,
        decreases count - i,
    {
        let ghost before = reader.position();
        let res = read_type_entry(reader, enable_tree);
        proof {
            assert(type_entry_reader(enable_tree)(d, before) == spec_type_entry(d, before, enable_tree));
        }
        let entry = match res {
            Ok(v) => v,
            Err(e) => {
                proof { lemma_repeat_err(d, p0, (i + 1) as nat, count_of(count), type_entry_reader(enable_tree)); }
                return Err(e);
            },
        };
        let ghost old_types = types@;
        let ghost ev = entry@;
        types.push(entry);
        proof {
            assert(types@.map_values(|t: SerializedType| t@) =~= old_types.map_values(|t: SerializedType| t@).push(ev));
            assert(prior + new_types.push(ev) =~= (prior + new_types).push(ev));
            new_types = new_types.push(ev);
        }
        i = i + 1;
    }
    proof {
        assert(i as nat == count_of(count));
    }
    Ok(())
}

fn read_objects(
    reader: &mut Reader,
    count: i32,
    base: u64,
    types: &Vec<SerializedType>,
    unity_version: (u32, u32),
) -> (r: Result<Vec<ObjectData>, UnpackError>)
    ensures
        read_follows(r, *old(reader), *final(reader), spec_repeat(old(reader).bytes(), old(reader).position(), count_of(count),
            object_reader(base as int, types@.map_values(|t: SerializedType| t@), unity_version))),
{
    let ghost d = reader.bytes();
    let ghost p0 = reader.position();
    let ghost tv = types@.map_values(|t: SerializedType| t@);
    let _ = reader.len();
    let mut out: Vec<ObjectData> = Vec::new();
    let mut j: i32 = 0;
    while j < count
        invariant
            d == old(reader).bytes(),
            p0 == old(reader).position(),
            tv == types@.map_values(|t: SerializedType| t@),
            reader.bytes() == d,
            d.len() <= isize::MAX,
            0 <= j,
            j <= count || count < 0,
            count < 0 ==> j == 0,
            spec_repeat(d, p0, j as nat, object_reader(base as int, tv, unity_version))
                == Ok::<(Seq<ObjectData>, int), UnpackError>((out@, reader.position())),
        decreases count - j,
    {
        let ghost before = reader.position();
        let res = read_object(reader, base, types, unity_version);
        proof {
            assert(object_reader(base as int, tv, unity_version)(d, before) == spec_object(d, before, base as int, tv, unity_version));
        }
        let obj = match res {
            Ok(v) => v,
            Err(e) => {
                proof { lemma_repeat_err(d, p0, (j + 1) as nat, count_of(count), object_reader(base as int, tv, unity_version)); }
                return Err(e);
            },
        };
        out.push(obj);
        j = j + 1;
    }
    proof {
        assert(j as nat == count_of(count));
    }
    Ok(out)
}

/// Reads the engine version, the types (appended to `types`) and the object
/// table of a serialized file. Object entries are aligned from where this
/// part starts.
fn parse_objects(reader: &mut Reader, types: &mut Vec<SerializedType>) -> (r: Result<Vec<ObjectData>, UnpackError>)
    ensures
        final(reader).bytes() == old(reader).bytes(),
        final(reader).bytes().len() <= isize::MAX,
        match spec_objects(old(reader).bytes(), old(reader).position(), old(types)@.map_values(|t: SerializedType| t@)) {
            Ok(((objects, new_types), q)) => r is Ok && r->Ok_0@ == objects
                && final(types)@.map_values(|t: SerializedType| t@) == old(types)@.map_values(|t: SerializedType| t@) + new_types
                && final(reader).position() == q,
            Err(e) => r == Err::<Vec<ObjectData>, UnpackError>(e),
        },
{
    let base_pos = reader.stream_position();
    let version_bytes = reader.read_until_zero();
    let parsed_version = unity_version(version_bytes.as_slice());
    let _version_text = string_from_utf8(version_bytes)?;
    let unity_ver = match parsed_version {
        Some(v) => v,
        None => return Err(UnpackError::BadUnityVersion),
    };
    let _target_platform = i32_le(reader)?;
    let enable_type_tree = byte(reader)? != 0;
    let type_count = i32_le(reader)?;
    read_types(reader, types, type_count, enable_type_tree)?;
    let object_count = i32_le(reader)?;
    read_objects(reader, object_count, base_pos, types, unity_ver)
}

/// A serialized file found in a bundle.
#[derive(Debug)]
pub struct SerializedFile {
    pub name: String,
    pub node_offset: u64,
    pub metadata_size: u32,
    pub file_size: i64,
    pub version: u32,
    pub data_offset: i64,
    pub endianness: u8,
    pub objects: Vec<ObjectData>,
    pub types: Vec<SerializedType>,
    pub externals: Vec<String>,
}

pub struct SerializedFileView {
    pub name: Seq<char>,
    pub node_offset: u64,
    pub metadata_size: u32,
    pub file_size: i64,
    pub version: u32,
    pub data_offset: i64,
    pub endianness: u8,
    pub objects: Seq<ObjectData>,
    pub types: Seq<SerializedTypeView>,
    pub externals: Seq<Seq<char>>,
}

impl View for SerializedFile {
    type V = SerializedFileView;

    open spec fn view(&self) -> SerializedFileView {
        SerializedFileView {
            name: self.name@,
            node_offset: self.node_offset,
            metadata_size: self.metadata_size,
            file_size: self.file_size,
            version: self.version,
            data_offset: self.data_offset,
            endianness: self.endianness,
            objects: self.objects@,
            types: self.types@.map_values(|t: SerializedType| t@),
            externals: self.externals@.map_values(|e: String| e@),
        }
    }
}

/// What `Path::file_stem` gives for `path`: the last component without its
/// extension, or `None` where the path has no file name.
pub uninterp spec fn path_file_stem(path: Seq<char>) -> Option<Seq<char>>;

/// `std::path::Path::file_stem` on a path given as text. The contract names
/// the result; the stem of a path that was text is text again, so the
/// conversion back cannot fail.
#[verifier::external_body]
pub(crate) fn file_stem_of(path: &str) -> (r: Option<String>)
    ensures
        match path_file_stem(path@) {
            Some(stem) => r is Some && r->Some_0@ == stem,
            None => r is None,
        },
{
    match std::path::Path::new(path).file_stem() {
        Some(stem) => Some(stem.to_string_lossy().into_owned()),
        None => None,
    }
}

/// A script type entry: a class index and a path id, both skipped.
pub open spec fn spec_script_entry(d: Seq<u8>, p: int) -> SpecRead<()> {
    let index = spec_i32(d, p, false);
    let path_id = spec_i64(d, pos_of(index), false);
    if index is Err {
        Err(err_of(index))
    } else if path_id is Err {
        Err(err_of(path_id))
    } else {
        Ok(((), pos_of(path_id)))
    }
}

/// An external file entry: an asset path, a GUID of 16 bytes, a type and
/// the path name, of which the stem is kept (the whole path where it has no
/// stem).
pub open spec fn spec_external(d: Seq<u8>, p: int) -> SpecRead<Seq<char>> {
    let asset_path = spec_cstring(d, p);
    let guid = spec_take(d, pos_of(asset_path), 16);
    let kind = spec_i32(d, pos_of(guid), false);
    let path_name = spec_cstring(d, pos_of(kind));
    if asset_path is Err {
        Err(err_of(asset_path))
    } else if guid is Err {
        Err(err_of(guid))
    } else if kind is Err {
        Err(err_of(kind))
    } else if path_name is Err {
        Err(err_of(path_name))
    } else {
        let stem = match path_file_stem(val_of(path_name)) {
            Some(s) => s,
            None => val_of(path_name),
        };
        Ok((stem, pos_of(path_name)))
    }
}

pub open spec fn script_entry_reader() -> spec_fn(Seq<u8>, int) -> SpecRead<()> {
    |d: Seq<u8>, p: int| spec_script_entry(d, p)
}

pub open spec fn external_reader() -> spec_fn(Seq<u8>, int) -> SpecRead<Seq<char>> {
    |d: Seq<u8>, p: int| spec_external(d, p)
}

/// A serialized file at `offset`: the classic header (metadata size, file
/// size, version, data offset, big-endian); from version 9 the endianness
/// (first of four bytes); from version 22 the wide header, 8 reserved bytes,
/// the metadata ([`spec_objects`]), the script types and the externals.
#[verifier::opaque]
pub open spec fn spec_serialized_file(d: Seq<u8>, name: Seq<char>, offset: u64) -> SpecRead<SerializedFileView> {
    let metadata_size = spec_u32(d, offset as int, true);
    let file_size = spec_u32(d, pos_of(metadata_size), true);
    let version = spec_u32(d, pos_of(file_size), true);
    let data_offset = spec_u32(d, pos_of(version), true);
    let endian = spec_take(d, pos_of(data_offset), 4);
    let metadata_size2 = spec_u32(d, pos_of(endian), true);
    let file_size2 = spec_i64(d, pos_of(metadata_size2), true);
    let data_offset2 = spec_i64(d, pos_of(file_size2), true);
    let reserved = spec_seek_current(pos_of(data_offset2), 8);
    let objects = spec_objects(d, reserved->Ok_0, Seq::empty());
    let script_count = spec_i32(d, pos_of(objects), false);
    let scripts = spec_repeat(d, pos_of(script_count), count_of(val_of(script_count)), script_entry_reader());
    let external_count = spec_i32(d, pos_of(scripts), false);
    let externals = spec_repeat(d, pos_of(external_count), count_of(val_of(external_count)), external_reader());
    let classic = SerializedFileView {
        name,
        node_offset: offset,
        metadata_size: val_of(metadata_size),
        file_size: val_of(file_size) as i64,
        version: val_of(version),
        data_offset: val_of(data_offset) as i64,
        endianness: 0,
        objects: Seq::empty(),
        types: Seq::empty(),
        externals: Seq::empty(),
    };
    if metadata_size is Err {
        Err(err_of(metadata_size))
    } else if file_size is Err {
        Err(err_of(file_size))
    } else if version is Err {
        Err(err_of(version))
    } else if data_offset is Err {
        Err(err_of(data_offset))
    } else if val_of(version) < 9 {
        Ok((classic, pos_of(data_offset)))
    } else if endian is Err {
        Err(err_of(endian))
    } else if val_of(version) < 22 {
        Ok((SerializedFileView { endianness: val_of(endian)[0], ..classic }, pos_of(endian)))
    } else if metadata_size2 is Err {
        Err(err_of(metadata_size2))
    } else if file_size2 is Err {
        Err(err_of(file_size2))
    } else if data_offset2 is Err {
        Err(err_of(data_offset2))
    } else if reserved is Err {
        Err(reserved->Err_0)
    } else if objects is Err {
        Err(err_of(objects))
    } else if script_count is Err {
        Err(err_of(script_count))
    } else if scripts is Err {
        Err(err_of(scripts))
    } else if external_count is Err {
        Err(err_of(external_count))
    } else if externals is Err {
        Err(err_of(externals))
    } else {
        Ok((SerializedFileView {
            name,
            node_offset: offset,
            metadata_size: val_of(metadata_size2),
            file_size: val_of(file_size2),
            version: val_of(version),
            data_offset: val_of(data_offset2),
            endianness: val_of(endian)[0],
            objects: val_of(objects).0,
            types: val_of(objects).1,
            externals: val_of(externals),
        }, pos_of(externals)))
    }
}

/// The endianness flag: the first of four bytes.
fn read_endian(reader: &mut Reader) -> (r: Result<u8, UnpackError>)
    ensures
        final(reader).bytes() == old(reader).bytes(),
        final(reader).bytes().len() <= isize::MAX,
        match spec_take(old(reader).bytes(), old(reader).position(), 4) {
            Ok((b, q)) => r == Ok::<u8, UnpackError>(b[0]) && final(reader).position() == q,
            Err(e) => r == Err::<u8, UnpackError>(e),
        },
{
    let buf = reader.read_exact(4)?;
    Ok(buf[0])
}

fn skip_script_types(reader: &mut Reader, count: i32) -> (r: Result<(), UnpackError>)
    ensures
        final(reader).bytes() == old(reader).bytes(),
        final(reader).bytes().len() <= isize::MAX,
        match spec_repeat(old(reader).bytes(), old(reader).position(), count_of(count), script_entry_reader()) {
            Ok((_, q)) => r is Ok && final(reader).position() == q,
            Err(e) => r == Err::<(), UnpackError>(e),
        },
{
    let ghost d = reader.bytes();
    let ghost p0 = reader.position();
    let ghost mut seen: Seq<()> = Seq::empty();
    let _ = reader.len();
    let mut i: i32 = 0;
    while i < count
        invariant
            d == old(reader).bytes(),
            p0 == old(reader).position(),
            reader.bytes() == d,
            d.len() <= isize::MAX,
            0 <= i,
            i <= count || count < 0,
            count < 0 ==> i == 0,
            spec_repeat(d, p0, i as nat, script_entry_reader()) == Ok::<(Seq<()>, int), UnpackError>((seen, reader.position())),
        decreases count - i,
    {
        let ghost before = reader.position();
        proof {
            assert(script_entry_reader()(d, before) == spec_script_entry(d, before));
        }
        match i32_le(reader) {
            Ok(_) => {},
            Err(e) => {
                proof { lemma_repeat_err(d, p0, (i + 1) as nat, count_of(count), script_entry_reader()); }
                return Err(e);
            },
        }
        match i64_le(reader) {
            Ok(_) => {},
            Err(e) => {
                proof { lemma_repeat_err(d, p0, (i + 1) as nat, count_of(count), script_entry_reader()); }
                return Err(e);
            },
        }
        proof {
            seen = seen.push(());
        }
        i = i + 1;
    }
    proof {
        assert(i as nat == count_of(count));
    }
    Ok(())
}

fn read_external(reader: &mut Reader) -> (r: Result<String, UnpackError>)
    ensures
        read_follows(r, *old(reader), *final(reader), spec_external(old(reader).bytes(), old(reader).position())),
{
    let _asset_path = cstring(reader)?;
    let _guid = reader.read_exact(16)?;
    let _external_type = i32_le(reader)?;
    let path_name = cstring(reader)?;
    match file_stem_of(path_name.as_str()) {
        Some(stem) => Ok(stem),
        None => Ok(path_name),
    }
}

fn read_externals(reader: &mut Reader, count: i32) -> (r: Result<Vec<String>, UnpackError>)
    ensures
        final(reader).bytes() == old(reader).bytes(),
        final(reader).bytes().len() <= isize::MAX,
        match spec_repeat(old(reader).bytes(), old(reader).position(), count_of(count), external_reader()) {
            Ok((v, q)) => r is Ok && r->Ok_0@.map_values(|e: String| e@) == v && final(reader).position() == q,
            Err(e) => r == Err::<Vec<String>, UnpackError>(e),
        },
{
    let ghost d = reader.bytes();
    let ghost p0 = reader.position();
    let _ = reader.len();
    let mut out: Vec<String> = Vec::new();
    let mut i: i32 = 0;
    proof {
        assert(out@.map_values(|e: String| e@) =~= Seq::<Seq<char>>::empty());
    }
    while i < count
        invariant
            d == old(reader).bytes(),
            p0 == old(reader).position(),
            reader.bytes() == d,
            d.len() <= isize::MAX,
            0 <= i,
            i <= count || count < 0,
            count < 0 ==> i == 0,
            spec_repeat(d, p0, i as nat, external_reader())
                == Ok::<(Seq<Seq<char>>, int), UnpackError>((out@.map_values(|e: String| e@), reader.position())),
        decreases count - i,
    {
        let ghost before = reader.position();
        let res = read_external(reader);
        proof {
            assert(external_reader()(d, before) == spec_external(d, before));
        }
        let name = match res {
            Ok(v) => v,
            Err(e) => {
                proof { lemma_repeat_err(d, p0, (i + 1) as nat, count_of(count), external_reader()); }
                return Err(e);
            },
        };
        let ghost old_out = out@;
        out.push(name);
        proof {
            assert(out@.map_values(|e: String| e@) =~= old_out.map_values(|e: String| e@).push(out@.last()@));
        }
        i = i + 1;
    }
    proof {
        assert(i as nat == count_of(count));
    }
    Ok(out)
}

impl SerializedFile {
    /// Reads the serialized file `name` that starts at `offset`.
    pub fn parse(name: &str, reader: &mut Reader, offset: u64, _size: u64) -> (r: Result<Self, UnpackError>)
        ensures
            read_follows(r, *old(reader), *final(reader), spec_serialized_file(old(reader).bytes(), name@, offset)),
    {
        reveal(spec_serialized_file);
        let name = name.to_owned();
        let node_offset = offset;
        let objects: Vec<ObjectData> = Vec::new();
        let mut types: Vec<SerializedType> = Vec::new();
        let externals: Vec<String> = Vec::new();
        proof {
            assert(types@.map_values(|t: SerializedType| t@) =~= Seq::<SerializedTypeView>::empty());
            assert(externals@.map_values(|e: String| e@) =~= Seq::<Seq<char>>::empty());
        }

        reader.seek_start(offset);
        let metadata_size = u32_be(reader)?;
        let file_size = u32_be(reader)? as i64;
        let version = u32_be(reader)?;
        let data_offset = u32_be(reader)? as i64;
        if version < 9 {
            return Ok(Self {
                name,
                node_offset,
                metadata_size,
                file_size,
                version,
                data_offset,
                endianness: 0,
                objects,
                types,
                externals,
            });
        }

        let endianness = read_endian(reader)?;
        if version < 22 {
            return Ok(Self {
                name,
                node_offset,
                metadata_size,
                file_size,
                version,
                data_offset,
                endianness,
                objects,
                types,
                externals,
            });
        }

        let metadata_size = u32_be(reader)?;
        let file_size = i64_be(reader)?;
        let data_offset = i64_be(reader)?;
        reader.seek_current(8)?;

        let objects = parse_objects(reader, &mut types)?;

        let script_types_count = i32_le(reader)?;
        skip_script_types(reader, script_types_count)?;

        let externals_count = i32_le(reader)?;
        let externals = read_externals(reader, externals_count)?;

        Ok(Self {
            name,
            node_offset,
            metadata_size,
            file_size,
            version,
            data_offset,
            endianness,
            objects,
            types,
            externals,
        })
    }

    /// The type tree of the type at `type_id`, or no nodes where there is no
    /// such type.
    pub fn type_nodes(&self, type_id: usize) -> (r: &[TypeTreeNode])
        ensures
            type_id < self.types@.len() ==> r@ == self.types@[type_id as int].nodes@,
            type_id >= self.types@.len() ==> r@.len() == 0,
    {
        if type_id < self.types.len() {
            self.types[type_id].nodes.as_slice()
        } else {
            &[]
        }
    }
}

} // verus!
