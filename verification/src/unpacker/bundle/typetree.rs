//! Decoding of objects by their type tree into JSON-like values.

use vstd::prelude::*;

use crate::error::UnpackError;
use super::read::{
    Reader, SpecRead, read_follows, spec_byte, spec_i16, spec_i32, spec_i64, spec_u32, spec_u64, spec_take,
    spec_aligned_bytes, spec_align4_seek, lenient_utf8, string_from_utf8_lossy, string_is, pos_of, val_of, err_of,
    byte, i16_le, i32_le, i64_le, u32_le, u64_le, aligned_bytes, align4, le_nat, le_signed, pow256, signed_of,
    lemma_le_signed_range, lemma_pow256_values, lemma_le_nat_bound,
};
use super::serialized::{TypeTreeNode, TypeTreeNodeView};

verus! {

/// A decoded value. Floating-point numbers are kept as the bit patterns
/// of their `f32` or `f64` values; only finite ones occur, as a
/// non-finite number is decoded as the integer 0.
#[derive(Debug, PartialEq)]
pub enum JsonValue {
    Null,
    Int(i64),
    Float32(u32),
    Float64(u64),
    String(String),
    Array(Vec<JsonValue>),
    Object(Vec<(String, JsonValue)>),
}

/// A decoded value as mathematical values.
pub enum JsonView {
    Null,
    Int(i64),
    Float32(u32),
    Float64(u64),
    String(Seq<char>),
    Array(Seq<JsonView>),
    Object(Seq<(Seq<char>, JsonView)>),
}

pub open spec fn json_view(v: JsonValue) -> JsonView
    decreases v,
{
    match v {
        JsonValue::Null => JsonView::Null,
        JsonValue::Int(i) => JsonView::Int(i),
        JsonValue::Float32(b) => JsonView::Float32(b),
        JsonValue::Float64(b) => JsonView::Float64(b),
        JsonValue::String(s) => JsonView::String(s@),
        JsonValue::Array(items) => JsonView::Array(Seq::new(items@.len(), |i: int|
            if 0 <= i < items@.len() {
                proof {
                    assert(decreases_to!(v => items@[i])) by {
                        assert(decreases_to!(v => items));
                        assert(decreases_to!(items => items@));
                        assert(decreases_to!(items@ => items@[i]));
                    }
                }
                json_view(items@[i])
            } else {
                JsonView::Null
            })),
        JsonValue::Object(fields) => JsonView::Object(Seq::new(fields@.len(), |i: int|
            if 0 <= i < fields@.len() {
                proof {
                    assert(decreases_to!(v => fields@[i].1)) by {
                        assert(decreases_to!(v => fields));
                        assert(decreases_to!(fields => fields@));
                        assert(decreases_to!(fields@ => fields@[i]));
                        assert(decreases_to!(fields@[i] => fields@[i].1));
                    }
                }
                (fields@[i].0@, json_view(fields@[i].1))
            } else {
                (Seq::empty(), JsonView::Null)
            })),
    }
}

impl View for JsonValue {
    type V = JsonView;

    open spec fn view(&self) -> JsonView {
        json_view(*self)
    }
}

/// The direct children of `parent` from index `i` on: the nodes one level
/// deeper, up to the first node that is not deeper than `parent`.
pub open spec fn spec_children_from(nodes: Seq<TypeTreeNodeView>, parent: int, i: int) -> Seq<int>
    decreases nodes.len() - i,
{
    if !(0 <= parent < nodes.len()) || !(0 <= i < nodes.len()) || nodes[i].level <= nodes[parent].level {
        Seq::empty()
    } else if nodes[i].level == nodes[parent].level + 1 {
        seq![i] + spec_children_from(nodes, parent, i + 1)
    } else {
        spec_children_from(nodes, parent, i + 1)
    }
}

/// The direct children of `parent`, in order.
pub open spec fn spec_children(nodes: Seq<TypeTreeNodeView>, parent: int) -> Seq<int> {
    spec_children_from(nodes, parent, parent + 1)
}

pub proof fn lemma_children_from_bounds(nodes: Seq<TypeTreeNodeView>, parent: int, i: int)
    requires
        parent < i,
    ensures
        forall|k: int| 0 <= k < spec_children_from(nodes, parent, i).len()
            ==> i <= #[trigger] spec_children_from(nodes, parent, i)[k] < nodes.len(),
    decreases nodes.len() - i,
{
    if (0 <= parent < nodes.len()) && (0 <= i < nodes.len()) && nodes[i].level > nodes[parent].level {
        lemma_children_from_bounds(nodes, parent, i + 1);
        let rest = spec_children_from(nodes, parent, i + 1);
        let all = spec_children_from(nodes, parent, i);
        if nodes[i].level == nodes[parent].level + 1 {
            assert forall|k: int| 0 <= k < all.len() implies i <= #[trigger] all[k] < nodes.len() by {
                if k > 0 {
                    assert(all[k] == rest[k - 1]);
                }
            }
        }
    }
}

pub proof fn lemma_children_bounds(nodes: Seq<TypeTreeNodeView>, parent: int)
    ensures
        forall|k: int| 0 <= k < spec_children(nodes, parent).len()
            ==> parent < #[trigger] spec_children(nodes, parent)[k] < nodes.len(),
{
    lemma_children_from_bounds(nodes, parent, parent + 1);
}


proof fn lemma_children_from_shape(nodes: Seq<TypeTreeNodeView>, parent: int, i: int)
    requires
        0 <= parent < i,
    ensures
        forall|k: int| 0 <= k < spec_children_from(nodes, parent, i).len() ==> {
            let c = #[trigger] spec_children_from(nodes, parent, i)[k];
            i <= c < nodes.len() && nodes[c].level == nodes[parent].level + 1
        },
        forall|j: int, k: int| 0 <= j < k < spec_children_from(nodes, parent, i).len()
            ==> #[trigger] spec_children_from(nodes, parent, i)[j] < #[trigger] spec_children_from(nodes, parent, i)[k],
    decreases nodes.len() - i,
{
    if (0 <= parent < nodes.len()) && (0 <= i < nodes.len()) && nodes[i].level > nodes[parent].level {
        lemma_children_from_shape(nodes, parent, i + 1);
        let rest = spec_children_from(nodes, parent, i + 1);
        let all = spec_children_from(nodes, parent, i);
        if nodes[i].level == nodes[parent].level + 1 {
            assert forall|k: int| 0 <= k < all.len() implies #[trigger] all[k] == if k == 0 { i } else { rest[k - 1] } by {}
        }
    }
}

/// The direct children of a node come after it, in increasing order, and
/// each lies exactly one level deeper.
pub proof fn children_are_one_level_deeper(nodes: Seq<TypeTreeNodeView>, parent: int)
    requires
        0 <= parent < nodes.len(),
    ensures
        forall|k: int| 0 <= k < spec_children(nodes, parent).len() ==> {
            let c = #[trigger] spec_children(nodes, parent)[k];
            parent < c < nodes.len() && nodes[c].level == nodes[parent].level + 1
        },
        forall|j: int, k: int| 0 <= j < k < spec_children(nodes, parent).len()
            ==> #[trigger] spec_children(nodes, parent)[j] < #[trigger] spec_children(nodes, parent)[k],
{
    lemma_children_from_shape(nodes, parent, parent + 1);
}


proof fn lemma_children_from_members(nodes: Seq<TypeTreeNodeView>, parent: int, i: int, j: int)
    requires
        0 <= parent < i,
        parent < nodes.len(),
    ensures
        spec_children_from(nodes, parent, i).contains(j) <==> (i <= j < nodes.len()
            && nodes[j].level == nodes[parent].level + 1
            && forall|k: int| i <= k <= j ==> #[trigger] nodes[k].level > nodes[parent].level),
    decreases nodes.len() - i,
{
    let all = spec_children_from(nodes, parent, i);
    if !(i < nodes.len()) || nodes[i].level <= nodes[parent].level {
        assert(all.len() == 0);
        if i <= j < nodes.len() {
            assert(!(nodes[i].level > nodes[parent].level));
        }
    } else {
        lemma_children_from_members(nodes, parent, i + 1, j);
        let rest = spec_children_from(nodes, parent, i + 1);
        if nodes[i].level == nodes[parent].level + 1 {
            assert(all == seq![i] + rest);
            if j == i {
                assert(all[0] == i);
            } else if all.contains(j) {
                let x = choose|x: int| 0 <= x < all.len() && all[x] == j;
                assert(x > 0);
                assert(rest[x - 1] == j);
            } else if rest.contains(j) {
                let x = choose|x: int| 0 <= x < rest.len() && rest[x] == j;
                assert(all[x + 1] == j);
            }
        } else {
            assert(all == rest);
        }
        if i < j < nodes.len() && nodes[j].level == nodes[parent].level + 1
            && (forall|k: int| i + 1 <= k <= j ==> #[trigger] nodes[k].level > nodes[parent].level) {
            assert forall|k: int| i <= k <= j implies #[trigger] nodes[k].level > nodes[parent].level by {
                if k > i {
                    assert(nodes[k].level > nodes[parent].level);
                }
            }
        }
    }
}

/// The direct children of a node are exactly the nodes after it that lie
/// one level deeper with no node at or above its own level in between.
pub proof fn children_are_exactly_the_next_level(nodes: Seq<TypeTreeNodeView>, parent: int, j: int)
    requires
        0 <= parent < nodes.len(),
    ensures
        spec_children(nodes, parent).contains(j) <==> (parent < j < nodes.len()
            && nodes[j].level == nodes[parent].level + 1
            && forall|k: int| parent < k <= j ==> #[trigger] nodes[k].level > nodes[parent].level),
{
    lemma_children_from_members(nodes, parent, parent + 1, j);
}

proof fn lemma_type_names()
    ensures
        "bool"@.len() == 4,
        "bool"@[0] == 'b',
        "char"@.len() == 4,
        "char"@[0] == 'c',
        "SInt8"@.len() == 5,
        "SInt8"@[0] == 'S',
        "SInt8"@[4] == '8',
        "UInt8"@.len() == 5,
        "UInt8"@[0] == 'U',
        "UInt8"@[4] == '8',
        "SInt16"@.len() == 6,
        "SInt16"@[0] == 'S',
        "SInt16"@[4] == '1',
        "UInt16"@.len() == 6,
        "UInt16"@[0] == 'U',
        "UInt16"@[4] == '1',
        "short"@.len() == 5,
        "short"@[0] == 's',
        "short"@[4] == 't',
        "unsigned short"@.len() == 14,
        "unsigned short"@[0] == 'u',
        "unsigned short"@[4] == 'g',
        "int"@.len() == 3,
        "int"@[0] == 'i',
        "SInt32"@.len() == 6,
        "SInt32"@[0] == 'S',
        "SInt32"@[4] == '3',
        "UInt32"@.len() == 6,
        "UInt32"@[0] == 'U',
        "UInt32"@[4] == '3',
        "unsigned int"@.len() == 12,
        "unsigned int"@[0] == 'u',
        "unsigned int"@[4] == 'g',
        "Type*"@.len() == 5,
        "Type*"@[0] == 'T',
        "Type*"@[4] == '*',
        "SInt64"@.len() == 6,
        "SInt64"@[0] == 'S',
        "SInt64"@[4] == '6',
        "long long"@.len() == 9,
        "long long"@[0] == 'l',
        "long long"@[4] == ' ',
        "UInt64"@.len() == 6,
        "UInt64"@[0] == 'U',
        "UInt64"@[4] == '6',
        "unsigned long long"@.len() == 18,
        "unsigned long long"@[0] == 'u',
        "unsigned long long"@[4] == 'g',
        "FileSize"@.len() == 8,
        "FileSize"@[0] == 'F',
        "FileSize"@[4] == 'S',
        "float"@.len() == 5,
        "float"@[0] == 'f',
        "float"@[4] == 't',
        "double"@.len() == 6,
        "double"@[0] == 'd',
        "double"@[4] == 'l',
        "string"@.len() == 6,
        "string"@[0] == 's',
        "string"@[4] == 'n',
        "TypelessData"@.len() == 12,
        "TypelessData"@[0] == 'T',
        "TypelessData"@[4] == 'l',
{
    reveal_strlit("bool");
    reveal_strlit("char");
    reveal_strlit("SInt8");
    reveal_strlit("UInt8");
    reveal_strlit("SInt16");
    reveal_strlit("UInt16");
    reveal_strlit("short");
    reveal_strlit("unsigned short");
    reveal_strlit("int");
    reveal_strlit("SInt32");
    reveal_strlit("UInt32");
    reveal_strlit("unsigned int");
    reveal_strlit("Type*");
    reveal_strlit("SInt64");
    reveal_strlit("long long");
    reveal_strlit("UInt64");
    reveal_strlit("unsigned long long");
    reveal_strlit("FileSize");
    reveal_strlit("float");
    reveal_strlit("double");
    reveal_strlit("string");
    reveal_strlit("TypelessData");
}

proof fn lemma_scalar_node(node: TypeTreeNodeView, d: Seq<u8>, p: int)
    requires
        node.meta_flag & 0x4000 == 0,
        spec_decode_scalar(node.typename, d, p) is Some,
    ensures
        spec_decode_node(seq![node], 0, d, p) == spec_decode_scalar(node.typename, d, p)->Some_0,
{
    assert(seq![node][0] == node);
}

proof fn lemma_int_value(d: Seq<u8>, p: int, n: nat)
    requires
        0 <= p,
        p + n <= d.len(),
        n == 2 || n == 4 || n == 8,
    ensures
        -(pow256(n) / 2) <= le_signed(d.subrange(p, p + n)) < pow256(n) / 2,
        le_signed(d.subrange(p, p + n)) == signed_of(le_nat(d.subrange(p, p + n)), n),
{
    lemma_le_signed_range(d.subrange(p, p + n));
}

/// A node of an integer type decodes to the little-endian integer of its
/// width at the position and moves past it: one byte, unsigned, for `bool`,
/// `char`, `SInt8` and `UInt8`; two, four and eight bytes in two's
/// complement for the 16-, 32- and 64-bit type names (the unsigned names
/// included).
pub proof fn integer_nodes_read_their_width(node: TypeTreeNodeView, d: Seq<u8>, p: int)
    requires
        node.meta_flag & 0x4000 == 0,
        0 <= p,
    ensures
        ({
            let t = node.typename;
            t == "bool"@ || t == "char"@ || t == "SInt8"@ || t == "UInt8"@
        }) && p + 1 <= d.len() ==> spec_decode_node(seq![node], 0, d, p)
            == Ok::<(JsonView, int), UnpackError>((JsonView::Int(d[p] as i64), p + 1)),
        ({
            let t = node.typename;
            t == "SInt16"@ || t == "UInt16"@ || t == "short"@ || t == "unsigned short"@
        }) && p + 2 <= d.len() ==> spec_decode_node(seq![node], 0, d, p)
            == Ok::<(JsonView, int), UnpackError>((JsonView::Int(le_signed(d.subrange(p, p + 2)) as i64), p + 2)),
        ({
            let t = node.typename;
            t == "int"@ || t == "SInt32"@ || t == "UInt32"@ || t == "unsigned int"@ || t == "Type*"@
        }) && p + 4 <= d.len() ==> spec_decode_node(seq![node], 0, d, p)
            == Ok::<(JsonView, int), UnpackError>((JsonView::Int(le_signed(d.subrange(p, p + 4)) as i64), p + 4)),
        ({
            let t = node.typename;
            t == "SInt64"@ || t == "long long"@ || t == "UInt64"@ || t == "unsigned long long"@ || t == "FileSize"@
        }) && p + 8 <= d.len() ==> spec_decode_node(seq![node], 0, d, p)
            == Ok::<(JsonView, int), UnpackError>((JsonView::Int(le_signed(d.subrange(p, p + 8)) as i64), p + 8)),
{
    lemma_type_names();
    lemma_pow256_values();
    let t = node.typename;
    if p + 1 <= d.len() && (t == "bool"@ || t == "char"@ || t == "SInt8"@ || t == "UInt8"@) {
        let b = d.subrange(p, p + 1);
        reveal_with_fuel(le_nat, 2);
        assert(b.drop_first() =~= Seq::<u8>::empty());
        assert(le_nat(b) == d[p]);
        lemma_scalar_node(node, d, p);
    }
    if p + 2 <= d.len() && (t == "SInt16"@ || t == "UInt16"@ || t == "short"@ || t == "unsigned short"@) {
        lemma_int_value(d, p, 2);
        lemma_scalar_node(node, d, p);
    }
    if p + 4 <= d.len() && (t == "int"@ || t == "SInt32"@ || t == "UInt32"@ || t == "unsigned int"@ || t == "Type*"@) {
        lemma_int_value(d, p, 4);
        lemma_scalar_node(node, d, p);
    }
    if p + 8 <= d.len() && (t == "SInt64"@ || t == "long long"@ || t == "UInt64"@ || t == "unsigned long long"@
        || t == "FileSize"@) {
        lemma_int_value(d, p, 8);
        lemma_scalar_node(node, d, p);
    }
}

/// A `float` or `double` node decodes the little-endian bits at the
/// position as a number of that width, or as the integer 0 where the bits
/// are not a finite number (all exponent bits set); a `string` node decodes
/// the text whose byte length (four little-endian bytes) comes first, and
/// moves to the next multiple of four after it.
pub proof fn float_and_text_nodes_read_their_encoding(node: TypeTreeNodeView, d: Seq<u8>, p: int)
    requires
        node.meta_flag & 0x4000 == 0,
        0 <= p,
    ensures
        node.typename == "float"@ && p + 4 <= d.len() ==> {
            let bits = le_nat(d.subrange(p, p + 4)) as u32;
            spec_decode_node(seq![node], 0, d, p) == Ok::<(JsonView, int), UnpackError>((
                if bits & 0x7F80_0000 == 0x7F80_0000 { JsonView::Int(0) } else { JsonView::Float32(bits) },
                p + 4))
        },
        node.typename == "double"@ && p + 8 <= d.len() ==> {
            let bits = le_nat(d.subrange(p, p + 8)) as u64;
            spec_decode_node(seq![node], 0, d, p) == Ok::<(JsonView, int), UnpackError>((
                if bits & 0x7FF0_0000_0000_0000 == 0x7FF0_0000_0000_0000 { JsonView::Int(0) } else { JsonView::Float64(bits) },
                p + 8))
        },
        node.typename == "string"@ && p + 4 <= d.len() && p + 4 + le_nat(d.subrange(p, p + 4)) <= d.len() ==> {
            let n = le_nat(d.subrange(p, p + 4)) as int;
            spec_decode_node(seq![node], 0, d, p) == Ok::<(JsonView, int), UnpackError>((
                JsonView::String(lenient_utf8(d.subrange(p + 4, p + 4 + n))),
                (p + 4 + n + 3) / 4 * 4))
        },
{
    lemma_type_names();
    lemma_pow256_values();
    let t = node.typename;
    if p + 4 <= d.len() && (t == "float"@ || t == "string"@) {
        lemma_le_nat_bound(d.subrange(p, p + 4));
        lemma_scalar_node(node, d, p);
    }
    if p + 8 <= d.len() && t == "double"@ {
        lemma_le_nat_bound(d.subrange(p, p + 8));
        lemma_scalar_node(node, d, p);
    }
}

proof fn lemma_scalar_node_aligned(node: TypeTreeNodeView, d: Seq<u8>, p: int)
    requires
        node.meta_flag & 0x4000 != 0,
        spec_decode_scalar(node.typename, d, p) is Some,
    ensures
        spec_decode_node(seq![node], 0, d, p) == match spec_decode_scalar(node.typename, d, p)->Some_0 {
            Err(e) => Err(e),
            Ok((v, q)) => match spec_align4_seek(q, 0) {
                Ok(q2) => Ok((v, q2)),
                Err(e) => Err(e),
            },
        },
{
    assert(seq![node][0] == node);
}

/// A node of a 1-, 2-, 4- or 8-byte integer type with meta flag 0x4000
/// decodes the same integer and then moves to the next multiple of four.
pub proof fn aligned_integer_nodes_move_to_a_multiple_of_four(node: TypeTreeNodeView, d: Seq<u8>, p: int, w: int)
    requires
        node.meta_flag & 0x4000 != 0,
        0 <= p,
        p + w <= d.len() <= u64::MAX - 3,
        ({
            let t = node.typename;
            ||| w == 1 && (t == "bool"@ || t == "char"@ || t == "SInt8"@ || t == "UInt8"@)
            ||| w == 2 && (t == "SInt16"@ || t == "UInt16"@ || t == "short"@ || t == "unsigned short"@)
            ||| w == 4 && (t == "int"@ || t == "SInt32"@ || t == "UInt32"@ || t == "unsigned int"@ || t == "Type*"@)
            ||| w == 8 && (t == "SInt64"@ || t == "long long"@ || t == "UInt64"@ || t == "unsigned long long"@
                || t == "FileSize"@)
        }),
    ensures
        ({
            let plain = TypeTreeNodeView { meta_flag: 0, ..node };
            spec_decode_node(seq![node], 0, d, p) == Ok::<(JsonView, int), UnpackError>((
                spec_decode_node(seq![plain], 0, d, p)->Ok_0.0,
                (p + w + 3) / 4 * 4))
        }),
{
    let plain = TypeTreeNodeView { meta_flag: 0, ..node };
    assert(0i32 & 0x4000 == 0) by (bit_vector);
    assert(plain.meta_flag == 0);
    lemma_type_names();
    integer_nodes_read_their_width(plain, d, p);
    lemma_scalar_node_aligned(node, d, p);
    lemma_scalar_node(plain, d, p);
}

/// The views of type tree nodes.
pub open spec fn node_views(nodes: Seq<TypeTreeNode>) -> Seq<TypeTreeNodeView> {
    nodes.map_values(|n: TypeTreeNode| n@)
}

/// Indices of the direct children of `parent`.
pub fn direct_children(nodes: &[TypeTreeNode], parent: usize) -> (r: Vec<usize>)
    requires
        parent < nodes@.len(),
    ensures
        r@.map_values(|k: usize| k as int) == spec_children(node_views(nodes@), parent as int),
{
    let ghost views = node_views(nodes@);
    let child_level: u16 = nodes[parent].level as u16 + 1;
    let mut out: Vec<usize> = Vec::new();
    let mut i = parent + 1;
    proof {
        assert(out@.map_values(|k: usize| k as int) =~= Seq::<int>::empty());
    }
    while i < nodes.len() && nodes[i].level > nodes[parent].level
        invariant
            parent < i <= nodes@.len(),
            views == node_views(nodes@),
            child_level == views[parent as int].level + 1,
            spec_children(views, parent as int)
                == out@.map_values(|k: usize| k as int) + spec_children_from(views, parent as int, i as int),
        decreases nodes@.len() - i,
    {
        let ghost old_out = out@;
        if nodes[i].level as u16 == child_level {
            out.push(i);
            proof {
                assert(out@.map_values(|k: usize| k as int) =~= old_out.map_values(|k: usize| k as int).push(i as int));
            }
        }
        i = i + 1;
    }
    proof {
        assert(out@.map_values(|k: usize| k as int) + spec_children_from(views, parent as int, i as int)
            =~= out@.map_values(|k: usize| k as int));
    }
    out
}

pub open spec fn is_byte_type(t: Seq<char>) -> bool {
    t == "bool"@ || t == "char"@ || t == "SInt8"@ || t == "UInt8"@
}

pub open spec fn is_short_type(t: Seq<char>) -> bool {
    t == "SInt16"@ || t == "UInt16"@ || t == "short"@ || t == "unsigned short"@
}

pub open spec fn is_int_type(t: Seq<char>) -> bool {
    t == "int"@ || t == "SInt32"@ || t == "UInt32"@ || t == "unsigned int"@ || t == "Type*"@
}

pub open spec fn is_long_type(t: Seq<char>) -> bool {
    t == "SInt64"@ || t == "long long"@ || t == "UInt64"@ || t == "unsigned long long"@ || t == "FileSize"@
}

pub open spec fn is_vector_type(t: Seq<char>) -> bool {
    t == "vector"@ || t == "map"@ || t == "staticvector"@
}

/// A `float` value: its bits, or the integer 0 where it is not finite.
pub open spec fn float32_value(bits: u32) -> JsonView {
    if bits & 0x7F80_0000 == 0x7F80_0000 {
        JsonView::Int(0)
    } else {
        JsonView::Float32(bits)
    }
}

/// A `double` value: its bits, or the integer 0 where it is not finite.
pub open spec fn float64_value(bits: u64) -> JsonView {
    if bits & 0x7FF0_0000_0000_0000 == 0x7FF0_0000_0000_0000 {
        JsonView::Int(0)
    } else {
        JsonView::Float64(bits)
    }
}

/// A value read as an integer, where it is one.
pub open spec fn json_as_i64(v: JsonView) -> Option<i64> {
    match v {
        JsonView::Int(i) => Some(i),
        _ => None,
    }
}

/// Raw bytes: an `i32` length, the bytes, alignment; each byte becomes an
/// integer.
pub open spec fn spec_typeless(d: Seq<u8>, p: int) -> SpecRead<JsonView> {
    let size = spec_i32(d, p, false);
    let bytes = spec_take(d, pos_of(size), val_of(size) as int);
    let aligned = spec_align4_seek(pos_of(bytes), 0);
    if size is Err {
        Err(err_of(size))
    } else if bytes is Err {
        Err(err_of(bytes))
    } else if aligned is Err {
        Err(aligned->Err_0)
    } else {
        Ok((JsonView::Array(val_of(bytes).map_values(|b: u8| JsonView::Int(b as i64))), aligned->Ok_0))
    }
}

/// The value of a node whose type is read directly from the data; `None`
/// for the other types.
pub open spec fn spec_decode_scalar(t: Seq<char>, d: Seq<u8>, p: int) -> Option<SpecRead<JsonView>> {
    if is_byte_type(t) {
        Some(match spec_byte(d, p) { Ok((v, q)) => Ok((JsonView::Int(v as i64), q)), Err(e) => Err(e) })
    } else if is_short_type(t) {
        Some(match spec_i16(d, p, false) { Ok((v, q)) => Ok((JsonView::Int(v as i64), q)), Err(e) => Err(e) })
    } else if is_int_type(t) {
        Some(match spec_i32(d, p, false) { Ok((v, q)) => Ok((JsonView::Int(v as i64), q)), Err(e) => Err(e) })
    } else if is_long_type(t) {
        Some(match spec_i64(d, p, false) { Ok((v, q)) => Ok((JsonView::Int(v), q)), Err(e) => Err(e) })
    } else if t == "float"@ {
        Some(match spec_u32(d, p, false) { Ok((v, q)) => Ok((float32_value(v), q)), Err(e) => Err(e) })
    } else if t == "double"@ {
        Some(match spec_u64(d, p, false) { Ok((v, q)) => Ok((float64_value(v), q)), Err(e) => Err(e) })
    } else if t == "string"@ {
        Some(match spec_aligned_bytes(d, p) { Ok((b, q)) => Ok((JsonView::String(lenient_utf8(b)), q)), Err(e) => Err(e) })
    } else if t == "TypelessData"@ {
        Some(spec_typeless(d, p))
    } else {
        None
    }
}

/// Decoding of node `idx` from position `p`: a direct type is read as such;
/// an `Array` as in [`spec_decode_array`]; `vector`, `map` and
/// `staticvector` are their first child; any other type is an object as in
/// [`spec_decode_object`]. Nodes with meta flag 0x4000 are followed by
/// alignment to four bytes.
pub open spec fn spec_decode_node(nodes: Seq<TypeTreeNodeView>, idx: int, d: Seq<u8>, p: int) -> SpecRead<JsonView>
    decreases nodes.len() - idx, 3int, 0int,
{
    if !(0 <= idx < nodes.len()) {
        Err(UnpackError::MalformedTypeTree)
    } else {
        let node = nodes[idx];
        let kids = spec_children(nodes, idx);
        proof {
            lemma_children_bounds(nodes, idx);
        }
        let t = node.typename;
        let value = match spec_decode_scalar(t, d, p) {
            Some(r) => r,
            None => if t == "Array"@ {
                spec_decode_array(nodes, idx, d, p)
            } else if is_vector_type(t) {
                if kids.len() < 1 {
                    Err(UnpackError::MalformedTypeTree)
                } else {
                    spec_decode_node(nodes, kids[0], d, p)
                }
            } else {
                spec_decode_object(nodes, idx, d, p)
            },
        };
        match value {
            Err(e) => Err(e),
            Ok((v, q)) => if node.meta_flag & 0x4000 != 0 {
                match spec_align4_seek(q, 0) {
                    Ok(q2) => Ok((v, q2)),
                    Err(e) => Err(e),
                }
            } else {
                Ok((v, q))
            },
        }
    }
}

/// An array node: its size is decoded with its first child and must be a
/// non-negative integer; then that many elements are decoded with its
/// second child.
pub open spec fn spec_decode_array(nodes: Seq<TypeTreeNodeView>, idx: int, d: Seq<u8>, p: int) -> SpecRead<JsonView>
    decreases nodes.len() - idx, 2int, 0int,
{
    if !(0 <= idx < nodes.len()) {
        Err(UnpackError::MalformedTypeTree)
    } else {
        let kids = spec_children(nodes, idx);
        proof {
            lemma_children_bounds(nodes, idx);
        }
        if kids.len() < 2 {
            Err(UnpackError::MalformedTypeTree)
        } else {
            match spec_decode_node(nodes, kids[0], d, p) {
                Err(e) => Err(e),
                Ok((size, q)) => match json_as_i64(size) {
                    None => Err(UnpackError::ArraySizeNotInteger),
                    Some(count) => if count < 0 {
                        Err(UnpackError::NegativeArraySize)
                    } else {
                        match spec_decode_elems(nodes, idx, kids[1], count as nat, d, q) {
                            Ok((items, r)) => Ok((JsonView::Array(items), r)),
                            Err(e) => Err(e),
                        }
                    },
                },
            }
        }
    }
}

/// An object node: its children decoded one after another, each under its
/// name; their declared sizes must add up to at least the declared size of
/// the node, where that is positive.
pub open spec fn spec_decode_object(nodes: Seq<TypeTreeNodeView>, idx: int, d: Seq<u8>, p: int) -> SpecRead<JsonView>
    decreases nodes.len() - idx, 2int, 0int,
{
    if !(0 <= idx < nodes.len()) {
        Err(UnpackError::MalformedTypeTree)
    } else {
        let kids = spec_children(nodes, idx);
        match spec_decode_fields(nodes, idx, kids.len(), d, p) {
            Err(e) => Err(e),
            Ok((fields, q)) => if fields_size(nodes, kids) < nodes[idx].byte_size && nodes[idx].byte_size > 0 {
                Err(UnpackError::UnsupportedType)
            } else {
                Ok((JsonView::Object(fields), q))
            },
        }
    }
}

/// The first `n` children of `idx` decoded one after another, each with
/// its name.
pub open spec fn spec_decode_fields(nodes: Seq<TypeTreeNodeView>, idx: int, n: nat, d: Seq<u8>, p: int)
    -> SpecRead<Seq<(Seq<char>, JsonView)>>
    decreases nodes.len() - idx, 1int, n,
{
    if !(0 <= idx < nodes.len()) {
        Err(UnpackError::MalformedTypeTree)
    } else if n == 0 {
        Ok((Seq::empty(), p))
    } else {
        let kids = spec_children(nodes, idx);
        proof {
            lemma_children_bounds(nodes, idx);
        }
        let prev = spec_decode_fields(nodes, idx, (n - 1) as nat, d, p);
        if prev is Err {
            prev
        } else if n - 1 >= kids.len() {
            Err(UnpackError::MalformedTypeTree)
        } else {
            let c = kids[n - 1];
            match spec_decode_node(nodes, c, d, pos_of(prev)) {
                Err(e) => Err(e),
                Ok((v, q)) => Ok((val_of(prev).push((nodes[c].name, v)), q)),
            }
        }
    }
}

/// `n` elements of an array of node `idx`, each decoded by node `elem`.
pub open spec fn spec_decode_elems(nodes: Seq<TypeTreeNodeView>, idx: int, elem: int, n: nat, d: Seq<u8>, p: int)
    -> SpecRead<Seq<JsonView>>
    decreases nodes.len() - idx, 1int, n,
{
    if !(0 <= idx < elem < nodes.len()) {
        Err(UnpackError::MalformedTypeTree)
    } else if n == 0 {
        Ok((Seq::empty(), p))
    } else {
        let prev = spec_decode_elems(nodes, idx, elem, (n - 1) as nat, d, p);
        if prev is Err {
            prev
        } else {
            match spec_decode_node(nodes, elem, d, pos_of(prev)) {
                Err(e) => Err(e),
                Ok((v, q)) => Ok((val_of(prev).push(v), q)),
            }
        }
    }
}

/// Sum of the declared byte sizes of the nodes at `kids`.
pub open spec fn fields_size(nodes: Seq<TypeTreeNodeView>, kids: Seq<int>) -> int
    decreases kids.len(),
{
    if kids.len() == 0 {
        0
    } else {
        fields_size(nodes, kids.drop_last()) + nodes[kids.last()].byte_size
    }
}

fn byte_type(t: &String) -> (b: bool)
    ensures
        b == is_byte_type(t@),
{
    string_is(t, "bool") || string_is(t, "char") || string_is(t, "SInt8") || string_is(t, "UInt8")
}

fn short_type(t: &String) -> (b: bool)
    ensures
        b == is_short_type(t@),
{
    string_is(t, "SInt16") || string_is(t, "UInt16") || string_is(t, "short") || string_is(t, "unsigned short")
}

fn int_type(t: &String) -> (b: bool)
    ensures
        b == is_int_type(t@),
{
    string_is(t, "int") || string_is(t, "SInt32") || string_is(t, "UInt32") || string_is(t, "unsigned int") || string_is(t, "Type*")
}

fn long_type(t: &String) -> (b: bool)
    ensures
        b == is_long_type(t@),
{
    string_is(t, "SInt64") || string_is(t, "long long") || string_is(t, "UInt64") || string_is(t, "unsigned long long") || string_is(t, "FileSize")
}

fn vector_type(t: &String) -> (b: bool)
    ensures
        b == is_vector_type(t@),
{
    string_is(t, "vector") || string_is(t, "map") || string_is(t, "staticvector")
}

pub proof fn lemma_array_view(items: Vec<JsonValue>)
    ensures
        json_view(JsonValue::Array(items)) == JsonView::Array(items@.map_values(|x: JsonValue| x@)),
{
    let v = json_view(JsonValue::Array(items));
    let s = v->Array_0;
    assert(s.len() == items@.len());
    assert forall|i: int| 0 <= i < s.len() implies s[i] == items@.map_values(|x: JsonValue| x@)[i] by {}
    assert(s =~= items@.map_values(|x: JsonValue| x@));
}

pub proof fn lemma_object_view(fields: Vec<(String, JsonValue)>)
    ensures
        json_view(JsonValue::Object(fields)) == JsonView::Object(fields@.map_values(|f: (String, JsonValue)| (f.0@, f.1@))),
{
    let v = json_view(JsonValue::Object(fields));
    let s = v->Object_0;
    assert(s.len() == fields@.len());
    assert forall|i: int| 0 <= i < s.len() implies s[i] == fields@.map_values(|f: (String, JsonValue)| (f.0@, f.1@))[i] by {}
    assert(s =~= fields@.map_values(|f: (String, JsonValue)| (f.0@, f.1@)));
}

fn float32(bits: u32) -> (v: JsonValue)
    ensures
        v@ == float32_value(bits),
{
    if bits & 0x7F80_0000 == 0x7F80_0000 {
        JsonValue::Int(0)
    } else {
        JsonValue::Float32(bits)
    }
}

fn float64(bits: u64) -> (v: JsonValue)
    ensures
        v@ == float64_value(bits),
{
    if bits & 0x7FF0_0000_0000_0000 == 0x7FF0_0000_0000_0000 {
        JsonValue::Int(0)
    } else {
        JsonValue::Float64(bits)
    }
}

fn decode_typeless(reader: &mut Reader) -> (r: Result<JsonValue, UnpackError>)
    ensures
        read_follows(r, *old(reader), *final(reader), spec_typeless(old(reader).bytes(), old(reader).position())),
{
    let size = i32_le(reader)?;
    if size < 0 {
        return Err(UnpackError::UnexpectedEof);
    }
    let buf = reader.read_exact(size as u64)?;
    align4(reader, 0)?;
    let mut items: Vec<JsonValue> = Vec::new();
    let mut k: usize = 0;
    while k < buf.len()
        invariant
            k <= buf@.len(),
            items@.len() == k,
            forall|j: int| 0 <= j < k ==> #[trigger] items@[j] == JsonValue::Int(buf@[j] as i64),
        decreases buf@.len() - k,
    {
        items.push(JsonValue::Int(buf[k] as i64));
        k = k + 1;
    }
    proof {
        lemma_array_view(items);
        let ghost got = items@.map_values(|x: JsonValue| x@);
        let ghost want = buf@.map_values(|b: u8| JsonView::Int(b as i64));
        assert forall|j: int| 0 <= j < items@.len() implies #[trigger] got[j] == want[j] by {
            assert(items@[j] == JsonValue::Int(buf@[j] as i64));
        }
        assert(got =~= want);
    }
    let v = JsonValue::Array(items);
    Ok(v)
}

fn decode_scalar(t: &String, reader: &mut Reader) -> (r: Option<Result<JsonValue, UnpackError>>)
    ensures
        match spec_decode_scalar(t@, old(reader).bytes(), old(reader).position()) {
            None => r is None && final(reader).bytes() == old(reader).bytes()
                && final(reader).position() == old(reader).position(),
            Some(s) => r matches Some(res) && read_follows(res, *old(reader), *final(reader), s),
        },
{
    if byte_type(t) {
        Some(match byte(reader) {
            Ok(v) => Ok(JsonValue::Int(v as i64)),
            Err(e) => Err(e),
        })
    } else if short_type(t) {
        Some(match i16_le(reader) {
            Ok(v) => Ok(JsonValue::Int(v as i64)),
            Err(e) => Err(e),
        })
    } else if int_type(t) {
        Some(match i32_le(reader) {
            Ok(v) => Ok(JsonValue::Int(v as i64)),
            Err(e) => Err(e),
        })
    } else if long_type(t) {
        Some(match i64_le(reader) {
            Ok(v) => Ok(JsonValue::Int(v)),
            Err(e) => Err(e),
        })
    } else if string_is(t, "float") {
        Some(match u32_le(reader) {
            Ok(v) => Ok(float32(v)),
            Err(e) => Err(e),
        })
    } else if string_is(t, "double") {
        Some(match u64_le(reader) {
            Ok(v) => Ok(float64(v)),
            Err(e) => Err(e),
        })
    } else if string_is(t, "string") {
        Some(match aligned_bytes(reader) {
            Ok(b) => Ok(JsonValue::String(string_from_utf8_lossy(b.as_slice()))),
            Err(e) => Err(e),
        })
    } else if string_is(t, "TypelessData") {
        Some(decode_typeless(reader))
    } else {
        None
    }
}

proof fn lemma_elems_err(nodes: Seq<TypeTreeNodeView>, idx: int, elem: int, i: nat, n: nat, d: Seq<u8>, p: int)
    requires
        i <= n,
        spec_decode_elems(nodes, idx, elem, i, d, p) is Err,
    ensures
        spec_decode_elems(nodes, idx, elem, n, d, p) == spec_decode_elems(nodes, idx, elem, i, d, p),
    decreases n - i,
{
    if i < n {
        lemma_elems_err(nodes, idx, elem, i, (n - 1) as nat, d, p);
    }
}

proof fn lemma_fields_err(nodes: Seq<TypeTreeNodeView>, idx: int, i: nat, n: nat, d: Seq<u8>, p: int)
    requires
        i <= n,
        spec_decode_fields(nodes, idx, i, d, p) is Err,
    ensures
        spec_decode_fields(nodes, idx, n, d, p) == spec_decode_fields(nodes, idx, i, d, p),
    decreases n - i,
{
    if i < n {
        lemma_fields_err(nodes, idx, i, (n - 1) as nat, d, p);
    }
}

/// Decodes node `idx` of a type tree from the reader.
pub fn decode_node(nodes: &[TypeTreeNode], idx: usize, reader: &mut Reader) -> (r: Result<JsonValue, UnpackError>)
    requires
        idx < nodes@.len(),
    ensures
        read_follows(r, *old(reader), *final(reader),
            spec_decode_node(node_views(nodes@), idx as int, old(reader).bytes(), old(reader).position())),
    decreases nodes@.len() - idx, 3int,
{
    let ghost views = node_views(nodes@);
    let _ = reader.len();
    let node = &nodes[idx];
    proof {
        assert(views[idx as int] == node@);
        lemma_children_bounds(views, idx as int);
    }
    let value = match decode_scalar(&node.typename, reader) {
        Some(res) => res?,
        None => if string_is(&node.typename, "Array") {
            decode_array(nodes, idx, reader)?
        } else if vector_type(&node.typename) {
            let children = direct_children(nodes, idx);
            if children.len() < 1 {
                return Err(UnpackError::MalformedTypeTree);
            }
            proof {
                assert(children@.map_values(|k: usize| k as int)[0] == children@[0] as int);
            }
            decode_node(nodes, children[0], reader)?
        } else {
            decode_object(nodes, idx, reader)?
        },
    };
    if node.meta_flag & 0x4000 != 0 {
        align4(reader, 0)?;
    }
    Ok(value)
}

fn decode_array(nodes: &[TypeTreeNode], idx: usize, reader: &mut Reader) -> (r: Result<JsonValue, UnpackError>)
    requires
        idx < nodes@.len(),
    ensures
        read_follows(r, *old(reader), *final(reader),
            spec_decode_array(node_views(nodes@), idx as int, old(reader).bytes(), old(reader).position())),
    decreases nodes@.len() - idx, 2int,
{
    let ghost views = node_views(nodes@);
    let ghost kids = spec_children(views, idx as int);
    proof {
        lemma_children_bounds(views, idx as int);
    }
    let _ = reader.len();
    let ghost d = reader.bytes();
    let ghost p0 = reader.position();
    let children = direct_children(nodes, idx);
    if children.len() < 2 {
        return Err(UnpackError::MalformedTypeTree);
    }
    proof {
        assert(children@.map_values(|k: usize| k as int)[0] == children@[0] as int);
        assert(children@.map_values(|k: usize| k as int)[1] == children@[1] as int);
    }
    let size_val = decode_node(nodes, children[0], reader)?;
    let count = match size_val {
        JsonValue::Int(c) => c,
        _ => return Err(UnpackError::ArraySizeNotInteger),
    };
    if count < 0 {
        return Err(UnpackError::NegativeArraySize);
    }
    let elem = children[1];
    let ghost q0 = reader.position();
    let ghost size_view = size_val@;
    let mut items: Vec<JsonValue> = Vec::new();
    let mut i: i64 = 0;
    proof {
        assert(items@.map_values(|v: JsonValue| v@) =~= Seq::<JsonView>::empty());
    }
    while i < count
        invariant
            idx < elem < nodes@.len(),
            views == node_views(nodes@),
            kids == spec_children(views, idx as int),
            kids.len() >= 2,
            kids[1] == elem,
            d == old(reader).bytes(),
            p0 == old(reader).position(),
            spec_decode_node(views, kids[0], d, p0) == Ok::<(JsonView, int), UnpackError>((size_view, q0)),
            json_as_i64(size_view) == Some(count),
            reader.bytes() == d,
            0 <= i <= count,
            spec_decode_elems(views, idx as int, elem as int, i as nat, d, q0)
                == Ok::<(Seq<JsonView>, int), UnpackError>((items@.map_values(|v: JsonValue| v@), reader.position())),
        decreases count - i,
    {
        let v = match decode_node(nodes, elem, reader) {
            Ok(v) => v,
            Err(e) => {
                proof {
                    lemma_elems_err(views, idx as int, elem as int, (i + 1) as nat, count as nat, d, q0);
                }
                return Err(e);
            },
        };
        let ghost old_items = items@;
        items.push(v);
        proof {
            assert(items@.map_values(|x: JsonValue| x@) =~= old_items.map_values(|x: JsonValue| x@).push(v@));
        }
        i = i + 1;
    }
    proof {
        lemma_array_view(items);
    }
    Ok(JsonValue::Array(items))
}

fn decode_object(nodes: &[TypeTreeNode], idx: usize, reader: &mut Reader) -> (r: Result<JsonValue, UnpackError>)
    requires
        idx < nodes@.len(),
    ensures
        read_follows(r, *old(reader), *final(reader),
            spec_decode_object(node_views(nodes@), idx as int, old(reader).bytes(), old(reader).position())),
    decreases nodes@.len() - idx, 2int,
{
    let ghost views = node_views(nodes@);
    let ghost kids = spec_children(views, idx as int);
    let ghost d = reader.bytes();
    let ghost p0 = reader.position();
    proof {
        lemma_children_bounds(views, idx as int);
    }
    let children = direct_children(nodes, idx);
    let mut fields: Vec<(String, JsonValue)> = Vec::new();
    let mut total: i128 = 0;
    let mut k: usize = 0;
    let _ = reader.len();
    proof {
        assert(fields@.map_values(|f: (String, JsonValue)| (f.0@, f.1@)) =~= Seq::<(Seq<char>, JsonView)>::empty());
        assert(kids.take(0) =~= Seq::<int>::empty());
    }
    while k < children.len()
        invariant
            idx < nodes@.len(),
            views == node_views(nodes@),
            kids == spec_children(views, idx as int),
            children@.map_values(|c: usize| c as int) == kids,
            forall|j: int| 0 <= j < kids.len() ==> idx < #[trigger] kids[j] < nodes@.len(),
            d == old(reader).bytes(),
            p0 == old(reader).position(),
            reader.bytes() == d,
            d.len() <= isize::MAX,
            k <= children@.len(),
            -0x8000_0000 * k <= total <= 0x8000_0000 * k,
            total == fields_size(views, kids.take(k as int)),
            spec_decode_fields(views, idx as int, k as nat, d, p0)
                == Ok::<(Seq<(Seq<char>, JsonView)>, int), UnpackError>((fields@.map_values(|f: (String, JsonValue)| (f.0@, f.1@)), reader.position())),
        decreases children@.len() - k,
    {
        let c = children[k];
        proof {
            assert(kids[k as int] == c as int);
            assert(kids.take(k + 1).drop_last() =~= kids.take(k as int));
            assert(views[c as int] == nodes@[c as int]@);
        }
        let field_name = nodes[c].name.clone();
        total = total + nodes[c].byte_size as i128;
        let v = match decode_node(nodes, c, reader) {
            Ok(v) => v,
            Err(e) => {
                proof {
                    lemma_fields_err(views, idx as int, (k + 1) as nat, kids.len(), d, p0);
                }
                return Err(e);
            },
        };
        let ghost old_fields = fields@;
        let ghost fname = field_name@;
        fields.push((field_name, v));
        proof {
            assert(fields@.map_values(|f: (String, JsonValue)| (f.0@, f.1@))
                =~= old_fields.map_values(|f: (String, JsonValue)| (f.0@, f.1@)).push((fname, v@)));
        }
        k = k + 1;
    }
    proof {
        assert(kids.take(kids.len() as int) =~= kids);
        assert(views[idx as int] == nodes@[idx as int]@);
    }
    if total < nodes[idx].byte_size as i128 && nodes[idx].byte_size > 0 {
        return Err(UnpackError::UnsupportedType);
    }
    proof {
        lemma_object_view(fields);
    }
    Ok(JsonValue::Object(fields))
}

/// A whole type tree: `Null` where it has no nodes, else its root node.
pub open spec fn spec_decode(nodes: Seq<TypeTreeNodeView>, d: Seq<u8>, p: int) -> SpecRead<JsonView> {
    if nodes.len() == 0 {
        Ok((JsonView::Null, p))
    } else {
        spec_decode_node(nodes, 0, d, p)
    }
}

/// Decodes an object with the type tree `nodes` from the reader.
pub fn decode(nodes: &[TypeTreeNode], reader: &mut Reader) -> (r: Result<JsonValue, UnpackError>)
    ensures
        final(reader).bytes() == old(reader).bytes(),
        match spec_decode(node_views(nodes@), old(reader).bytes(), old(reader).position()) {
            Ok((v, q)) => r is Ok && r->Ok_0@ == v && final(reader).position() == q,
            Err(e) => r == Err::<JsonValue, UnpackError>(e),
        },
{
    if nodes.len() == 0 {
        return Ok(JsonValue::Null);
    }
    decode_node(nodes, 0, reader)
}

} // verus!
