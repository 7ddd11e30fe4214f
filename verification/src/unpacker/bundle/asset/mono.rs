//! Script objects (`MonoBehaviour`), decoded by their type tree.

use vstd::prelude::*;

use crate::error::UnpackError;
use crate::unpacker::bundle::read::{
    Reader, SpecRead, read_follows, spec_byte, spec_align4_seek, spec_aligned_string, spec_take, pos_of, val_of,
    err_of, byte, align4, aligned_string, string_is,
};
use crate::unpacker::bundle::serialized::{TypeTreeNode, TypeTreeNodeView};
use crate::unpacker::bundle::typetree::{
    JsonValue, JsonView, spec_decode, node_views, decode, lemma_object_view,
};
use super::common::{ObjectPtr, spec_object_ptr};

verus! {

/// A script object: its name and its data, decoded by the type tree.
#[derive(Debug)]
pub struct MonoBehaviour {
    pub name: String,
    pub data: JsonValue,
}

pub struct MonoBehaviourView {
    pub name: Seq<char>,
    pub data: JsonView,
}

impl View for MonoBehaviour {
    type V = MonoBehaviourView;

    open spec fn view(&self) -> MonoBehaviourView {
        MonoBehaviourView { name: self.name@, data: self.data@ }
    }
}

/// The value of the last field called `key` among `fields`, if any.
pub open spec fn last_field(fields: Seq<(Seq<char>, JsonView)>, key: Seq<char>) -> Option<JsonView>
    decreases fields.len(),
{
    if fields.len() == 0 {
        None
    } else if fields.last().0 == key {
        Some(fields.last().1)
    } else {
        last_field(fields.drop_last(), key)
    }
}

/// The name that decoded data gives itself: its field `m_Name` where the
/// data is an object and that field is text (the last one, where there are
/// several), else empty text.
pub open spec fn spec_object_name(data: JsonView) -> Seq<char> {
    match data {
        JsonView::Object(fields) => match last_field(fields, "m_Name"@) {
            Some(JsonView::String(s)) => s,
            _ => Seq::empty(),
        },
        _ => Seq::empty(),
    }
}

/// A script object without a type tree at `abs` of size `byte_size`: the
/// owning game object, the enabled flag, alignment, the script and the
/// name; the rest, up to `abs + byte_size`, is read and left undecoded.
pub open spec fn spec_mono_plain(d: Seq<u8>, abs: int, byte_size: int) -> SpecRead<MonoBehaviourView> {
    let game_object = spec_object_ptr(d, abs);
    let enabled = spec_byte(d, pos_of(game_object));
    let aligned = spec_align4_seek(pos_of(enabled), 0);
    let script = spec_object_ptr(d, aligned->Ok_0);
    let name = spec_aligned_string(d, pos_of(script));
    let data_start = pos_of(name);
    let data_end = abs + byte_size;
    let rest = spec_take(d, data_start, data_end - data_start);
    if game_object is Err {
        Err(err_of(game_object))
    } else if enabled is Err {
        Err(err_of(enabled))
    } else if aligned is Err {
        Err(aligned->Err_0)
    } else if script is Err {
        Err(err_of(script))
    } else if name is Err {
        Err(err_of(name))
    } else if data_end > u64::MAX || data_end < data_start {
        Err(UnpackError::ObjectOutOfRange)
    } else if rest is Err {
        Err(err_of(rest))
    } else {
        Ok((MonoBehaviourView { name: val_of(name), data: JsonView::Null }, pos_of(rest)))
    }
}

/// A script object at `abs`: read plainly where the type tree has no
/// nodes, else decoded by the tree and named by its `m_Name` field.
pub open spec fn spec_mono(nodes: Seq<TypeTreeNodeView>, d: Seq<u8>, abs: int, byte_size: int) -> SpecRead<MonoBehaviourView> {
    if nodes.len() == 0 {
        spec_mono_plain(d, abs, byte_size)
    } else {
        match spec_decode(nodes, d, abs) {
            Ok((v, q)) => Ok((MonoBehaviourView { name: spec_object_name(v), data: v }, q)),
            Err(e) => Err(e),
        }
    }
}

/// The text of the last field `key` of `fields`, where that field is text.
fn last_text_field(fields: &Vec<(String, JsonValue)>, key: &str) -> (r: Option<String>)
    ensures
        match last_field(fields@.map_values(|f: (String, JsonValue)| (f.0@, f.1@)), key@) {
            Some(JsonView::String(s)) => r is Some && r->Some_0@ == s,
            _ => r is None,
        },
{
    let ghost views = fields@.map_values(|f: (String, JsonValue)| (f.0@, f.1@));
    let mut k = fields.len();
    proof {
        assert(views.take(k as int) =~= views);
    }
    while k > 0
        invariant
            k <= fields@.len(),
            views == fields@.map_values(|f: (String, JsonValue)| (f.0@, f.1@)),
            last_field(views, key@) == last_field(views.take(k as int), key@),
        decreases k,
    {
        let ghost prefix = views.take(k as int);
        proof {
            assert(prefix.last() == views[k - 1]);
            assert(prefix.drop_last() =~= views.take(k - 1));
        }
        if string_is(&fields[k - 1].0, key) {
            return match &fields[k - 1].1 {
                JsonValue::String(s) => Some(s.clone()),
                _ => None,
            };
        }
        k = k - 1;
    }
    proof {
        assert(views.take(0) =~= Seq::<(Seq<char>, JsonView)>::empty());
    }
    None
}

/// The name of decoded data, as [`spec_object_name`] says.
fn object_name(data: &JsonValue) -> (s: String)
    ensures
        s@ == spec_object_name(data@),
{
    match data {
        JsonValue::Object(fields) => {
            proof {
                lemma_object_view(*fields);
            }
            match last_text_field(fields, "m_Name") {
                Some(s) => s,
                None => String::new(),
            }
        },
        _ => String::new(),
    }
}

impl MonoBehaviour {
    /// Reads the script object stored at `abs_offset` with the type tree
    /// `nodes`; `byte_size` is the size of the object, used where the tree
    /// has no nodes.
    pub fn parse(nodes: &[TypeTreeNode], reader: &mut Reader, abs_offset: u64, byte_size: u32)
        -> (r: Result<Self, UnpackError>)
        ensures
            read_follows(r, *old(reader), *final(reader),
                spec_mono(node_views(nodes@), old(reader).bytes(), abs_offset as int, byte_size as int)),
    {
        reader.seek_start(abs_offset);
        if nodes.len() == 0 {
            let _game_object = ObjectPtr::parse(reader)?;
            let _enabled = byte(reader)?;
            align4(reader, 0)?;
            let _script = ObjectPtr::parse(reader)?;
            let name = aligned_string(reader)?;
            let data_start = reader.stream_position();
            if abs_offset > u64::MAX - byte_size as u64 {
                return Err(UnpackError::ObjectOutOfRange);
            }
            let data_end = abs_offset + byte_size as u64;
            if data_end < data_start {
                return Err(UnpackError::ObjectOutOfRange);
            }
            let _data = reader.read_exact(data_end - data_start)?;
            return Ok(MonoBehaviour { name, data: JsonValue::Null });
        }
        let data = decode(nodes, reader)?;
        let name = object_name(&data);
        Ok(MonoBehaviour { name, data })
    }
}

} // verus!
