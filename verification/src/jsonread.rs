//! Reading JSON text the agent is handed (persona files, model replies,
//! memory facets): ndata's parser reads it, and the library takes from
//! the parsed object only the plain values its rules look at.
use vstd::prelude::*;
use ndata::data::Data;
use ndata::dataobject::DataObject;

verus! {

/// An item of a JSON array, as far as the library reads it.
pub enum Item {
    Text(String),
    Int(i64),
    Other,
}

/// The value under a key of a JSON object, as far as the library reads
/// it: a string, an integer, an array (its items), or anything else.
pub enum Field {
    Text(String),
    Int(i64),
    List(Vec<Item>),
    Other,
}

/// An array item's value.
pub enum ItemView {
    Text(Seq<char>),
    Int(i64),
    Other,
}

/// A key's value.
pub enum FieldView {
    Text(Seq<char>),
    Int(i64),
    List(Seq<ItemView>),
    Other,
}

/// The value of an array item.
pub open spec fn item_view(i: Item) -> ItemView {
    match i {
        Item::Text(s) => ItemView::Text(s@),
        Item::Int(n) => ItemView::Int(n),
        Item::Other => ItemView::Other,
    }
}

/// The value under a key.
pub open spec fn field_view(f: Field) -> FieldView {
    match f {
        Field::Text(s) => FieldView::Text(s@),
        Field::Int(n) => FieldView::Int(n),
        Field::List(v) => FieldView::List(v@.map_values(|i: Item| item_view(i))),
        Field::Other => FieldView::Other,
    }
}

/// What ndata's parser (`DataObject::try_from_string`) reads under `key`
/// in the text `text`: `None` when the text is no JSON object, `Some(None)`
/// when the object has no such key.
pub uninterp spec fn json_field(text: Seq<char>, key: Seq<char>) -> Option<Option<FieldView>>;

/// ndata's `DataObject::try_from_string` on `text`, and the value it holds
/// under `key`, converted to plain values; the result is the name
/// `json_field` of the text and the key. The parser computes on the text
/// alone, but it works in ndata's shared heap, which the host program
/// sets up (`ndata::init`) before any command runs; no clause states that.
#[verifier::external_body]
pub(crate) fn object_field(text: &str, key: &str) -> (r: Option<Option<Field>>)
    ensures
        json_field(text@, key@) == match r {
            None => None,
            Some(None) => Some(None),
            Some(Some(f)) => Some(Some(field_view(f))),
        },
{
    let o = DataObject::try_from_string(text).ok()?;
    let d = match o.try_get_property(key) { Ok(d) => d, Err(_) => return Some(None) };
    let item = |d: Data| match d { Data::DString(s) => Item::Text(s), Data::DInt(n) => Item::Int(n), _ => Item::Other };
    Some(Some(match d {
        Data::DString(s) => Field::Text(s),
        Data::DInt(n) => Field::Int(n),
        Data::DArray(_) => Field::List(o.get_array(key).objects().into_iter().map(item).collect()),
        _ => Field::Other,
    }))
}

/// The object `{"a":text}`: the agent reads a JSON array `text` as the
/// value under `a` of this object.
pub open spec fn wrapped(text: Seq<char>) -> Seq<char> {
    "{\"a\":"@ + text + "}"@
}

/// The items of the JSON array `text`, as ndata's parser reads them:
/// `None` when it is no array.
pub open spec fn array_items(text: Seq<char>) -> Option<Seq<ItemView>> {
    match json_field(wrapped(text), "a"@) {
        Some(Some(FieldView::List(items))) => Some(items),
        _ => None,
    }
}

/// The items of the JSON array `text` (see `array_items`).
pub fn json_array(text: &str) -> (r: Option<Vec<Item>>)
    ensures
        match r {
            Some(v) => array_items(text@) == Some(v@.map_values(|i: Item| item_view(i))),
            None => array_items(text@) is None,
        },
{
    let w = crate::text::concat3("{\"a\":", text, "}");
    match object_field(w.as_str(), "a") {
        Some(Some(Field::List(v))) => Some(v),
        _ => None,
    }
}

} // verus!
