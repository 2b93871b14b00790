//! JSON documents, as `serde_json` reads, holds and writes them.
use vstd::prelude::*;

verus! {

/// What a JSON value holds. A number is `Int` where it is a whole number in the
/// range of `i64` or `u64`, written without a fraction or an exponent; the
/// value of any other number is left out.
pub enum JsonTree {
    Null,
    Bool(bool),
    Int(int),
    OtherNumber,
    Str(Seq<char>),
    Array(Seq<JsonTree>),
    Object(Map<Seq<char>, JsonTree>),
}

impl JsonTree {
    /// The member of an object under `key`.
    pub open spec fn member(self, key: Seq<char>) -> Option<JsonTree> {
        match self {
            JsonTree::Object(fields) => if fields.dom().contains(key) {
                Some(fields[key])
            } else {
                None
            },
            _ => None,
        }
    }

    /// The truth value, if this is one.
    pub open spec fn truth(self) -> Option<bool> {
        match self {
            JsonTree::Bool(b) => Some(b),
            _ => None,
        }
    }

    /// The number, if this is a whole number in the range of `i64`.
    pub open spec fn whole(self) -> Option<int> {
        match self {
            JsonTree::Int(n) => if i64::MIN <= n <= i64::MAX {
                Some(n)
            } else {
                None
            },
            _ => None,
        }
    }

    /// The text, if this is a string.
    pub open spec fn string(self) -> Option<Seq<char>> {
        match self {
            JsonTree::Str(text) => Some(text),
            _ => None,
        }
    }

    /// The elements, if this is an array.
    pub open spec fn elements(self) -> Option<Seq<JsonTree>> {
        match self {
            JsonTree::Array(items) => Some(items),
            _ => None,
        }
    }

    /// No more than `depth` arrays and objects are nested, and every number is
    /// an `Int`.
    pub open spec fn plain(self, depth: nat) -> bool
        decreases depth,
    {
        match self {
            JsonTree::OtherNumber => false,
            JsonTree::Array(items) => {
                &&& depth > 0
                &&& forall|i: int| 0 <= i < items.len() ==> (#[trigger] items[i]).plain((depth - 1) as nat)
            },
            JsonTree::Object(fields) => {
                &&& depth > 0
                &&& forall|key: Seq<char>| fields.dom().contains(key)
                    ==> (#[trigger] fields[key]).plain((depth - 1) as nat)
            },
            _ => true,
        }
    }
}

/// A value of `serde_json`.
#[verifier::external_type_specification]
#[verifier::external_body]
pub struct ExValue(serde_json::Value);

/// What a `serde_json::Value` holds: the members of an object, the elements of an
/// array, or a single value.
pub uninterp spec fn json_tree(value: serde_json::Value) -> JsonTree;

/// What `serde_json::from_str` reads from a text: the value that the text
/// denotes, or nothing where it denotes none.
pub uninterp spec fn json_parse(text: Seq<char>) -> Option<JsonTree>;

/// The compact text that `serde_json` writes for a value.
pub uninterp spec fn json_text(tree: JsonTree) -> Seq<char>;

/// `serde_json::from_str::<serde_json::Value>`, without the error's details.
#[verifier::external_body]
pub(crate) fn parse_json(text: &str) -> (value: Option<serde_json::Value>)
    ensures
        json_parse(text@) == match value {
            Some(v) => Some(json_tree(v)),
            None => None,
        },
{
    serde_json::from_str::<serde_json::Value>(text).ok()
}

/// `serde_json::Value::get` with a string: the member of an object under that
/// key; nothing for any other value.
#[verifier::external_body]
pub(crate) fn member<'a>(value: &'a serde_json::Value, key: &str) -> (found: Option<&'a serde_json::Value>)
    ensures
        json_tree(*value).member(key@) == match found {
            Some(v) => Some(json_tree(*v)),
            None => None,
        },
{
    value.get(key)
}

/// `serde_json::Value::as_bool`: the truth value, if the value is one.
pub assume_specification[ serde_json::Value::as_bool ](value: &serde_json::Value) -> (b: Option<bool>)
    ensures
        b == json_tree(*value).truth(),
;

/// `serde_json::Value::as_i64`: the number, if the value is a whole number in
/// the range of `i64`.
pub assume_specification[ serde_json::Value::as_i64 ](value: &serde_json::Value) -> (n: Option<i64>)
    ensures
        json_tree(*value).whole() == match n {
            Some(k) => Some(k as int),
            None => None,
        },
;

/// `serde_json::Value::as_str`: the text, if the value is a string.
pub assume_specification[ serde_json::Value::as_str ](value: &serde_json::Value) -> (s: Option<&str>)
    ensures
        json_tree(*value).string() == match s {
            Some(t) => Some(t@),
            None => None,
        },
;

/// `serde_json::Value::as_array`: the elements in their order, if the value is
/// an array.
pub assume_specification[ serde_json::Value::as_array ](value: &serde_json::Value) -> (items: Option<
    &Vec<serde_json::Value>,
>)
    ensures
        json_tree(*value).elements() == match items {
            Some(list) => Some(Seq::new(list@.len(), |i: int| json_tree(list@[i]))),
            None => None,
        },
;

/// `serde_json::Value::Bool`.
#[verifier::external_body]
pub(crate) fn json_bool(b: bool) -> (value: serde_json::Value)
    ensures
        json_tree(value) == JsonTree::Bool(b),
{
    serde_json::Value::Bool(b)
}

/// `serde_json::Value::from` on an `i64`.
#[verifier::external_body]
pub(crate) fn json_int(n: i64) -> (value: serde_json::Value)
    ensures
        json_tree(value) == JsonTree::Int(n as int),
{
    serde_json::Value::from(n)
}

/// `serde_json::Value::from` on a text.
#[verifier::external_body]
pub(crate) fn json_string(text: &str) -> (value: serde_json::Value)
    ensures
        json_tree(value) == JsonTree::Str(text@),
{
    serde_json::Value::from(text)
}

/// `serde_json::Value::Object` on `serde_json::Map::new`: an object without
/// members.
#[verifier::external_body]
pub(crate) fn json_object() -> (value: serde_json::Value)
    ensures
        json_tree(value) == JsonTree::Object(Map::empty()),
{
    serde_json::Value::Object(serde_json::Map::new())
}

/// Assignment through `serde_json::Value::index_mut`: sets the member of an
/// object under `key`, which need not exist yet. On a value that is neither an
/// object nor null the indexing panics.
#[verifier::external_body]
pub(crate) fn set_member(object: &mut serde_json::Value, key: &str, value: serde_json::Value)
    requires
        json_tree(*old(object)) is Object,
    ensures
        json_tree(*final(object)) == JsonTree::Object(
            json_tree(*old(object))->Object_0.insert(key@, json_tree(value)),
        ),
{
    object[key] = value;
}

/// `serde_json::Value::to_string`: the compact text of the value, from which
/// `serde_json::from_str` reads the value again. Left out are values with a
/// fraction among their numbers, which the tree does not tell, and those nested
/// more deeply than `serde_json::from_str` reads.
#[verifier::external_body]
pub(crate) fn write_json(value: &serde_json::Value) -> (text: String)
    requires
        json_tree(*value).plain(127),
    ensures
        text@ == json_text(json_tree(*value)),
        json_parse(text@) == Some(json_tree(*value)),
{
    value.to_string()
}

/// What the parts of a value are: a value has a truth value, a whole number, a
/// text or elements exactly where it is of that kind, and a member exactly where
/// it is an object that has it.
pub proof fn law_parts_of_a_value(tree: JsonTree, key: Seq<char>)
    ensures
        forall|b: bool| tree.truth() == Some(b) <==> tree == JsonTree::Bool(b),
        forall|n: int|
            tree.whole() == Some(n) <==> tree == JsonTree::Int(n) && -0x8000_0000_0000_0000 <= n
                <= 0x7FFF_FFFF_FFFF_FFFF,
        forall|text: Seq<char>| tree.string() == Some(text) <==> tree == JsonTree::Str(text),
        forall|items: Seq<JsonTree>| tree.elements() == Some(items) <==> tree == JsonTree::Array(items),
        forall|value: JsonTree|
            tree.member(key) == Some(value) <==> tree is Object && tree->Object_0.dom().contains(key)
                && tree->Object_0[key] == value,
{
}

} // verus!
