use vstd::prelude::*;
use crate::text::same_text;

verus! {

/// A JSON value as the protocol logic reads and builds it.
#[derive(Debug)]
pub enum Json {
    Null,
    Bool(bool),
    /// Sign (true when non-negative), decimal mantissa and decimal exponent.
    Number(bool, u64, i16),
    Text(String),
    Array(Vec<Json>),
    /// Members in order.
    Object(Vec<(String, Json)>),
}

/// The mathematical value of a JSON document.
pub enum JsonTree {
    Null,
    Bool(bool),
    Number(bool, u64, i16),
    Text(Seq<char>),
    Array(Seq<JsonTree>),
    Object(Seq<(Seq<char>, JsonTree)>),
}

/// The mathematical value of a document of the library.
pub open spec fn tree(j: Json) -> JsonTree
    decreases j,
{
    match j {
        Json::Null => JsonTree::Null,
        Json::Bool(b) => JsonTree::Bool(b),
        Json::Number(p, m, e) => JsonTree::Number(p, m, e),
        Json::Text(s) => JsonTree::Text(s@),
        Json::Array(items) => JsonTree::Array(trees(items@)),
        Json::Object(members) => JsonTree::Object(member_trees(members@)),
    }
}

/// The values of a sequence of documents.
pub open spec fn trees(items: Seq<Json>) -> Seq<JsonTree>
    decreases items,
{
    if items.len() == 0 {
        Seq::empty()
    } else {
        seq![tree(items[0])] + trees(items.subrange(1, items.len() as int))
    }
}

/// The names and values of a sequence of object members.
pub open spec fn member_trees(members: Seq<(String, Json)>) -> Seq<(Seq<char>, JsonTree)>
    decreases members,
{
    if members.len() == 0 {
        Seq::empty()
    } else {
        seq![(members[0].0@, tree(members[0].1))] + member_trees(
            members.subrange(1, members.len() as int),
        )
    }
}

pub broadcast proof fn lemma_trees(items: Seq<Json>)
    ensures
        #[trigger] trees(items).len() == items.len(),
        forall|i: int| 0 <= i < items.len() ==> #[trigger] trees(items)[i] == tree(items[i]),
    decreases items.len(),
{
    if items.len() > 0 {
        let rest = items.subrange(1, items.len() as int);
        lemma_trees(rest);
        assert forall|i: int| 0 <= i < items.len() implies #[trigger] trees(items)[i] == tree(
            items[i],
        ) by {
            if i > 0 {
                assert(trees(items)[i] == trees(rest)[i - 1]);
                assert(rest[i - 1] == items[i]);
            }
        }
    }
}

pub broadcast proof fn lemma_member_trees(members: Seq<(String, Json)>)
    ensures
        #[trigger] member_trees(members).len() == members.len(),
        forall|i: int|
            0 <= i < members.len() ==> #[trigger] member_trees(members)[i] == (
                members[i].0@,
                tree(members[i].1),
            ),
    decreases members.len(),
{
    if members.len() > 0 {
        let rest = members.subrange(1, members.len() as int);
        lemma_member_trees(rest);
        assert forall|i: int| 0 <= i < members.len() implies #[trigger] member_trees(members)[i] == (
            members[i].0@,
            tree(members[i].1),
        ) by {
            if i > 0 {
                assert(member_trees(members)[i] == member_trees(rest)[i - 1]);
                assert(rest[i - 1] == members[i]);
            }
        }
    }
}

pub broadcast group group_json_lemmas {
    lemma_trees,
    lemma_member_trees,
}

impl View for Json {
    type V = JsonTree;

    open spec fn view(&self) -> JsonTree {
        tree(*self)
    }
}

/// The json crate's document type, which only passes between the conversions below.
#[verifier::external_type_specification]
#[verifier::external_body]
pub struct ExJsonValue(json::JsonValue);

/// The document that `json::parse` reads from a text, or `None` where it reports an error.
pub uninterp spec fn json_parse(text: Seq<char>) -> Option<JsonTree>;

/// The compact text that `JsonValue::dump` writes for a document.
pub uninterp spec fn json_dump(value: JsonTree) -> Seq<char>;

pub open spec fn tree_of(j: Option<Json>) -> Option<JsonTree> {
    match j {
        Some(v) => Some(v@),
        None => None,
    }
}

/// Builds the json crate's value for a document of the library, variant for variant:
/// numbers through `Number::from_parts`, objects through `Object::new` and
/// `Object::insert`, members in order. Nothing is stated of the result; `dump_json`
/// names what is written for it.
#[verifier::external_body]
fn to_value(j: &Json) -> json::JsonValue {
    match j {
        Json::Null => json::JsonValue::Null,
        Json::Bool(b) => json::JsonValue::Boolean(*b),
        Json::Number(p, m, e) => json::JsonValue::Number(json::number::Number::from_parts(*p, *m, *e)),
        Json::Text(s) => json::JsonValue::String(s.clone()),
        Json::Array(items) => json::JsonValue::Array(items.iter().map(to_value).collect()),
        Json::Object(members) => {
            let mut o = json::object::Object::new();
            for (k, v) in members.iter() {
                o.insert(k, to_value(v));
            }
            json::JsonValue::Object(o)
        },
    }
}

/// Reads a value of the json crate into the library's model, variant for variant:
/// numbers through `Number::as_parts`, short strings through `Short::as_str`, objects
/// through `Object::iter`, members in the order the crate keeps them. Nothing is
/// stated of the result; `parse_json` names what is read.
#[verifier::external_body]
fn from_value(v: &json::JsonValue) -> Json {
    match v {
        json::JsonValue::Null => Json::Null,
        json::JsonValue::Boolean(b) => Json::Bool(*b),
        json::JsonValue::Number(n) => {
            let (p, m, e) = n.as_parts();
            Json::Number(p, m, e)
        },
        json::JsonValue::Short(s) => Json::Text(s.as_str().to_string()),
        json::JsonValue::String(s) => Json::Text(s.clone()),
        json::JsonValue::Array(items) => Json::Array(items.iter().map(from_value).collect()),
        json::JsonValue::Object(o) => Json::Object(o.iter().map(|(k, x)| (k.to_string(), from_value(x))).collect()),
    }
}

/// Relies on `json::parse`: the document a text holds, or `None` where the crate
/// reports a syntax error.
#[verifier::external_body]
pub fn parse_json(text: &str) -> (r: Option<Json>)
    ensures
        tree_of(r) == json_parse(text@),
{
    json::parse(text).ok().map(|v| from_value(&v))
}

/// Relies on `JsonValue::dump`: the compact JSON text of a document.
#[verifier::external_body]
pub fn dump_json(j: &Json) -> (r: String)
    ensures
        r@ == json_dump(j@),
{
    to_value(j).dump()
}

/// The value of the first member named `key` among `members`.
pub open spec fn first_member(members: Seq<(Seq<char>, JsonTree)>, key: Seq<char>) -> Option<
    JsonTree,
>
    decreases members.len(),
{
    if members.len() == 0 {
        None
    } else if members[0].0 == key {
        Some(members[0].1)
    } else {
        first_member(members.drop_first(), key)
    }
}

/// The member `key` of an object; `None` for a missing member or a non-object.
pub open spec fn member(t: JsonTree, key: Seq<char>) -> Option<JsonTree> {
    match t {
        JsonTree::Object(members) => first_member(members, key),
        _ => None,
    }
}

/// Element `i` of an array; `None` out of range or for a non-array.
pub open spec fn element(t: JsonTree, i: int) -> Option<JsonTree> {
    match t {
        JsonTree::Array(items) => if 0 <= i < items.len() {
            Some(items[i])
        } else {
            None
        },
        _ => None,
    }
}

/// A number written as a plain non-negative integer that fits in `u32`.
pub open spec fn tree_u32(t: JsonTree) -> Option<u32> {
    match t {
        JsonTree::Number(positive, mantissa, exponent) => if positive && exponent == 0
            && mantissa <= u32::MAX {
            Some(mantissa as u32)
        } else {
            None
        },
        _ => None,
    }
}

/// The text of a string.
pub open spec fn tree_text(t: JsonTree) -> Option<Seq<char>> {
    match t {
        JsonTree::Text(s) => Some(s),
        _ => None,
    }
}

/// The items of an array.
pub open spec fn tree_items(t: JsonTree) -> Option<Seq<JsonTree>> {
    match t {
        JsonTree::Array(items) => Some(items),
        _ => None,
    }
}

proof fn lemma_first_member_skip(members: Seq<(Seq<char>, JsonTree)>, key: Seq<char>, i: int)
    requires
        0 <= i <= members.len(),
        forall|j: int| 0 <= j < i ==> (#[trigger] members[j]).0 != key,
    ensures
        first_member(members, key) == first_member(members.subrange(i, members.len() as int), key),
    decreases i,
{
    if i > 0 {
        lemma_first_member_skip(members.drop_first(), key, i - 1);
        assert(members.drop_first().subrange(i - 1, members.len() - 1) =~= members.subrange(
            i,
            members.len() as int,
        ));
    } else {
        assert(members.subrange(0, members.len() as int) =~= members);
    }
}

pub open spec fn ref_tree(r: Option<&Json>) -> Option<JsonTree> {
    match r {
        Some(v) => Some(v@),
        None => None,
    }
}

impl Json {
    /// A non-negative integer.
    pub fn number(n: u32) -> (r: Json)
        ensures
            r@ == JsonTree::Number(true, n as u64, 0),
    {
        Json::Number(true, n as u64, 0)
    }

    /// A string.
    pub fn text(s: &str) -> (r: Json)
        ensures
            r@ == JsonTree::Text(s@),
    {
        Json::Text(s.to_owned())
    }

    /// The member `key`, where this is an object that has one.
    pub fn get(&self, key: &str) -> (r: Option<&Json>)
        ensures
            ref_tree(r) == member(self@, key@),
    {
        broadcast use group_json_lemmas;

        match self {
            Json::Object(members) => {
                assert(self@ == JsonTree::Object(member_trees(members@)));
                let ghost ms = member_trees(members@);
                assert(ms.len() == members.len());
                let mut i: usize = 0;
                while i < members.len()
                    invariant
                        i <= members.len(),
                        ms.len() == members.len(),
                        forall|j: int|
                            0 <= j < members.len() ==> #[trigger] ms[j] == (
                                members@[j].0@,
                                members@[j].1@,
                            ),
                        forall|j: int| 0 <= j < i ==> (#[trigger] ms[j]).0 != key@,
                        self@ == JsonTree::Object(ms),
                    decreases members.len() - i,
                {
                    assert(ms[i as int] == (members@[i as int].0@, members@[i as int].1@));
                    if same_text(members[i].0.as_str(), key) {
                        proof {
                            lemma_first_member_skip(ms, key@, i as int);
                        }
                        return Some(&members[i].1);
                    }
                    i = i + 1;
                }
                proof {
                    lemma_first_member_skip(ms, key@, i as int);
                }
                None
            },
            _ => None,
        }
    }

    /// Element `i`, where this is an array that long.
    pub fn at(&self, i: usize) -> (r: Option<&Json>)
        ensures
            ref_tree(r) == element(self@, i as int),
    {
        broadcast use group_json_lemmas;

        match self {
            Json::Array(items) => {
                assert(self@ == JsonTree::Array(trees(items@)));
                if i < items.len() {
                    Some(&items[i])
                } else {
                    None
                }
            },
            _ => None,
        }
    }

    /// The number of items, where this is an array.
    pub fn items_len(&self) -> (r: Option<usize>)
        ensures
            r matches Some(n) ==> tree_items(self@) matches Some(items) && items.len() == n,
            r is None ==> tree_items(self@) is None,
    {
        broadcast use group_json_lemmas;

        match self {
            Json::Array(items) => {
                assert(self@ == JsonTree::Array(trees(items@)));
                Some(items.len())
            },
            _ => None,
        }
    }

    /// The value, where this is a plain non-negative integer that fits in `u32`.
    pub fn as_u32(&self) -> (r: Option<u32>)
        ensures
            r == tree_u32(self@),
    {
        match self {
            Json::Number(positive, mantissa, exponent) => if *positive && *exponent == 0
                && *mantissa <= 0xffff_ffff {
                Some(*mantissa as u32)
            } else {
                None
            },
            _ => None,
        }
    }

    /// The text, where this is a string.
    pub fn as_text(&self) -> (r: Option<&str>)
        ensures
            r matches Some(s) ==> tree_text(self@) == Some(s@),
            r is None ==> tree_text(self@) is None,
    {
        match self {
            Json::Text(s) => Some(s.as_str()),
            _ => None,
        }
    }
}

} // verus!
