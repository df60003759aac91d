//! JSON: values as far as the library reads them, and their text.

use vstd::prelude::*;
use vstd::string::*;
use crate::text;

verus! {

/// A JSON value. An object keeps its members in a list, each name once.
pub enum Json {
    Null,
    Bool(bool),
    /// A number that is a 64-bit signed integer.
    Int(i64),
    /// Any other number, as the `serde_json` crate writes it.
    Number(String),
    Text(String),
    Array(Vec<Json>),
    Object(Vec<(String, Json)>),
}

#[verifier::ext_equal]
pub enum JsonView {
    Null,
    Bool(bool),
    Int(i64),
    Number(Seq<char>),
    Text(Seq<char>),
    Array(Seq<JsonView>),
    Object(Seq<(Seq<char>, JsonView)>),
}

pub open spec fn json_view(j: Json) -> JsonView
    decreases j,
{
    match j {
        Json::Null => JsonView::Null,
        Json::Bool(b) => JsonView::Bool(b),
        Json::Int(n) => JsonView::Int(n),
        Json::Number(s) => JsonView::Number(s@),
        Json::Text(s) => JsonView::Text(s@),
        Json::Array(v) => JsonView::Array(
            Seq::new(
                v@.len(),
                |i: int|
                    if 0 <= i < v@.len() {
                        json_view(v@[i])
                    } else {
                        JsonView::Null
                    },
            ),
        ),
        Json::Object(v) => JsonView::Object(
            Seq::new(
                v@.len(),
                |i: int|
                    if 0 <= i < v@.len() {
                        (v@[i].0@, json_view(v@[i].1))
                    } else {
                        (seq![], JsonView::Null)
                    },
            ),
        ),
    }
}

impl DeepView for Json {
    type V = JsonView;

    open spec fn deep_view(&self) -> JsonView {
        json_view(*self)
    }
}

// ---- reading values ----

/// The value of the first member with the given name, from `i` on.
pub open spec fn member(v: Seq<(Seq<char>, JsonView)>, key: Seq<char>, i: int) -> Option<JsonView>
    decreases v.len() - i,
{
    if i < 0 || i >= v.len() {
        None
    } else if v[i].0 == key {
        Some(v[i].1)
    } else {
        member(v, key, i + 1)
    }
}

/// The member of an object with the given name; other values have none.
pub open spec fn field(j: JsonView, key: Seq<char>) -> Option<JsonView> {
    match j {
        JsonView::Object(v) => member(v, key, 0),
        _ => None,
    }
}

/// The text of a text value.
pub open spec fn text_value(j: Option<JsonView>) -> Option<Seq<char>> {
    match j {
        Some(JsonView::Text(s)) => Some(s),
        _ => None,
    }
}

/// The integer of an integer value.
pub open spec fn int_value(j: Option<JsonView>) -> Option<i64> {
    match j {
        Some(JsonView::Int(n)) => Some(n),
        _ => None,
    }
}

/// The items of an array.
pub open spec fn array_value(j: Option<JsonView>) -> Option<Seq<JsonView>> {
    match j {
        Some(JsonView::Array(v)) => Some(v),
        _ => None,
    }
}

/// The step `0` of a JSON pointer: the first item of an array, or the member
/// `0` of an object.
pub open spec fn zeroth(j: Option<JsonView>) -> Option<JsonView> {
    match j {
        Some(JsonView::Array(v)) => if v.len() > 0 {
            Some(v[0])
        } else {
            None
        },
        Some(other) => field(other, "0"@),
        None => None,
    }
}

/// The member of a value that may be missing.
pub open spec fn field_of(j: Option<JsonView>, key: Seq<char>) -> Option<JsonView> {
    match j {
        Some(v) => field(v, key),
        None => None,
    }
}

/// The view of a value that may be missing.
pub open spec fn pointed(o: Option<&Json>) -> Option<JsonView> {
    match o {
        Some(v) => Some(json_view(*v)),
        None => None,
    }
}

impl Json {
    /// The member with the given name.
    pub fn get(&self, key: &str) -> (r: Option<&Json>)
        ensures
            pointed(r) == field(json_view(*self), key@),
    {
        match self {
            Json::Object(v) => {
                let ghost members = json_view(*self)->Object_0;
                let mut i: usize = 0;
                while i < v.len()
                    invariant
                        *self == Json::Object(*v),
                        json_view(*self) == JsonView::Object(members),
                        members.len() == v.len(),
                        i <= v.len(),
                        member(members, key@, 0) == member(members, key@, i as int),
                    decreases v.len() - i,
                {
                    assert(members[i as int] == (v@[i as int].0@, json_view(v@[i as int].1)));
                    if text::same(v[i].0.as_str(), key) {
                        return Some(&v[i].1);
                    }
                    i += 1;
                }
                None
            },
            _ => None,
        }
    }
}

/// The member of a value that may be missing.
pub fn get_in<'a>(j: Option<&'a Json>, key: &str) -> (r: Option<&'a Json>)
    ensures
        pointed(r) == field_of(pointed(j), key@),
{
    match j {
        Some(v) => v.get(key),
        None => None,
    }
}

/// The text of a text value.
pub fn as_text(j: Option<&Json>) -> (r: Option<String>)
    ensures
        r.deep_view() == text_value(pointed(j)),
{
    match j {
        Some(Json::Text(s)) => Some(s.clone()),
        _ => None,
    }
}

/// The integer of an integer value.
pub fn as_int(j: Option<&Json>) -> (r: Option<i64>)
    ensures
        r == int_value(pointed(j)),
{
    match j {
        Some(Json::Int(n)) => Some(*n),
        _ => None,
    }
}

/// The items of an array.
pub fn as_array<'a>(j: Option<&'a Json>) -> (r: Option<&'a Vec<Json>>)
    ensures
        match r {
            Some(v) => array_value(pointed(j)) == Some(v.deep_view()),
            None => array_value(pointed(j)) is None,
        },
{
    match j {
        Some(Json::Array(v)) => {
            assert(v.deep_view() =~= json_view(Json::Array(*v))->Array_0);
            Some(v)
        },
        _ => None,
    }
}

/// The members of an object.
pub fn as_object<'a>(j: Option<&'a Json>) -> (r: Option<&'a Vec<(String, Json)>>)
    ensures
        match r {
            Some(v) => pointed(j) matches Some(JsonView::Object(members)) && members.len() == v.len()
                && forall|i: int|
                0 <= i < v.len() ==> members[i] == ((#[trigger] v@[i]).0@, json_view(v@[i].1)),
            None => !(pointed(j) matches Some(JsonView::Object(_))),
        },
{
    match j {
        Some(Json::Object(v)) => Some(v),
        _ => None,
    }
}

/// The step `0` of a JSON pointer.
pub fn first<'a>(j: Option<&'a Json>) -> (r: Option<&'a Json>)
    ensures
        pointed(r) == zeroth(pointed(j)),
{
    match j {
        Some(v) => match v {
            Json::Array(items) => if items.len() > 0 {
                Some(&items[0])
            } else {
                None
            },
            _ => v.get("0"),
        },
        None => None,
    }
}

// ---- text ----

/// A JSON value of the `serde_json` crate.
#[verifier::external_type_specification]
#[verifier::external_body]
pub struct ExValue(serde_json::Value);

/// An error of the `serde_json` crate.
#[verifier::external_type_specification]
#[verifier::external_body]
pub struct ExJsonError(serde_json::Error);

/// What a value of the `serde_json` crate holds, an object's members in the
/// order in which the crate goes through them.
pub uninterp spec fn value_view(v: serde_json::Value) -> JsonView;

/// The value that JSON text spells; nothing where it spells none.
pub uninterp spec fn json_in(s: Seq<char>) -> Option<JsonView>;

/// `serde_json::from_str` reads the value that the text spells, and fails where
/// it spells none. It depends on the text alone.
#[verifier::external_body]
fn parse_value(s: &str) -> (r: Result<serde_json::Value, serde_json::Error>)
    ensures
        match r {
            Ok(v) => json_in(s@) == Some(value_view(v)),
            Err(_) => json_in(s@) is None,
        },
{
    serde_json::from_str(s)
}

/// The outside of a value: what it is, and how many parts it has.
enum Shape {
    Null,
    Bool(bool),
    Int(i64),
    Number(String),
    Text(String),
    Array(usize),
    Object(usize),
}

/// The variants of `serde_json::Value`: a number is an integer where
/// `Number::as_i64` gives one and else its text, and an array and an object
/// tell their lengths.
#[verifier::external_body]
fn shape(v: &serde_json::Value) -> (r: Shape)
    ensures
        match r {
            Shape::Null => value_view(*v) == JsonView::Null,
            Shape::Bool(b) => value_view(*v) == JsonView::Bool(b),
            Shape::Int(n) => value_view(*v) == JsonView::Int(n),
            Shape::Number(s) => value_view(*v) == JsonView::Number(s@),
            Shape::Text(s) => value_view(*v) == JsonView::Text(s@),
            Shape::Array(n) => value_view(*v) matches JsonView::Array(items) && items.len() == n,
            Shape::Object(n) => value_view(*v) matches JsonView::Object(members) && members.len()
                == n,
        },
{
    match v {
        serde_json::Value::Null => Shape::Null,
        serde_json::Value::Bool(b) => Shape::Bool(*b),
        serde_json::Value::Number(n) => n.as_i64().map_or(Shape::Number(n.to_string()), Shape::Int),
        serde_json::Value::String(s) => Shape::Text(s.clone()),
        serde_json::Value::Array(items) => Shape::Array(items.len()),
        serde_json::Value::Object(members) => Shape::Object(members.len()),
    }
}

/// `Value::index` with a position gives the item of an array there.
#[verifier::external_body]
fn item_at(v: &serde_json::Value, i: usize) -> (r: &serde_json::Value)
    requires
        value_view(*v) matches JsonView::Array(items) && i < items.len(),
    ensures
        value_view(*r) == value_view(*v)->Array_0[i as int],
{
    &v[i]
}

/// `Map::iter` goes through the members of an object; this is the one at a
/// position.
#[verifier::external_body]
fn member_at(v: &serde_json::Value, i: usize) -> (r: (String, &serde_json::Value))
    requires
        value_view(*v) matches JsonView::Object(members) && i < members.len(),
    ensures
        (r.0@, value_view(*r.1)) == value_view(*v)->Object_0[i as int],
{
    let (name, value) = v.as_object().unwrap().iter().nth(i).unwrap();
    (name.clone(), value)
}

fn convert(v: &serde_json::Value) -> (r: Json)
    ensures
        json_view(r) == value_view(*v),
    decreases value_view(*v),
{
    match shape(v) {
        Shape::Null => Json::Null,
        Shape::Bool(b) => Json::Bool(b),
        Shape::Int(n) => Json::Int(n),
        Shape::Number(s) => Json::Number(s),
        Shape::Text(s) => Json::Text(s),
        Shape::Array(n) => {
            let ghost items = value_view(*v)->Array_0;
            let mut out: Vec<Json> = Vec::new();
            let mut i: usize = 0;
            while i < n
                invariant
                    value_view(*v) == JsonView::Array(items),
                    items.len() == n,
                    i <= n,
                    out.len() == i,
                    forall|j: int| 0 <= j < i ==> json_view(#[trigger] out@[j]) == items[j],
                decreases n - i,
            {
                let item = item_at(v, i);
                assert(decreases_to!(value_view(*v) => items[i as int]));
                out.push(convert(item));
                i += 1;
            }
            let r = Json::Array(out);
            assert(json_view(r)->Array_0 =~= items);
            r
        },
        Shape::Object(n) => {
            let ghost members = value_view(*v)->Object_0;
            let mut out: Vec<(String, Json)> = Vec::new();
            let mut i: usize = 0;
            while i < n
                invariant
                    value_view(*v) == JsonView::Object(members),
                    members.len() == n,
                    i <= n,
                    out.len() == i,
                    forall|j: int|
                        0 <= j < i ==> ((#[trigger] out@[j]).0@, json_view(out@[j].1))
                            == members[j],
                decreases n - i,
            {
                let (name, value) = member_at(v, i);
                assert(decreases_to!(value_view(*v) => members[i as int].1));
                out.push((name, convert(value)));
                i += 1;
            }
            let r = Json::Object(out);
            assert(json_view(r)->Object_0 =~= members);
            r
        },
    }
}

/// The value that JSON text spells; nothing where it spells none.
pub fn parse(s: &str) -> (r: Option<Json>)
    ensures
        r.deep_view() == json_in(s@),
{
    match parse_value(s) {
        Ok(v) => Some(convert(&v)),
        Err(_) => None,
    }
}

/// The text of a member of an object; nothing where the text is no object, or
/// the member is no text.
pub open spec fn text_member(s: Seq<char>, key: Seq<char>) -> Option<Seq<char>> {
    match json_in(s) {
        Some(v) => text_value(field(v, key)),
        None => None,
    }
}

/// The text of a member of an object that JSON text spells.
pub fn member_text(s: &str, key: &str) -> (r: Option<String>)
    ensures
        r.deep_view() == text_member(s@, key@),
{
    match parse(s) {
        Some(v) => as_text(v.get(key)),
        None => None,
    }
}

/// The texts of a list of text values; nothing where one is no text.
pub open spec fn texts_of(items: Seq<JsonView>) -> Option<Seq<Seq<char>>>
    decreases items.len(),
{
    if items.len() == 0 {
        Some(seq![])
    } else {
        match (texts_of(items.drop_last()), items.last()) {
            (Some(rest), JsonView::Text(s)) => Some(rest.push(s)),
            _ => None,
        }
    }
}

/// The list of texts that JSON text spells; the empty list where it spells none.
pub open spec fn list_in(s: Option<Seq<char>>) -> Seq<Seq<char>> {
    match s {
        Some(t) => match json_in(t) {
            Some(JsonView::Array(items)) => match texts_of(items) {
                Some(list) => list,
                None => seq![],
            },
            _ => seq![],
        },
        None => seq![],
    }
}

proof fn lemma_no_texts(items: Seq<JsonView>, n: int)
    requires
        0 <= n <= items.len(),
        texts_of(items.take(n)) is None,
    ensures
        texts_of(items) is None,
    decreases items.len() - n,
{
    if n < items.len() {
        assert(items.take(n + 1).drop_last() =~= items.take(n));
        lemma_no_texts(items, n + 1);
    } else {
        assert(items.take(n) =~= items);
    }
}

fn texts(items: &Vec<Json>) -> (r: Option<Vec<String>>)
    ensures
        match r {
            Some(list) => texts_of(items.deep_view()) == Some(list.deep_view()),
            None => texts_of(items.deep_view()) is None,
        },
{
    let ghost all = items.deep_view();
    let mut out: Vec<String> = Vec::new();
    let mut i: usize = 0;
    assert(out.deep_view() =~= seq![]);
    while i < items.len()
        invariant
            all == items.deep_view(),
            i <= items.len(),
            texts_of(all.take(i as int)) == Some(out.deep_view()),
        decreases items.len() - i,
    {
        assert(all.take(i + 1).drop_last() =~= all.take(i as int));
        assert(all[i as int] == json_view(items@[i as int]));
        let ghost before = out.deep_view();
        match &items[i] {
            Json::Text(s) => {
                out.push(s.clone());
                assert(out.deep_view() =~= before.push(s@));
            },
            _ => {
                proof {
                    lemma_no_texts(all, i + 1);
                }
                return None;
            },
        }
        i += 1;
    }
    assert(all.take(all.len() as int) =~= all);
    Some(out)
}

/// The list of texts that stored JSON text spells; the empty list where nothing
/// is stored or it spells none.
pub fn read_list(s: &Option<String>) -> (r: Vec<String>)
    ensures
        r.deep_view() == list_in(s.deep_view()),
{
    if let Some(t) = s {
        if let Some(v) = parse(t.as_str()) {
            if let Some(items) = as_array(Some(&v)) {
                if let Some(list) = texts(items) {
                    return list;
                }
            }
        }
    }
    let none: Vec<String> = Vec::new();
    assert(none.deep_view() =~= seq![]);
    none
}

/// `serde_json::to_string` writes a list of texts as the JSON array that reads
/// back as it.
#[verifier::external_body]
fn list_text(list: &Vec<String>) -> (r: String)
    ensures
        json_in(r@) == Some(
            JsonView::Array(list.deep_view().map_values(|s: Seq<char>| JsonView::Text(s))),
        ),
{
    serde_json::to_string(list).unwrap()
}

/// The `serde_json` crate keeps names that begin so for its own use: an object
/// whose first member has one may be read as something else.
pub open spec fn is_reserved(key: Seq<char>) -> bool {
    text::occurs_at(key, "$serde_json::private::"@, 0)
}

/// `serde_json::to_string` writes a map with one entry, under a name that the
/// crate does not reserve, as the JSON object that reads back as it.
#[verifier::external_body]
fn object_text(key: &str, value: &str) -> (r: String)
    requires
        !is_reserved(key@),
    ensures
        json_in(r@) == Some(JsonView::Object(seq![(key@, JsonView::Text(value@))])),
{
    serde_json::to_string(&std::collections::BTreeMap::from([(key, value)])).unwrap()
}

/// A list of texts, to be stored as JSON text. Reading it back gives the list.
pub fn write_list(list: &Vec<String>) -> (r: String)
    ensures
        json_in(r@) == Some(
            JsonView::Array(list.deep_view().map_values(|s: Seq<char>| JsonView::Text(s))),
        ),
        list_in(Some(r@)) == list.deep_view(),
{
    proof {
        lemma_texts_of(list.deep_view());
    }
    list_text(list)
}

proof fn lemma_texts_of(list: Seq<Seq<char>>)
    ensures
        texts_of(list.map_values(|s: Seq<char>| JsonView::Text(s))) == Some(list),
    decreases list.len(),
{
    let items = list.map_values(|s: Seq<char>| JsonView::Text(s));
    if list.len() > 0 {
        lemma_texts_of(list.drop_last());
        assert(items.drop_last() =~= list.drop_last().map_values(
            |s: Seq<char>| JsonView::Text(s),
        ));
        assert(list.drop_last().push(list.last()) =~= list);
    } else {
        assert(items =~= seq![]);
        assert(list =~= seq![]);
    }
}

/// An object with this one member, as JSON text. Reading the member gives the value.
pub fn write_member(key: &str, value: &str) -> (r: String)
    requires
        !is_reserved(key@),
    ensures
        json_in(r@) == Some(JsonView::Object(seq![(key@, JsonView::Text(value@))])),
        text_member(r@, key@) == Some(value@),
{
    object_text(key, value)
}

// ---- what is read out of values ----

/// A member is the first one under its name; an object without the name, and a
/// value that is no object, has none.
pub proof fn law_field(v: Seq<(Seq<char>, JsonView)>, key: Seq<char>, k: int)
    requires
        0 <= k <= v.len(),
        k < v.len() ==> v[k].0 == key,
        forall|j: int| 0 <= j < k ==> (#[trigger] v[j]).0 != key,
    ensures
        field(JsonView::Object(v), key) == if k < v.len() {
            Some(v[k].1)
        } else {
            None
        },
{
    lemma_member(v, key, 0, k);
}

proof fn lemma_member(v: Seq<(Seq<char>, JsonView)>, key: Seq<char>, i: int, k: int)
    requires
        0 <= i <= k <= v.len(),
        k < v.len() ==> v[k].0 == key,
        forall|j: int| i <= j < k ==> (#[trigger] v[j]).0 != key,
    ensures
        member(v, key, i) == if k < v.len() {
            Some(v[k].1)
        } else {
            None
        },
    decreases k - i,
{
    if i < k {
        assert(v[i].0 != key);
        lemma_member(v, key, i + 1, k);
    }
}

/// A value is read as what it is: text as text, a number as a number, a list as a
/// list, and as nothing else.
pub proof fn law_values(j: JsonView, s: Seq<char>, n: i64, items: Seq<JsonView>)
    ensures
        text_value(Some(j)) == Some(s) <==> j == JsonView::Text(s),
        int_value(Some(j)) == Some(n) <==> j == JsonView::Int(n),
        array_value(Some(j)) == Some(items) <==> j == JsonView::Array(items),
        items.len() > 0 ==> zeroth(Some(JsonView::Array(items))) == Some(items[0]),
        items.len() == 0 ==> zeroth(Some(JsonView::Array(items))) is None,
        text_value(None) is None && int_value(None) is None && array_value(None) is None,
{
}

/// A stored list is read back exactly where it is a list of texts; anything else
/// is read as the empty list.
pub proof fn law_list(s: Seq<char>, list: Seq<Seq<char>>)
    ensures
        json_in(s) == Some(JsonView::Array(list.map_values(|t: Seq<char>| JsonView::Text(t))))
            ==> list_in(Some(s)) == list,
        json_in(s) is None ==> list_in(Some(s)).len() == 0,
        list_in(None).len() == 0,
{
    lemma_texts_of(list);
}

/// A member of an object that is written down is read back.
pub proof fn law_text_member(s: Seq<char>, key: Seq<char>, value: Seq<char>)
    requires
        json_in(s) == Some(JsonView::Object(seq![(key, JsonView::Text(value))])),
    ensures
        text_member(s, key) == Some(value),
        forall|other: Seq<char>| other != key ==> #[trigger] text_member(s, other) is None,
{
    let v = seq![(key, JsonView::Text(value))];
    law_field(v, key, 0);
    assert forall|other: Seq<char>| other != key implies #[trigger] text_member(s, other)
        is None by {
        law_field(v, other, 1);
    }
}

} // verus!
