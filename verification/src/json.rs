//! JSON texts as trees of plain values. The members of an object keep their
//! order, and a name may occur more than once.
use vstd::prelude::*;
use serde::__private229::de::{content_as_str, Content, ContentVisitor};
use serde::de::DeserializeSeed;
use serde::{Serialize as _, Serializer as _};
use serde_json::value::RawValue;
use serde_json::{Number, Serializer};
use crate::collections::OrderedKey;

verus! {

#[verifier::external_type_specification]
#[verifier::external_body]
pub struct ExNumber(serde_json::Number);

/// A JSON value. An integer is a `Uint`, or below zero an `Int`; a number that is
/// no integer is a `Number`.
#[derive(Debug)]
pub enum Json {
    Null,
    Bool(bool),
    Uint(u64),
    Int(i64),
    Number(serde_json::Number),
    Str(String),
    Array(Vec<Json>),
    Object(Vec<(String, Json)>),
}

/// What a JSON value says.
#[verifier::ext_equal]
pub enum JsonValue {
    Null,
    Bool(bool),
    Uint(u64),
    Int(i64),
    Number(serde_json::Number),
    Str(Seq<char>),
    Array(Seq<JsonValue>),
    Object(Seq<(Seq<char>, JsonValue)>),
}

pub open spec fn json_value(json: Json) -> JsonValue
    decreases json,
{
    match json {
        Json::Null => JsonValue::Null,
        Json::Bool(b) => JsonValue::Bool(b),
        Json::Uint(n) => JsonValue::Uint(n),
        Json::Int(n) => JsonValue::Int(n),
        Json::Number(number) => JsonValue::Number(number),
        Json::Str(text) => JsonValue::Str(text@),
        Json::Array(items) => JsonValue::Array(item_values(items@)),
        Json::Object(fields) => JsonValue::Object(field_values(fields@)),
    }
}

pub open spec fn item_values(items: Seq<Json>) -> Seq<JsonValue>
    decreases items,
{
    if items.len() == 0 {
        Seq::empty()
    } else {
        item_values(items.drop_last()).push(json_value(items.last()))
    }
}

pub open spec fn field_values(fields: Seq<(String, Json)>) -> Seq<(Seq<char>, JsonValue)>
    decreases fields,
{
    if fields.len() == 0 {
        Seq::empty()
    } else {
        field_values(fields.drop_last()).push((fields.last().0@, json_value(fields.last().1)))
    }
}

impl View for Json {
    type V = JsonValue;

    open spec fn view(&self) -> JsonValue {
        json_value(*self)
    }
}

/// What a text says, member by member: none where it is no JSON.
pub uninterp spec fn record_parsed(text: Seq<char>) -> Option<JsonValue>;

/// The text of a value, without blanks, the members of an object as they come.
pub uninterp spec fn json_text(value: JsonValue) -> Seq<char>;

/// Whether a value is nested at most so deep and holds no number but integers.
/// No text is read that is nested deeper than 127.
pub open spec fn plain(value: JsonValue, depth: nat) -> bool
    decreases depth,
{
    match value {
        JsonValue::Number(_) => false,
        JsonValue::Int(n) => n < 0,
        JsonValue::Array(items) => depth > 0 && forall|i: int|
            0 <= i < items.len() ==> plain(#[trigger] items[i], (depth - 1) as nat),
        JsonValue::Object(fields) => depth > 0 && forall|i: int|
            0 <= i < fields.len() ==> plain((#[trigger] fields[i]).1, (depth - 1) as nat),
        _ => true,
    }
}

/// A value in which every object has a single value for each name, the last, and
/// the members stand in the order of their names.
pub open spec fn settled(value: JsonValue) -> JsonValue
    decreases value,
{
    match value {
        JsonValue::Array(items) => JsonValue::Array(settled_items(items)),
        JsonValue::Object(fields) => JsonValue::Object(settled_fields(fields)),
        _ => value,
    }
}

pub open spec fn settled_items(items: Seq<JsonValue>) -> Seq<JsonValue>
    decreases items,
{
    if items.len() == 0 {
        Seq::empty()
    } else {
        settled_items(items.drop_last()).push(settled(items.last()))
    }
}

pub open spec fn settled_fields(fields: Seq<(Seq<char>, JsonValue)>) -> Seq<(Seq<char>, JsonValue)>
    decreases fields,
{
    if fields.len() == 0 {
        Seq::empty()
    } else {
        with_member(
            settled_fields(fields.drop_last()),
            fields.last().0,
            settled(fields.last().1),
        )
    }
}

/// What a text says to one who keeps a single value for each name of an object,
/// the last, and walks the names in their order: none where it is no JSON.
pub open spec fn json_parsed(text: Seq<char>) -> Option<JsonValue> {
    match record_parsed(text) {
        Some(value) => Some(settled(value)),
        None => None,
    }
}

/// Whether members stand in the order of their names, each once.
pub open spec fn in_order(fields: Seq<(Seq<char>, JsonValue)>) -> bool {
    forall|i: int, j: int|
        0 <= i < j < fields.len() ==> String::before((#[trigger] fields[i]).0, (
        #[trigger] fields[j]).0)
}

/// Whether no name occurs twice.
pub open spec fn each_once(fields: Seq<(Seq<char>, JsonValue)>) -> bool {
    forall|i: int, j: int|
        0 <= i < j < fields.len() ==> (#[trigger] fields[i]).0 != (#[trigger] fields[j]).0
}

/// Whether a value is an object of texts and numbers, each name once.
pub open spec fn flat(value: JsonValue) -> bool {
    value matches JsonValue::Object(fields) && each_once(fields) && forall|i: int|
        0 <= i < fields.len() ==> (#[trigger] fields[i]).1 is Str || fields[i].1 is Uint
}

pub proof fn lemma_plain_deeper(value: JsonValue, depth: nat, more: nat)
    requires
        plain(value, depth),
        depth <= more,
    ensures
        plain(value, more),
    decreases depth,
{
    match value {
        JsonValue::Array(items) => {
            assert forall|i: int| 0 <= i < items.len() implies plain(
                #[trigger] items[i],
                (more - 1) as nat,
            ) by {
                lemma_plain_deeper(items[i], (depth - 1) as nat, (more - 1) as nat);
            }
        },
        JsonValue::Object(fields) => {
            assert forall|i: int| 0 <= i < fields.len() implies plain(
                (#[trigger] fields[i]).1,
                (more - 1) as nat,
            ) by {
                lemma_plain_deeper(fields[i].1, (depth - 1) as nat, (more - 1) as nat);
            }
        },
        _ => {},
    }
}

#[verifier::external_type_specification]
#[verifier::external_body]
pub struct ExContent<'de>(serde::__private229::de::Content<'de>);

/// What a `Content` of serde says.
pub uninterp spec fn content_of(content: Content<'_>) -> JsonValue;

/// A `Content`, variant by variant, as a tree of the library. The unit is null;
/// reading JSON makes none of the other variants.
#[verifier::external_body]
fn json_from_content(content: Content<'_>) -> (r: Json)
    ensures
        r@ == content_of(content),
{
    match content {
        Content::Bool(b) => Json::Bool(b),
        Content::U64(n) => Json::Uint(n),
        Content::I64(n) => Json::Int(n),
        Content::F64(x) => Number::from_f64(x).map_or(Json::Null, Json::Number),
        Content::String(s) => Json::Str(s),
        Content::Str(s) => Json::Str(s.to_string()),
        Content::Seq(v) => Json::Array(v.into_iter().map(json_from_content).collect()),
        Content::Map(m) => Json::Object(m.into_iter().map(
            |(k, v)| (content_as_str(&k).unwrap_or("").to_string(), json_from_content(v))).collect()),
        _ => Json::Null,
    }
}

/// serde's `ContentVisitor` on `serde_json::Deserializer::from_str`, and
/// `Deserializer::end`: the buffer that derived readers fill, which keeps every
/// member of an object as it comes. What is nested deeper than 127 is refused.
/// Its module bears the number of the release that the crate is held to. The
/// text of the error is not stated.
#[verifier::external_body]
fn parse_content(text: &str) -> (r: Result<Content<'_>, String>)
    ensures
        r is Ok == record_parsed(text@) is Some,
        r matches Ok(content) ==> record_parsed(text@) == Some(content_of(content)),
{
    let mut reader = serde_json::Deserializer::from_str(text);
    let content = ContentVisitor::new().deserialize(&mut reader).map_err(|e| e.to_string())?;
    reader.end().map_err(|e| e.to_string())?;
    Ok(content)
}

/// serde's `serialize`, `collect_seq`, `collect_map` and, for null,
/// `serialize_unit` into a `serde_json::Serializer`, with the text of each part
/// as a `RawValue`. What they write of a value that holds no number but integers
/// and is nested no deeper than 127 is read back as it was. Reading back other
/// values is not stated.
#[verifier::external_body]
pub(crate) fn print_json(json: &Json) -> (r: String)
    ensures
        r@ == json_text(json@),
        plain(json@, 127) ==> record_parsed(r@) == Some(json@),
{
    let raw = |part| RawValue::from_string(print_json(part)).unwrap();
    let mut out = vec![];
    let to = &mut Serializer::new(&mut out);
    match json {
        Json::Bool(b) => b.serialize(to),
        Json::Uint(n) => n.serialize(to),
        Json::Int(n) => n.serialize(to),
        Json::Number(n) => n.serialize(to),
        Json::Str(s) => s.serialize(to),
        Json::Array(v) => to.collect_seq(v.iter().map(raw)),
        Json::Object(m) => to.collect_map(m.iter().map(|(k, v)| (k, raw(v)))),
        _ => to.serialize_unit(),
    }.unwrap();
    String::from_utf8(out).unwrap()
}

/// Whether a value that was read has the members of another, whatever their
/// order.
pub open spec fn says_the_same(found: Option<JsonValue>, value: JsonValue) -> bool {
    &&& found is Some
    &&& found->Some_0 is Object
    &&& each_once(found->Some_0->Object_0)
    &&& forall|name: Seq<char>| #[trigger]
        field_of(found->Some_0, name) == field_of(value, name)
}

/// Reads a JSON text; of members of one name the last counts.
pub fn parse_json(text: &str) -> (r: Result<Json, String>)
    ensures
        r is Ok == json_parsed(text@) is Some,
        r matches Ok(json) ==> json_parsed(text@) == Some(json@) && settled(json@) == json@,
{
    match parse_record(text) {
        Ok(json) => {
            proof {
                lemma_settled(json@);
            }
            Ok(settle(json))
        },
        Err(e) => Err(e),
    }
}

/// Reads a JSON text with all its members.
pub fn parse_record(text: &str) -> (r: Result<Json, String>)
    ensures
        r is Ok == record_parsed(text@) is Some,
        r matches Ok(json) ==> record_parsed(text@) == Some(json@),
{
    match parse_content(text) {
        Ok(content) => Ok(json_from_content(content)),
        Err(e) => Err(e),
    }
}

/// Whether a name is that of the member at a place and of no other.
pub open spec fn sole(fields: Seq<(Seq<char>, JsonValue)>, name: Seq<char>, i: int) -> bool {
    &&& 0 <= i < fields.len()
    &&& fields[i].0 == name
    &&& forall|j: int| 0 <= j < fields.len() && (#[trigger] fields[j]).0 == name ==> j == i
}

/// Whether an object has a member of a name.
pub open spec fn has_member(fields: Seq<(Seq<char>, JsonValue)>, name: Seq<char>) -> bool {
    exists|i: int| 0 <= i < fields.len() && (#[trigger] fields[i]).0 == name
}

/// The value of a field of an object that has it once.
pub open spec fn field_of(value: JsonValue, name: Seq<char>) -> Option<JsonValue> {
    match value {
        JsonValue::Object(fields) => if exists|i: int| #[trigger] sole(fields, name, i) {
            Some(fields[choose|i: int| #[trigger] sole(fields, name, i)].1)
        } else {
            None
        },
        _ => None,
    }
}

/// The text that a field of an object holds.
pub open spec fn text_field(value: JsonValue, name: Seq<char>) -> Option<Seq<char>> {
    match field_of(value, name) {
        Some(JsonValue::Str(text)) => Some(text),
        _ => None,
    }
}

/// The number that a field of an object holds.
pub open spec fn uint_field(value: JsonValue, name: Seq<char>) -> Option<u64> {
    match field_of(value, name) {
        Some(JsonValue::Uint(n)) => Some(n),
        _ => None,
    }
}

/// Whether a field of an object is left out or null.
pub open spec fn field_absent(value: JsonValue, name: Seq<char>) -> bool {
    match value {
        JsonValue::Object(fields) => !has_member(fields, name) || field_of(value, name) == Some(
            JsonValue::Null,
        ),
        _ => true,
    }
}

/// A value as an object with members of some names. A list of as many items is
/// one too: its items are the members in their order.
pub open spec fn as_record(value: JsonValue, names: Seq<Seq<char>>) -> JsonValue {
    match value {
        JsonValue::Array(items) => if items.len() == names.len() {
            JsonValue::Object(Seq::new(items.len(), |i: int| (names[i], items[i])))
        } else {
            JsonValue::Null
        },
        _ => value,
    }
}

/// A member that may be left out.
pub open spec fn maybe_member(name: Seq<char>, text: Option<Seq<char>>) -> Seq<
    (Seq<char>, JsonValue),
> {
    match text {
        Some(text) => seq![(name, JsonValue::Str(text))],
        None => Seq::empty(),
    }
}

/// Where each name occurs once, each member is found by its name.
pub proof fn lemma_members(fields: Seq<(Seq<char>, JsonValue)>)
    requires
        each_once(fields),
    ensures
        forall|i: int|
            0 <= i < fields.len() ==> field_of(
                JsonValue::Object(fields),
                (#[trigger] fields[i]).0,
            ) == Some(fields[i].1),
        forall|name: Seq<char>|
            !has_member(fields, name) ==> #[trigger] field_of(JsonValue::Object(fields), name)
                is None,
{
    assert forall|i: int| 0 <= i < fields.len() implies field_of(
        JsonValue::Object(fields),
        (#[trigger] fields[i]).0,
    ) == Some(fields[i].1) by {
        assert(sole(fields, fields[i].0, i));
    }
    assert forall|name: Seq<char>| !has_member(fields, name) implies #[trigger] field_of(
        JsonValue::Object(fields),
        name,
    ) is None by {
        if exists|i: int| #[trigger] sole(fields, name, i) {
            let i = choose|i: int| #[trigger] sole(fields, name, i);
            assert(fields[i].0 == name);
        }
    }
}

pub proof fn lemma_field_values(fields: Seq<(String, Json)>)
    ensures
        field_values(fields).len() == fields.len(),
        forall|i: int|
            0 <= i < fields.len() ==> #[trigger] field_values(fields)[i] == (
                fields[i].0@,
                fields[i].1@,
            ),
    decreases fields.len(),
{
    if fields.len() > 0 {
        lemma_field_values(fields.drop_last());
        assert forall|i: int| 0 <= i < fields.len() implies #[trigger] field_values(fields)[i] == (
            fields[i].0@,
            fields[i].1@,
        ) by {
            if i < fields.len() - 1 {
                assert(field_values(fields)[i] == field_values(fields.drop_last())[i]);
                assert(fields.drop_last()[i] == fields[i]);
            }
        }
    }
}

pub proof fn lemma_item_values(items: Seq<Json>)
    ensures
        item_values(items).len() == items.len(),
        forall|i: int| 0 <= i < items.len() ==> #[trigger] item_values(items)[i] == items[i]@,
    decreases items.len(),
{
    if items.len() > 0 {
        lemma_item_values(items.drop_last());
        assert forall|i: int| 0 <= i < items.len() implies #[trigger] item_values(items)[i]
            == items[i]@ by {
            if i < items.len() - 1 {
                assert(item_values(items)[i] == item_values(items.drop_last())[i]);
                assert(items.drop_last()[i] == items[i]);
            }
        }
    }
}

/// Adds a field to those of an object.
pub fn push_field(fields: &mut Vec<(String, Json)>, name: &str, value: Json)
    ensures
        field_values(final(fields)@) == field_values(old(fields)@).push((name@, value@)),
{
    let ghost before = fields@;
    fields.push((name.to_string(), value));
    assert(fields@.drop_last() =~= before);
}

/// Members in the order of their names, with one set: in the place of the one
/// of that name, or where its name belongs.
pub open spec fn with_member(
    fields: Seq<(Seq<char>, JsonValue)>,
    name: Seq<char>,
    value: JsonValue,
) -> Seq<(Seq<char>, JsonValue)>
    decreases fields.len(),
{
    if fields.len() == 0 {
        seq![(name, value)]
    } else if fields.last().0 == name {
        fields.drop_last().push((name, value))
    } else if String::before(fields.last().0, name) {
        fields.push((name, value))
    } else {
        with_member(fields.drop_last(), name, value).push(fields.last())
    }
}

/// Setting a member keeps the order, and the other members.
pub proof fn lemma_with_member(
    fields: Seq<(Seq<char>, JsonValue)>,
    name: Seq<char>,
    value: JsonValue,
)
    requires
        in_order(fields),
    ensures
        in_order(with_member(fields, name, value)),
        forall|m: (Seq<char>, JsonValue)| #[trigger]
            with_member(fields, name, value).contains(m) <==> m == (name, value) || (
            fields.contains(m) && m.0 != name),
    decreases fields.len(),
{
    let more = with_member(fields, name, value);
    if fields.len() == 0 {
        assert(more[0] == (name, value));
    } else {
        let fewer = fields.drop_last();
        let last = fields.last();
        assert(fields =~= fewer.push(last));
        assert(fields[fields.len() - 1] == last);
        assert forall|i: int| 0 <= i < fewer.len() implies String::before(
            (#[trigger] fewer[i]).0,
            last.0,
        ) by {
            assert(fewer[i] == fields[i]);
        }
        assert(in_order(fewer)) by {
            assert forall|i: int, j: int| 0 <= i < j < fewer.len() implies String::before(
                (#[trigger] fewer[i]).0,
                (#[trigger] fewer[j]).0,
            ) by {
                assert(fewer[i] == fields[i] && fewer[j] == fields[j]);
            }
        }
        String::before_irreflexive(last.0);
        assert forall|m: (Seq<char>, JsonValue)| #[trigger] fields.contains(m) <==> m == last
            || fewer.contains(m) by {
            if fewer.contains(m) {
                let i = choose|i: int| 0 <= i < fewer.len() && fewer[i] == m;
                assert(fields[i] == m);
            }
            if fields.contains(m) && m != last {
                let i = choose|i: int| 0 <= i < fields.len() && fields[i] == m;
                assert(fewer[i] == m);
            }
        }
        if last.0 == name {
            assert forall|m: (Seq<char>, JsonValue)| #[trigger] more.contains(m) <==> m == (
                name,
                value,
            ) || (fields.contains(m) && m.0 != name) by {
                if more.contains(m) {
                    let i = choose|i: int| 0 <= i < more.len() && more[i] == m;
                    if i < fewer.len() {
                        assert(fewer[i] == m);
                    }
                }
                if m == (name, value) {
                    assert(more[more.len() - 1] == m);
                }
                if fewer.contains(m) {
                    let i = choose|i: int| 0 <= i < fewer.len() && fewer[i] == m;
                    assert(more[i] == m);
                }
            }
            assert forall|i: int, j: int| 0 <= i < j < more.len() implies String::before(
                (#[trigger] more[i]).0,
                (#[trigger] more[j]).0,
            ) by {
                assert(more[i] == fewer[i]);
                if j < fewer.len() {
                    assert(more[j] == fewer[j]);
                }
            }
        } else if String::before(last.0, name) {
            assert forall|i: int| 0 <= i < fields.len() implies String::before(
                (#[trigger] fields[i]).0,
                name,
            ) by {
                if i < fewer.len() {
                    assert(fewer[i] == fields[i]);
                    String::before_transitive(fields[i].0, last.0, name);
                }
            }
            String::before_irreflexive(name);
            assert forall|m: (Seq<char>, JsonValue)| #[trigger] more.contains(m) <==> m == (
                name,
                value,
            ) || (fields.contains(m) && m.0 != name) by {
                if more.contains(m) {
                    let i = choose|i: int| 0 <= i < more.len() && more[i] == m;
                    if i < fields.len() {
                        assert(fields[i] == m);
                    }
                }
                if m == (name, value) {
                    assert(more[more.len() - 1] == m);
                }
                if fields.contains(m) {
                    let i = choose|i: int| 0 <= i < fields.len() && fields[i] == m;
                    assert(more[i] == m);
                }
            }
        } else {
            String::before_total(last.0, name);
            lemma_with_member(fewer, name, value);
            let part = with_member(fewer, name, value);
            assert forall|i: int| 0 <= i < part.len() implies String::before(
                (#[trigger] part[i]).0,
                last.0,
            ) by {
                assert(part.contains(part[i]));
                if part[i] != (name, value) {
                    let k = choose|k: int| 0 <= k < fewer.len() && fewer[k] == part[i];
                    assert(String::before(fewer[k].0, last.0));
                }
            }
            assert forall|m: (Seq<char>, JsonValue)| #[trigger] more.contains(m) <==> m == (
                name,
                value,
            ) || (fields.contains(m) && m.0 != name) by {
                if more.contains(m) {
                    let i = choose|i: int| 0 <= i < more.len() && more[i] == m;
                    if i < part.len() {
                        assert(part[i] == m);
                        assert(part.contains(m));
                    }
                }
                if part.contains(m) {
                    let i = choose|i: int| 0 <= i < part.len() && part[i] == m;
                    assert(more[i] == m);
                }
                if m == last {
                    assert(more[more.len() - 1] == m);
                }
            }
        }
    }
}

/// Setting a member that is there already changes nothing.
pub proof fn lemma_with_member_again(
    fields: Seq<(Seq<char>, JsonValue)>,
    name: Seq<char>,
    value: JsonValue,
)
    requires
        in_order(fields),
        fields.contains((name, value)),
    ensures
        with_member(fields, name, value) == fields,
    decreases fields.len(),
{
    let at = choose|i: int| 0 <= i < fields.len() && fields[i] == (name, value);
    let fewer = fields.drop_last();
    let last = fields.last();
    assert(fields =~= fewer.push(last));
    if at < fewer.len() {
        assert(String::before(fields[at].0, fields[fields.len() - 1].0));
        String::before_irreflexive(name);
        if String::before(last.0, name) {
            String::before_transitive(name, last.0, name);
        }
        assert(fewer[at] == (name, value));
        assert(in_order(fewer)) by {
            assert forall|i: int, j: int| 0 <= i < j < fewer.len() implies String::before(
                (#[trigger] fewer[i]).0,
                (#[trigger] fewer[j]).0,
            ) by {
                assert(fewer[i] == fields[i] && fewer[j] == fields[j]);
            }
        }
        lemma_with_member_again(fewer, name, value);
    }
}

/// Members in the order of their names are found by their names.
pub proof fn lemma_found(fields: Seq<(Seq<char>, JsonValue)>)
    requires
        in_order(fields),
    ensures
        forall|name: Seq<char>, value: JsonValue|
            #![trigger fields.contains((name, value))]
            fields.contains((name, value)) <==> field_of(JsonValue::Object(fields), name) == Some(
                value,
            ),
{
    assert(each_once(fields)) by {
        assert forall|i: int, j: int| 0 <= i < j < fields.len() implies (#[trigger] fields[i]).0
            != (#[trigger] fields[j]).0 by {
            String::before_irreflexive(fields[i].0);
        }
    }
    lemma_members(fields);
    assert forall|name: Seq<char>, value: JsonValue|
        #![trigger fields.contains((name, value))]
        fields.contains((name, value)) <==> field_of(JsonValue::Object(fields), name) == Some(
            value,
        ) by {
        if fields.contains((name, value)) {
            let i = choose|i: int| 0 <= i < fields.len() && fields[i] == (name, value);
            assert(fields[i].0 == name);
        }
        if field_of(JsonValue::Object(fields), name) == Some(value) {
            assert(has_member(fields, name));
            let i = choose|i: int| 0 <= i < fields.len() && (#[trigger] fields[i]).0 == name;
            assert(fields[i] == (name, value));
        }
    }
}

/// Sets a member of an object whose members stand in the order of their names.
pub fn set_member(fields: &mut Vec<(String, Json)>, name: &str, value: Json)
    ensures
        field_values(final(fields)@) == with_member(field_values(old(fields)@), name@, value@),
{
    let key = name.to_string();
    let ghost all = fields@;
    let ghost said = field_values(all);
    let ghost value_said = value@;
    proof {
        lemma_field_values(all);
    }
    let mut i: usize = fields.len();
    assert(said.take(i as int) =~= said);
    assert(with_member(said, name@, value_said) =~= with_member(
        said.take(i as int),
        name@,
        value_said,
    ) + said.skip(i as int));
    while i > 0 && !crate::order::same_str(fields[i - 1].0.as_str(), name)
        && !fields[i - 1].0.precedes(&key)
        invariant
            i <= fields@.len(),
            fields@ == all,
            said == field_values(all),
            said.len() == all.len(),
            key@ == name@,
            forall|j: int|
                0 <= j < said.len() ==> #[trigger] said[j] == (all[j].0@, all[j].1@),
            with_member(said, name@, value_said) == with_member(
                said.take(i as int),
                name@,
                value_said,
            ) + said.skip(i as int),
        decreases i,
    {
        proof {
            let part = said.take(i as int);
            assert(part.last() == said[i - 1]);
            assert(part.drop_last() =~= said.take(i - 1));
            assert(with_member(said.take(i - 1), name@, value_said) + said.skip(i - 1)
                =~= with_member(part, name@, value_said) + said.skip(i as int));
        }
        i = i - 1;
    }
    proof {
        if i > 0 {
            let part = said.take(i as int);
            assert(part.last() == said[i - 1]);
            assert(part.drop_last() =~= said.take(i - 1));
        }
    }
    if i > 0 && crate::order::same_str(fields[i - 1].0.as_str(), name) {
        i = i - 1;
        let replaced = fields.remove(i);
    }
    fields.insert(i, (key, value));
    proof {
        lemma_field_values(fields@);
        assert forall|j: int| 0 <= j < fields@.len() implies #[trigger] field_values(fields@)[j]
            == with_member(said, name@, value_said)[j] by {
            assert(field_values(fields@)[j] == (fields@[j].0@, fields@[j].1@));
        }
        assert(field_values(fields@) =~= with_member(said, name@, value_said));
    }
}

/// Members in the order of their names, whose values are settled, are settled.
pub proof fn lemma_settled_fields(fields: Seq<(Seq<char>, JsonValue)>)
    requires
        in_order(fields),
        forall|i: int|
            0 <= i < fields.len() ==> settled((#[trigger] fields[i]).1) == fields[i].1,
    ensures
        settled_fields(fields) == fields,
    decreases fields.len(),
{
    if fields.len() > 0 {
        let fewer = fields.drop_last();
        let last = fields.last();
        assert forall|i: int| 0 <= i < fewer.len() implies settled((#[trigger] fewer[i]).1)
            == fewer[i].1 by {
            assert(fewer[i] == fields[i]);
        }
        assert forall|i: int, j: int| 0 <= i < j < fewer.len() implies String::before(
            (#[trigger] fewer[i]).0,
            (#[trigger] fewer[j]).0,
        ) by {
            assert(fewer[i] == fields[i] && fewer[j] == fields[j]);
        }
        lemma_settled_fields(fewer);
        assert(fields[fields.len() - 1] == last);
        assert(settled(last.1) == last.1);
        if fewer.len() > 0 {
            assert(fewer.last() == fields[fields.len() - 2]);
            assert(String::before(fields[fields.len() - 2].0, fields[fields.len() - 1].0));
            String::before_irreflexive(last.0);
        }
        assert(with_member(fewer, last.0, last.1) =~= fields);
    }
}

/// The members of a settled object stand in order, and each value is one of the
/// object's, settled.
proof fn lemma_settled_members(fields: Seq<(Seq<char>, JsonValue)>)
    ensures
        in_order(settled_fields(fields)),
        forall|m: (Seq<char>, JsonValue)| #[trigger]
            settled_fields(fields).contains(m) ==> exists|i: int|
                0 <= i < fields.len() && m == ((#[trigger] fields[i]).0, settled(fields[i].1)),
    decreases fields.len(),
{
    if fields.len() > 0 {
        let fewer = fields.drop_last();
        let last = fields.last();
        lemma_settled_members(fewer);
        lemma_with_member(settled_fields(fewer), last.0, settled(last.1));
        assert forall|m: (Seq<char>, JsonValue)| #[trigger]
            settled_fields(fields).contains(m) implies exists|i: int|
            0 <= i < fields.len() && m == ((#[trigger] fields[i]).0, settled(fields[i].1)) by {
            if m == (last.0, settled(last.1)) {
                assert(fields[fields.len() - 1] == last);
            } else {
                assert(settled_fields(fewer).contains(m));
                let i = choose|i: int|
                    0 <= i < fewer.len() && m == ((#[trigger] fewer[i]).0, settled(fewer[i].1));
                assert(fields[i] == fewer[i]);
            }
        }
    }
}

proof fn lemma_settled_items(items: Seq<JsonValue>)
    ensures
        settled_items(items).len() == items.len(),
        forall|i: int|
            0 <= i < items.len() ==> #[trigger] settled_items(items)[i] == settled(items[i]),
    decreases items.len(),
{
    if items.len() > 0 {
        lemma_settled_items(items.drop_last());
        assert forall|i: int| 0 <= i < items.len() implies #[trigger] settled_items(items)[i]
            == settled(items[i]) by {
            if i < items.len() - 1 {
                assert(settled_items(items)[i] == settled_items(items.drop_last())[i]);
            }
        }
    }
}

/// Settling twice is settling once.
pub proof fn lemma_settled(value: JsonValue)
    ensures
        settled(settled(value)) == settled(value),
    decreases value,
{
    match value {
        JsonValue::Array(items) => {
            let once = settled_items(items);
            lemma_settled_items(items);
            lemma_settled_items(once);
            assert forall|i: int| 0 <= i < items.len() implies #[trigger] settled_items(once)[i]
                == once[i] by {
                lemma_settled(items[i]);
                assert(once[i] == settled(items[i]));
            }
            assert(settled_items(once) =~= once);
        },
        JsonValue::Object(fields) => {
            let once = settled_fields(fields);
            lemma_settled_members(fields);
            assert forall|i: int| 0 <= i < once.len() implies settled((#[trigger] once[i]).1)
                == once[i].1 by {
                assert(once.contains(once[i]));
                let k = choose|k: int|
                    0 <= k < fields.len() && once[i] == (
                        (#[trigger] fields[k]).0,
                        settled(fields[k].1),
                    );
                lemma_settled(fields[k].1);
            }
            lemma_settled_fields(once);
        },
        _ => {},
    }
}

/// The members of a settled object stand in the order of their names, and their
/// values are settled.
pub proof fn lemma_settled_object(fields: Seq<(Seq<char>, JsonValue)>)
    requires
        settled(JsonValue::Object(fields)) == JsonValue::Object(fields),
    ensures
        in_order(fields),
        forall|i: int|
            0 <= i < fields.len() ==> settled((#[trigger] fields[i]).1) == fields[i].1,
{
    assert(settled_fields(fields) == fields);
    lemma_settled_members(fields);
    assert forall|i: int| 0 <= i < fields.len() implies settled((#[trigger] fields[i]).1)
        == fields[i].1 by {
        assert(fields.contains(fields[i]));
        let k = choose|k: int|
            0 <= k < fields.len() && fields[i] == ((#[trigger] fields[k]).0, settled(fields[k].1));
        lemma_settled(fields[k].1);
    }
}

/// An object of texts and numbers, each name once, has the same members when it
/// is settled.
pub proof fn lemma_flat(value: JsonValue)
    requires
        flat(value),
    ensures
        says_the_same(Some(settled(value)), value),
        plain(value, 127),
{
    let fields = value->Object_0;
    lemma_flat_members(fields);
    lemma_settled_members(fields);
    let found = settled_fields(fields);
    lemma_found(found);
    lemma_members(fields);
    assert(each_once(found)) by {
        assert forall|i: int, j: int| 0 <= i < j < found.len() implies (#[trigger] found[i]).0 != (
        #[trigger] found[j]).0 by {
            String::before_irreflexive(found[i].0);
        }
    }
    assert forall|name: Seq<char>| #[trigger] field_of(JsonValue::Object(found), name) == field_of(
        value,
        name,
    ) by {
        if let Some(v) = field_of(JsonValue::Object(found), name) {
            assert(found.contains((name, v)));
            assert(fields.contains((name, v)));
            let i = choose|i: int| 0 <= i < fields.len() && fields[i] == (name, v);
            assert(fields[i].0 == name);
        }
        if let Some(v) = field_of(value, name) {
            assert(has_member(fields, name));
            let i = choose|i: int| 0 <= i < fields.len() && (#[trigger] fields[i]).0 == name;
            assert(fields[i] == (name, v));
            assert(fields.contains((name, v)));
            assert(found.contains((name, v)));
        }
    }
    assert forall|i: int| 0 <= i < fields.len() implies plain((#[trigger] fields[i]).1, 126) by {}
}

proof fn lemma_flat_members(fields: Seq<(Seq<char>, JsonValue)>)
    requires
        flat(JsonValue::Object(fields)),
    ensures
        forall|m: (Seq<char>, JsonValue)| #[trigger]
            settled_fields(fields).contains(m) <==> fields.contains(m),
    decreases fields.len(),
{
    if fields.len() > 0 {
        let fewer = fields.drop_last();
        let last = fields.last();
        assert(fields[fields.len() - 1] == last);
        assert forall|i: int| 0 <= i < fewer.len() implies (#[trigger] fewer[i]).1 is Str
            || fewer[i].1 is Uint by {
            assert(fewer[i] == fields[i]);
        }
        assert forall|i: int, j: int| 0 <= i < j < fewer.len() implies (#[trigger] fewer[i]).0 != (
        #[trigger] fewer[j]).0 by {
            assert(fewer[i] == fields[i] && fewer[j] == fields[j]);
        }
        lemma_flat_members(fewer);
        lemma_settled_members(fewer);
        lemma_with_member(settled_fields(fewer), last.0, settled(last.1));
        assert(settled(last.1) == last.1);
        assert forall|m: (Seq<char>, JsonValue)| #[trigger]
            settled_fields(fields).contains(m) <==> fields.contains(m) by {
            if fewer.contains(m) {
                let i = choose|i: int| 0 <= i < fewer.len() && fewer[i] == m;
                assert(fields[i] == m);
                assert(fields[i].0 != fields[fields.len() - 1].0);
            }
            if fields.contains(m) && m != last {
                let i = choose|i: int| 0 <= i < fields.len() && fields[i] == m;
                assert(fewer[i] == m);
            }
        }
    } else {
        assert forall|m: (Seq<char>, JsonValue)| #[trigger]
            settled_fields(fields).contains(m) <==> fields.contains(m) by {}
    }
}

/// A list backwards.
fn backwards<T>(list: Vec<T>) -> (r: Vec<T>)
    ensures
        r@ == list@.reverse(),
{
    let ghost all = list@;
    let mut list = list;
    let mut r: Vec<T> = Vec::new();
    while list.len() > 0
        invariant
            list@ == all.take(list@.len() as int),
            list@.len() + r@.len() == all.len(),
            forall|j: int| 0 <= j < r@.len() ==> #[trigger] r@[j] == all[all.len() - 1 - j],
        decreases list@.len(),
    {
        let ghost n = list@.len();
        if let Some(item) = list.pop() {
            assert(item == all[n - 1]);
            assert(list@ =~= all.take(n - 1));
            r.push(item);
        }
    }
    assert(r@ =~= all.reverse());
    r
}

/// Settles a value.
fn settle(json: Json) -> (r: Json)
    ensures
        r@ == settled(json@),
    decreases json,
{
    match json {
        Json::Array(items) => {
            let ghost all = items@;
            proof {
                lemma_item_values(all);
                lemma_settled_items(item_values(all));
            }
            let mut rest = backwards(items);
            let mut done: Vec<Json> = Vec::new();
            let ghost target = settled_items(item_values(all));
            assert(item_values(done@) =~= target.take(0));
            while rest.len() > 0
                invariant
                    json == Json::Array(items),
                    all == items@,
                    target == settled_items(item_values(all)),
                    target.len() == all.len(),
                    item_values(all).len() == all.len(),
                    forall|j: int| 0 <= j < all.len() ==> #[trigger] item_values(all)[j] == all[j]@,
                    forall|j: int|
                        0 <= j < all.len() ==> #[trigger] target[j] == settled(item_values(all)[j]),
                    rest@.len() <= all.len(),
                    rest@ == all.reverse().take(rest@.len() as int),
                    item_values(done@) == target.take(all.len() - rest@.len()),
                decreases rest@.len(),
            {
                let ghost n = rest@.len() as int;
                if let Some(item) = rest.pop() {
                    proof {
                        assert(item == all[all.len() - n]);
                        assert(rest@ =~= all.reverse().take(n - 1));
                        assert(decreases_to!(json => json->Array_0));
                        assert(decreases_to!(items => all[all.len() - n]));
                        assert(decreases_to!(json => item));
                    }
                    push_item(&mut done, settle(item));
                    assert(item_values(done@) =~= target.take(all.len() - (n - 1)));
                }
            }
            assert(target.take(all.len() as int) =~= target);
            Json::Array(done)
        },
        Json::Object(fields) => {
            let ghost all = fields@;
            let ghost said = field_values(all);
            proof {
                lemma_field_values(all);
            }
            let mut rest = backwards(fields);
            let mut done: Vec<(String, Json)> = Vec::new();
            assert(said.take(0) =~= Seq::empty());
            while rest.len() > 0
                invariant
                    json == Json::Object(fields),
                    all == fields@,
                    said == field_values(all),
                    said.len() == all.len(),
                    forall|j: int|
                        0 <= j < all.len() ==> #[trigger] said[j] == (all[j].0@, all[j].1@),
                    rest@.len() <= all.len(),
                    rest@ == all.reverse().take(rest@.len() as int),
                    field_values(done@) == settled_fields(said.take(all.len() - rest@.len())),
                decreases rest@.len(),
            {
                let ghost n = rest@.len() as int;
                if let Some((name, value)) = rest.pop() {
                    proof {
                        assert((name, value) == all[all.len() - n]);
                        assert(rest@ =~= all.reverse().take(n - 1));
                        assert(decreases_to!(json => json->Object_0));
                        assert(decreases_to!(fields => all[all.len() - n]));
                        assert(decreases_to!(json => value));
                        let part = said.take(all.len() - (n - 1));
                        assert(part.drop_last() =~= said.take(all.len() - n));
                        assert(part.last() == said[all.len() - n]);
                    }
                    set_member(&mut done, name.as_str(), settle(value));
                }
            }
            assert(said.take(all.len() as int) =~= said);
            Json::Object(done)
        },
        other => other,
    }
}

/// Adds an item to those of an array.
pub fn push_item(items: &mut Vec<Json>, value: Json)
    ensures
        item_values(final(items)@) == item_values(old(items)@).push(value@),
{
    let ghost before = items@;
    items.push(value);
    assert(items@.drop_last() =~= before);
}

/// Where the member of a name stands, if it is there once.
fn place(fields: &Vec<(String, Json)>, name: &str) -> (r: Option<usize>)
    ensures
        match r {
            Some(at) => sole(field_values(fields@), name@, at as int),
            None => forall|k: int| !(#[trigger] sole(field_values(fields@), name@, k)),
        },
{
    proof {
        lemma_field_values(fields@);
    }
    let ghost said = field_values(fields@);
    let mut found: Option<usize> = None;
    let mut i: usize = 0;
    while i < fields.len()
        invariant
            i <= fields@.len(),
            said == field_values(fields@),
            said.len() == fields@.len(),
            forall|j: int|
                0 <= j < said.len() ==> #[trigger] said[j] == (fields@[j].0@, fields@[j].1@),
            found matches Some(at) ==> at < i && said[at as int].0 == name@,
            forall|j: int|
                0 <= j < i && (#[trigger] said[j]).0 == name@ ==> found == Some(j as usize),
        decreases fields@.len() - i,
    {
        if crate::order::same_str(fields[i].0.as_str(), name) {
            assert(said[i as int].0 == name@);
            if let Some(at) = found {
                assert(said[at as int].0 == name@);
                return None;
            }
            found = Some(i);
        }
        i = i + 1;
    }
    proof {
        if found is None {
            assert forall|k: int| !(#[trigger] sole(said, name@, k)) by {
                if sole(said, name@, k) {
                    assert(said[k].0 == name@);
                }
            }
        }
    }
    found
}

proof fn lemma_sole(fields: Seq<(Seq<char>, JsonValue)>, name: Seq<char>, at: int)
    requires
        sole(fields, name, at),
    ensures
        field_of(JsonValue::Object(fields), name) == Some(fields[at].1),
{
    let k = choose|k: int| #[trigger] sole(fields, name, k);
    assert(fields[at].0 == name);
    assert(k == at);
}

impl Json {
    /// The value of a field, if this is an object that has it once.
    pub fn field(&self, name: &str) -> (r: Option<&Json>)
        ensures
            r is Some == field_of(self@, name@) is Some,
            r matches Some(v) ==> field_of(self@, name@) == Some(v@),
    {
        match self {
            Json::Object(fields) => match place(fields, name) {
                Some(at) => {
                    proof {
                        lemma_field_values(fields@);
                        lemma_sole(field_values(fields@), name@, at as int);
                        assert(field_values(fields@)[at as int] == (
                            fields@[at as int].0@,
                            fields@[at as int].1@,
                        ));
                    }
                    Some(&fields[at].1)
                },
                None => None,
            },
            _ => None,
        }
    }

    /// The value of a field, taken out of this object.
    pub fn into_field(self, name: &str) -> (r: Option<Json>)
        ensures
            r is Some == field_of(self@, name@) is Some,
            r matches Some(v) ==> field_of(self@, name@) == Some(v@),
    {
        match self {
            Json::Object(mut fields) => match place(&fields, name) {
                Some(at) => {
                    proof {
                        lemma_field_values(fields@);
                        lemma_sole(field_values(fields@), name@, at as int);
                        assert(field_values(fields@)[at as int] == (
                            fields@[at as int].0@,
                            fields@[at as int].1@,
                        ));
                    }
                    Some(fields.remove(at).1)
                },
                None => None,
            },
            _ => None,
        }
    }

    /// The values of two fields, taken out of this object.
    pub fn into_fields(self, a: &str, b: &str) -> (r: Option<(Json, Json)>)
        requires
            a@ != b@,
        ensures
            r is Some == (field_of(self@, a@) is Some && field_of(self@, b@) is Some),
            r matches Some((x, y)) ==> field_of(self@, a@) == Some(x@) && field_of(self@, b@)
                == Some(y@),
    {
        let mut fields = match self {
            Json::Object(fields) => fields,
            _ => {
                return None;
            },
        };
        let (first, second): (usize, usize) = match (place(&fields, a), place(&fields, b)) {
            (Some(first), Some(second)) => (first, second),
            _ => {
                return None;
            },
        };
        proof {
            let said = field_values(fields@);
            lemma_field_values(fields@);
            lemma_sole(said, a@, first as int);
            lemma_sole(said, b@, second as int);
            assert(said[first as int] == (fields@[first as int].0@, fields@[first as int].1@));
            assert(said[second as int] == (fields@[second as int].0@, fields@[second as int].1@));
        }
        if first < second {
            let y = fields.remove(second).1;
            let x = fields.remove(first).1;
            Some((x, y))
        } else {
            let x = fields.remove(first).1;
            let y = fields.remove(second).1;
            Some((x, y))
        }
    }

    /// The text that a field holds, if this is an object with such a field.
    pub fn text_field(&self, name: &str) -> (r: Option<&String>)
        ensures
            r is Some == text_field(self@, name@) is Some,
            r matches Some(text) ==> text_field(self@, name@) == Some(text@),
    {
        match self.field(name) {
            Some(Json::Str(text)) => Some(text),
            _ => None,
        }
    }

    /// The number that a field holds, if this is an object with such a field.
    pub fn uint_field(&self, name: &str) -> (r: Option<u64>)
        ensures
            r == uint_field(self@, name@),
    {
        match self.field(name) {
            Some(Json::Uint(n)) => Some(*n),
            _ => None,
        }
    }

    /// Whether a field is left out or null.
    pub fn field_absent(&self, name: &str) -> (r: bool)
        ensures
            r == field_absent(self@, name@),
    {
        let fields = match self {
            Json::Object(fields) => fields,
            _ => {
                return true;
            },
        };
        if let Some(value) = self.field(name) {
            proof {
                let k = choose|k: int| #[trigger] sole(self@->Object_0, name@, k);
                assert(self@->Object_0[k].0 == name@);
            }
            return match value {
                Json::Null => true,
                _ => false,
            };
        }
        proof {
            lemma_field_values(fields@);
        }
        let ghost said = field_values(fields@);
        let mut i: usize = 0;
        while i < fields.len()
            invariant
                i <= fields@.len(),
                said.len() == fields@.len(),
                forall|j: int|
                    0 <= j < said.len() ==> #[trigger] said[j] == (fields@[j].0@, fields@[j].1@),
                self@ == JsonValue::Object(said),
                field_of(self@, name@) is None,
                forall|j: int| 0 <= j < i ==> (#[trigger] said[j]).0 != name@,
            decreases fields@.len() - i,
        {
            if crate::order::same_str(fields[i].0.as_str(), name) {
                assert(said[i as int].0 == name@);
                return false;
            }
            i = i + 1;
        }
        true
    }

    /// This value as an object with members of some names, if it is a list.
    pub fn into_record(self, names: &[&str]) -> (r: Json)
        ensures
            r@ == as_record(self@, strs(names@)),
    {
        let items = match self {
            Json::Array(items) => items,
            other => {
                return other;
            },
        };
        if items.len() != names.len() {
            proof {
                lemma_item_values(items@);
            }
            return Json::Null;
        }
        let ghost all = items@;
        proof {
            lemma_item_values(all);
        }
        let mut fields: Vec<(String, Json)> = Vec::new();
        let mut i: usize = 0;
        let mut rest = items;
        while i < names.len()
            invariant
                i <= names@.len(),
                all.len() == names@.len(),
                rest@ == all.skip(i as int),
                field_values(fields@).len() == i,
                forall|j: int|
                    0 <= j < i ==> #[trigger] field_values(fields@)[j] == (names@[j]@, all[j]@),
            decreases names@.len() - i,
        {
            let item = rest.remove(0);
            assert(item == all[i as int]);
            assert(rest@ =~= all.skip(i + 1));
            push_field(&mut fields, names[i], item);
            i = i + 1;
        }
        assert(field_values(fields@) =~= Seq::new(
            all.len(),
            |j: int| (strs(names@)[j], item_values(all)[j]),
        ));
        Json::Object(fields)
    }
}

/// The texts of a list.
pub open spec fn strs(texts: Seq<&str>) -> Seq<Seq<char>> {
    Seq::new(texts.len(), |i: int| texts[i]@)
}

} // verus!
