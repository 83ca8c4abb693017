//! JSON values as plain data, with the calls into `serde_json`.
use serde_json::Value;
use vstd::prelude::*;
use vstd::string::*;

use crate::text;

verus! {

/// A JSON value. A number is kept as far as it is a signed integer of 64 bits.
#[derive(Debug)]
pub enum Json {
    Null,
    Bool(bool),
    Number(Option<i64>),
    Text(String),
    List(Vec<Json>),
    Object(Vec<(String, Json)>),
}

/// What a [`Json`] holds, as mathematical data.
pub enum JsonView {
    Null,
    Bool(bool),
    Number(Option<i64>),
    Text(Seq<char>),
    List(Seq<JsonView>),
    Object(Seq<(Seq<char>, JsonView)>),
}

/// The mathematical data in a value.
pub open spec fn contents(j: Json) -> JsonView
    decreases j,
{
    match j {
        Json::Null => JsonView::Null,
        Json::Bool(b) => JsonView::Bool(b),
        Json::Number(n) => JsonView::Number(n),
        Json::Text(s) => JsonView::Text(s@),
        Json::List(l) => JsonView::List(
            Seq::new(
                l@.len(),
                |i: int|
                    if 0 <= i < l@.len() {
                        contents(l@[i])
                    } else {
                        JsonView::Null
                    },
            ),
        ),
        Json::Object(o) => JsonView::Object(
            Seq::new(
                o@.len(),
                |i: int|
                    if 0 <= i < o@.len() {
                        (o@[i].0@, contents(o@[i].1))
                    } else {
                        (Seq::empty(), JsonView::Null)
                    },
            ),
        ),
    }
}

/// The mathematical data in a list of values.
pub open spec fn all_contents(items: Seq<Json>) -> Seq<JsonView> {
    items.map_values(|j: Json| contents(j))
}

/// The mathematical data in a list of entries.
pub open spec fn entry_contents(entries: Seq<(String, Json)>) -> Seq<(Seq<char>, JsonView)> {
    entries.map_values(|e: (String, Json)| (e.0@, contents(e.1)))
}

/// The value of the first entry with the given key.
pub open spec fn lookup(entries: Seq<(Seq<char>, JsonView)>, key: Seq<char>) -> Option<JsonView>
    decreases entries.len(),
{
    if entries.len() == 0 {
        None
    } else {
        match lookup(entries.drop_last(), key) {
            Some(v) => Some(v),
            None => if entries.last().0 == key {
                Some(entries.last().1)
            } else {
                None
            },
        }
    }
}

/// The field of an object; nothing for any other value.
pub open spec fn field(v: JsonView, key: Seq<char>) -> Option<JsonView> {
    match v {
        JsonView::Object(entries) => lookup(entries, key),
        _ => None,
    }
}

/// The characters of a string; nothing for any other value.
pub open spec fn as_text(v: JsonView) -> Option<Seq<char>> {
    match v {
        JsonView::Text(s) => Some(s),
        _ => None,
    }
}

/// The number, where it is a signed integer of 64 bits.
pub open spec fn as_int(v: JsonView) -> Option<i64> {
    match v {
        JsonView::Number(n) => n,
        _ => None,
    }
}

/// The truth value; nothing for any other value.
pub open spec fn as_truth(v: JsonView) -> Option<bool> {
    match v {
        JsonView::Bool(b) => Some(b),
        _ => None,
    }
}

/// The text of a field.
pub open spec fn text_field(v: JsonView, key: Seq<char>) -> Option<Seq<char>> {
    match field(v, key) {
        Some(f) => as_text(f),
        None => None,
    }
}

/// The integer in a field.
pub open spec fn int_field(v: JsonView, key: Seq<char>) -> Option<i64> {
    match field(v, key) {
        Some(f) => as_int(f),
        None => None,
    }
}

/// The truth value in a field.
pub open spec fn truth_field(v: JsonView, key: Seq<char>) -> Option<bool> {
    match field(v, key) {
        Some(f) => as_truth(f),
        None => None,
    }
}

/// The elements of a list; nothing for any other value.
pub open spec fn as_list(v: JsonView) -> Option<Seq<JsonView>> {
    match v {
        JsonView::List(l) => Some(l),
        _ => None,
    }
}

/// The elements of a list in a field.
pub open spec fn list_field(v: JsonView, key: Seq<char>) -> Option<Seq<JsonView>> {
    match field(v, key) {
        Some(f) => as_list(f),
        None => None,
    }
}

/// The data in an optional value.
pub open spec fn opt_contents(j: Option<&Json>) -> Option<JsonView> {
    match j {
        Some(j) => Some(contents(*j)),
        None => None,
    }
}

/// The characters of an optional string.
pub open spec fn opt_text(s: Option<String>) -> Option<Seq<char>> {
    match s {
        Some(s) => Some(s@),
        None => None,
    }
}

impl Json {
    /// The value of a string.
    pub fn text(s: &str) -> (r: Json)
        ensures
            contents(r) == JsonView::Text(s@),
    {
        Json::Text(s.to_owned())
    }

    /// The value of an object with the given entries.
    pub fn object(entries: Vec<(String, Json)>) -> (r: Json)
        ensures
            contents(r) == JsonView::Object(entry_contents(entries@)),
    {
        let r = Json::Object(entries);
        assert(contents(r)->Object_0 =~= entry_contents(entries@));
        r
    }

    /// The value of a list with the given elements.
    pub fn list(items: Vec<Json>) -> (r: Json)
        ensures
            contents(r) == JsonView::List(all_contents(items@)),
    {
        let r = Json::List(items);
        assert(contents(r)->List_0 =~= all_contents(items@));
        r
    }

    /// The same value once more.
    pub fn copy(&self) -> (r: Json)
        ensures
            contents(r) == contents(*self),
        decreases *self,
    {
        match self {
            Json::Null => Json::Null,
            Json::Bool(b) => Json::Bool(*b),
            Json::Number(n) => Json::Number(*n),
            Json::Text(s) => Json::Text(s.clone()),
            Json::List(l) => {
                let mut out: Vec<Json> = Vec::new();
                for i in 0..l.len()
                    invariant
                        *self == Json::List(*l),
                        out.len() == i,
                        forall|k: int|
                            0 <= k < i ==> contents(#[trigger] out[k]) == contents(l[k]),
                {
                    assert(decreases_to!(*self => self->List_0));
                    assert(decreases_to!(self->List_0 => self->List_0[i as int]));
                    out.push(l[i].copy());
                }
                let r = Json::List(out);
                assert(contents(r)->List_0 =~= contents(*self)->List_0);
                r
            },
            Json::Object(o) => {
                let mut out: Vec<(String, Json)> = Vec::new();
                for i in 0..o.len()
                    invariant
                        *self == Json::Object(*o),
                        out.len() == i,
                        forall|k: int|
                            0 <= k < i ==> (#[trigger] out[k]).0@ == o[k].0@ && contents(out[k].1)
                                == contents(o[k].1),
                {
                    assert(decreases_to!(*self => self->Object_0));
                    assert(decreases_to!(self->Object_0 => self->Object_0[i as int]));
                    assert(decreases_to!(
                        self->Object_0[i as int] => self->Object_0[i as int].1
                    ));
                    let value = o[i].1.copy();
                    out.push((o[i].0.clone(), value));
                }
                let r = Json::Object(out);
                assert(contents(r)->Object_0 =~= contents(*self)->Object_0);
                r
            },
        }
    }

    /// `serde_json::Value::get` with a string key.
    pub fn get(&self, key: &str) -> (r: Option<&Json>)
        ensures
            opt_contents(r) == field(contents(*self), key@),
    {
        match self {
            Json::Object(entries) => {
                let ghost all = contents(*self)->Object_0;
                for i in 0..entries.len()
                    invariant
                        *self == Json::Object(*entries),
                        all == contents(*self)->Object_0,
                        all.len() == entries.len(),
                        lookup(all.take(i as int), key@) is None,
                {
                    assert(all.take(i + 1).drop_last() =~= all.take(i as int));
                    assert(all[i as int] == (entries[i as int].0@, contents(entries[i as int].1)));
                    if text::str_eq(entries[i].0.as_str(), key) {
                        proof {
                            lookup_in_prefix(all, key@, i + 1);
                        }
                        return Some(&entries[i].1);
                    }
                }
                assert(all.take(entries.len() as int) =~= all);
                None
            },
            _ => None,
        }
    }

    /// The text in a field, copied.
    pub fn get_text(&self, key: &str) -> (r: Option<String>)
        ensures
            opt_text(r) == text_field(contents(*self), key@),
    {
        match self.get(key) {
            Some(Json::Text(s)) => Some(s.clone()),
            _ => None,
        }
    }

    /// The integer in a field.
    pub fn get_int(&self, key: &str) -> (r: Option<i64>)
        ensures
            r == int_field(contents(*self), key@),
    {
        match self.get(key) {
            Some(Json::Number(n)) => *n,
            _ => None,
        }
    }

    /// The truth value in a field.
    pub fn get_truth(&self, key: &str) -> (r: Option<bool>)
        ensures
            r == truth_field(contents(*self), key@),
    {
        match self.get(key) {
            Some(Json::Bool(b)) => Some(*b),
            _ => None,
        }
    }

    /// The elements of the list in a field.
    pub fn get_list(&self, key: &str) -> (r: Option<&Vec<Json>>)
        ensures
            match r {
                Some(l) => list_field(contents(*self), key@) == Some(all_contents(l@)),
                None => list_field(contents(*self), key@) is None,
            },
    {
        match self.get(key) {
            Some(Json::List(l)) => {
                assert(contents(Json::List(*l))->List_0 =~= all_contents(l@));
                Some(l)
            },
            _ => None,
        }
    }
}

/// An entry found in a prefix is the entry of the whole.
pub proof fn lookup_in_prefix(entries: Seq<(Seq<char>, JsonView)>, key: Seq<char>, n: int)
    requires
        0 <= n <= entries.len(),
        lookup(entries.take(n), key) is Some,
    ensures
        lookup(entries, key) == lookup(entries.take(n), key),
    decreases entries.len(),
{
    if n == entries.len() {
        assert(entries.take(n) =~= entries);
    } else {
        assert(entries.drop_last().take(n) =~= entries.take(n));
        lookup_in_prefix(entries.drop_last(), key, n);
    }
}

/// Whether the entry at `i` is the first with the key.
pub open spec fn is_first_entry(
    entries: Seq<(Seq<char>, JsonView)>,
    key: Seq<char>,
    i: int,
) -> bool {
    &&& 0 <= i < entries.len()
    &&& entries[i].0 == key
    &&& forall|j: int| 0 <= j < i ==> (#[trigger] entries[j]).0 != key
}

/// Of the entries with a key the first counts, and where there is none nothing
/// is found.
pub proof fn first_entry_counts(entries: Seq<(Seq<char>, JsonView)>, key: Seq<char>)
    ensures
        match lookup(entries, key) {
            Some(v) => exists|i: int| #[trigger]
                is_first_entry(entries, key, i) && entries[i].1 == v,
            None => forall|i: int| 0 <= i < entries.len() ==> (#[trigger] entries[i]).0 != key,
        },
    decreases entries.len(),
{
    if entries.len() > 0 {
        let head = entries.drop_last();
        first_entry_counts(head, key);
        match lookup(head, key) {
            Some(v) => {
                let i = choose|i: int| #[trigger] is_first_entry(head, key, i) && head[i].1 == v;
                assert forall|j: int| 0 <= j < i implies (#[trigger] entries[j]).0 != key by {
                    assert(head[j] == entries[j]);
                }
                assert(is_first_entry(entries, key, i));
            },
            None => {
                assert forall|j: int| 0 <= j < head.len() implies (#[trigger] entries[j]).0
                    != key by {
                    assert(head[j] == entries[j]);
                }
                if entries.last().0 == key {
                    assert(is_first_entry(entries, key, entries.len() - 1));
                }
            },
        }
    }
}

/// Only objects have fields, and what a field holds is an entry of the object.
pub proof fn fields_are_entries_of_objects(v: JsonView, key: Seq<char>)
    ensures
        match field(v, key) {
            Some(x) => v is Object && exists|i: int| #[trigger]
                is_first_entry(v->Object_0, key, i) && v->Object_0[i].1 == x,
            None => v is Object ==> forall|i: int|
                0 <= i < v->Object_0.len() ==> (#[trigger] v->Object_0[i]).0 != key,
        },
{
    if v is Object {
        first_entry_counts(v->Object_0, key);
    }
}

/// A field is read as a text, an integer, a truth value or a list exactly where
/// it is one: nothing is turned from one kind into another.
pub proof fn fields_are_read_by_their_kind(v: JsonView, key: Seq<char>)
    ensures
        text_field(v, key) is Some <==> field(v, key) is Some && field(v, key)->0 is Text,
        text_field(v, key) matches Some(s) ==> field(v, key) == Some(JsonView::Text(s)),
        int_field(v, key) is Some <==> field(v, key) is Some && field(v, key)->0 is Number
            && field(v, key)->0->Number_0 is Some,
        int_field(v, key) matches Some(n) ==> field(v, key) == Some(JsonView::Number(Some(n))),
        truth_field(v, key) is Some <==> field(v, key) is Some && field(v, key)->0 is Bool,
        truth_field(v, key) matches Some(b) ==> field(v, key) == Some(JsonView::Bool(b)),
        list_field(v, key) is Some <==> field(v, key) is Some && field(v, key)->0 is List,
        list_field(v, key) matches Some(l) ==> field(v, key) == Some(JsonView::List(l)),
{
}

/// What a value holds: its own text, number or truth value, and of a list or an
/// object the contents of every part, in order.
pub proof fn contents_are_those_of_the_parts(j: Json)
    ensures
        match j {
            Json::Null => contents(j) is Null,
            Json::Bool(b) => contents(j) == JsonView::Bool(b),
            Json::Number(n) => contents(j) == JsonView::Number(n),
            Json::Text(s) => contents(j) == JsonView::Text(s@),
            Json::List(l) => contents(j) is List && contents(j)->List_0.len() == l@.len()
                && forall|i: int|
                0 <= i < l@.len() ==> #[trigger] contents(j)->List_0[i] == contents(l@[i]),
            Json::Object(o) => contents(j) is Object && contents(j)->Object_0.len() == o@.len()
                && forall|i: int|
                0 <= i < o@.len() ==> #[trigger] contents(j)->Object_0[i] == (
                    o@[i].0@,
                    contents(o@[i].1),
                ),
        },
{
}

/// What `serde_json` reads from bytes: the value, or the words of the error.
pub uninterp spec fn json_parsed(bytes: Seq<u8>) -> Result<JsonView, Seq<char>>;

/// A parse result by its contents.
pub open spec fn parse_contents(r: Result<Json, String>) -> Result<JsonView, Seq<char>> {
    match r {
        Ok(j) => Ok(contents(j)),
        Err(e) => Err(e@),
    }
}

/// `serde_json::from_slice` into a `serde_json::Value`, which is then copied
/// part by part. The result depends on the bytes alone.
#[verifier::external_body]
pub(crate) fn parse_json(bytes: &[u8]) -> (r: Result<Json, String>)
    ensures
        parse_contents(r) == json_parsed(bytes@),
{
    let value: Value = serde_json::from_slice(bytes).map_err(|e| e.to_string())?;
    let child = |v: Value| parse_json(v.to_string().as_bytes());
    Ok(match value {
        Value::Null => Json::Null,
        Value::Bool(b) => Json::Bool(b),
        Value::Number(n) => Json::Number(n.as_i64()),
        Value::String(s) => Json::Text(s),
        Value::Array(a) => Json::List(a.into_iter().map(child).collect::<Result<_, _>>()?),
        Value::Object(o) => Json::Object(o.into_iter().map(|(k, v)| Ok((k, child(v)?))).collect::<Result<_, String>>()?),
    })
}

/// Whether every number in a value is known, and no part of it lies deeper
/// than `depth`.
pub open spec fn printable(v: JsonView, depth: nat) -> bool
    decreases depth,
{
    match v {
        JsonView::Number(n) => n is Some,
        JsonView::List(l) => depth > 0 && forall|i: int|
            0 <= i < l.len() ==> printable(#[trigger] l[i], (depth - 1) as nat),
        JsonView::Object(o) => depth > 0 && forall|i: int|
            0 <= i < o.len() ==> printable((#[trigger] o[i]).1, (depth - 1) as nat),
        _ => true,
    }
}

/// The text that `serde_json` writes for a value, or the words of the error.
pub uninterp spec fn json_printed(v: JsonView) -> Result<Seq<char>, Seq<char>>;

/// A text or the words of an error.
pub open spec fn print_contents(r: Result<String, String>) -> Result<Seq<char>, Seq<char>> {
    match r {
        Ok(s) => Ok(s@),
        Err(e) => Err(e@),
    }
}

/// `serde_json::to_string` of the `serde_json::Value` that is copied part by
/// part from the value. The result depends on the value alone.
#[verifier::external_body]
pub(crate) fn print_json(j: &Json) -> (r: Result<String, String>)
    requires
        printable(contents(*j), 100),
    ensures
        print_contents(r) == json_printed(contents(*j)),
{
    let words = |e: serde_json::Error| e.to_string();
    let child = |c| serde_json::from_str::<Value>(&print_json(c)?).map_err(words);
    let value = match j {
        Json::Null => Value::Null,
        Json::Bool(b) => Value::from(*b),
        Json::Number(n) => Value::from(*n),
        Json::Text(s) => Value::from(s.as_str()),
        Json::List(l) => l.iter().map(child).collect::<Result<_, String>>()?,
        Json::Object(o) => o.iter().map(|(k, c)| Ok((k, child(c)?))).collect::<Result<_, String>>()?,
    };
    serde_json::to_string(&value).map_err(words)
}

/// Lists and objects lie one deeper than what is in them; a value that can be
/// printed at a depth can be at a greater one, and a number only where it is
/// known.
pub proof fn lists_and_objects_lie_one_deeper(
    v: JsonView,
    l: Seq<JsonView>,
    o: Seq<(Seq<char>, JsonView)>,
    depth: nat,
)
    ensures
        printable(v, depth) ==> printable(v, depth + 1),
        !printable(JsonView::List(l), 0),
        !printable(JsonView::Object(o), 0),
        printable(JsonView::List(l), depth + 1) <==> forall|i: int|
            0 <= i < l.len() ==> printable(#[trigger] l[i], depth),
        printable(JsonView::Object(o), depth + 1) <==> forall|i: int|
            0 <= i < o.len() ==> printable((#[trigger] o[i]).1, depth),
        !printable(JsonView::Number(None), depth),
        forall|n: i64| #[trigger] printable(JsonView::Number(Some(n)), depth),
        forall|s: Seq<char>| #[trigger] printable(JsonView::Text(s), depth),
    decreases depth,
{
    reveal_with_fuel(printable, 2);
    let list = JsonView::List(l);
    if printable(list, depth + 1) {
        assert forall|i: int| 0 <= i < l.len() implies printable(#[trigger] l[i], depth) by {
            assert(printable(list->List_0[i], ((depth + 1) - 1) as nat));
        }
    }
    let object = JsonView::Object(o);
    if printable(object, depth + 1) {
        assert forall|i: int| 0 <= i < o.len() implies printable((#[trigger] o[i]).1, depth) by {
            assert(printable(object->Object_0[i].1, ((depth + 1) - 1) as nat));
        }
    }
    if depth > 0 {
        let d = (depth - 1) as nat;
        match v {
            JsonView::List(items) => {
                assert forall|i: int| 0 <= i < items.len() && printable(
                    #[trigger] items[i],
                    d,
                ) implies printable(items[i], d + 1) by {
                    lists_and_objects_lie_one_deeper(items[i], l, o, d);
                }
            },
            JsonView::Object(entries) => {
                assert forall|i: int| 0 <= i < entries.len() && printable(
                    (#[trigger] entries[i]).1,
                    d,
                ) implies printable(entries[i].1, d + 1) by {
                    lists_and_objects_lie_one_deeper(entries[i].1, l, o, d);
                }
            },
            _ => {},
        }
    }
}

}
