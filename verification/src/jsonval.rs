//! A JSON document held as plain values, with trusted bridges to the
//! `json` crate for reading and writing text.

use vstd::prelude::*;

use crate::strutil::str_eq;

verus! {

/// Mathematical image of a [`JsonVal`].
pub enum JsonSpec {
    /// The JSON `null`.
    Null,
    /// A boolean.
    Bool(bool),
    /// An unsigned integer.
    Num(u64),
    /// A text.
    Str(Seq<char>),
    /// An ordered list of values.
    Arr(Seq<JsonSpec>),
    /// An ordered list of keyed values.
    Obj(Seq<(Seq<char>, JsonSpec)>),
}

/// A JSON document held as plain values. Numbers are unsigned integers:
/// a parsed number outside that range reads as `Null`.
pub enum JsonVal {
    /// The JSON `null`.
    Null,
    /// A boolean.
    Bool(bool),
    /// An unsigned integer.
    Num(u64),
    /// A text.
    Str(String),
    /// An ordered list of values.
    Arr(Vec<JsonVal>),
    /// An ordered list of keyed values.
    Obj(Vec<(String, JsonVal)>),
}

/// The image of a JSON value.
pub open spec fn json_view(v: JsonVal) -> JsonSpec
    decreases v,
{
    match v {
        JsonVal::Null => JsonSpec::Null,
        JsonVal::Bool(b) => JsonSpec::Bool(b),
        JsonVal::Num(n) => JsonSpec::Num(n),
        JsonVal::Str(s) => JsonSpec::Str(s@),
        JsonVal::Arr(items) => JsonSpec::Arr(json_view_arr(items@)),
        JsonVal::Obj(fields) => JsonSpec::Obj(json_view_obj(fields@)),
    }
}

/// The images of a list's items.
pub open spec fn json_view_arr(items: Seq<JsonVal>) -> Seq<JsonSpec>
    decreases items,
{
    if items.len() == 0 {
        Seq::empty()
    } else {
        seq![json_view(items[0])] + json_view_arr(items.drop_first())
    }
}

/// The images of a keyed list's entries.
pub open spec fn json_view_obj(fields: Seq<(String, JsonVal)>) -> Seq<(Seq<char>, JsonSpec)>
    decreases fields,
{
    if fields.len() == 0 {
        Seq::empty()
    } else {
        seq![(fields[0].0@, json_view(fields[0].1))] + json_view_obj(fields.drop_first())
    }
}

pub proof fn lemma_json_view_arr(items: Seq<JsonVal>)
    ensures
        json_view_arr(items).len() == items.len(),
        forall|i: int| 0 <= i < items.len() ==> json_view_arr(items)[i] == json_view(items[i]),
    decreases items.len(),
{
    if items.len() > 0 {
        lemma_json_view_arr(items.drop_first());
        assert forall|i: int| 0 <= i < items.len() implies json_view_arr(items)[i] == json_view(
            items[i],
        ) by {
            if i > 0 {
                assert(items.drop_first()[i - 1] == items[i]);
            }
        }
    }
}

pub proof fn lemma_json_view_obj(fields: Seq<(String, JsonVal)>)
    ensures
        json_view_obj(fields).len() == fields.len(),
        forall|i: int|
            0 <= i < fields.len() ==> json_view_obj(fields)[i] == (
            fields[i].0@,
            json_view(fields[i].1),
            ),
    decreases fields.len(),
{
    if fields.len() > 0 {
        lemma_json_view_obj(fields.drop_first());
        assert forall|i: int| 0 <= i < fields.len() implies json_view_obj(fields)[i] == (
        fields[i].0@,
        json_view(fields[i].1),
        ) by {
            if i > 0 {
                assert(fields.drop_first()[i - 1] == fields[i]);
            }
        }
    }
}

impl View for JsonVal {
    type V = JsonSpec;

    open spec fn view(&self) -> JsonSpec {
        json_view(*self)
    }
}

impl DeepView for JsonVal {
    type V = JsonSpec;

    open spec fn deep_view(&self) -> JsonSpec {
        json_view(*self)
    }
}

/// The `json` crate's document type, declared so that the conversion
/// helpers below may pass values of it through; the library reads nothing
/// out of it directly.
#[verifier::external_type_specification]
#[verifier::external_body]
pub struct ExJsonValue(json::JsonValue);

/// The value that the `json` crate reads out of the text, carried into
/// [`JsonVal`] form, if the text parses.
pub uninterp spec fn parsed_json(s: Seq<char>) -> Option<JsonSpec>;

/// The compact text that the `json` crate writes for a value.
pub uninterp spec fn json_text(v: JsonSpec) -> Seq<char>;

/// The pretty text, with two-space indent, that the `json` crate writes
/// for a value.
pub uninterp spec fn json_text_pretty(v: JsonSpec) -> Seq<char>;

/// Relies on `json::parse`: reads a JSON document from text; the value is
/// a function of the text alone. Numbers that do not fit an unsigned
/// integer carry over as `Null`.
#[verifier::external_body]
pub fn json_parse(s: &str) -> (r: Option<JsonVal>)
    ensures
        r matches Some(v) ==> parsed_json(s@) == Some(v@),
        r is None ==> parsed_json(s@) is None,
{
    match json::parse(s) {
        Ok(v) => Some(from_json_value(v)),
        Err(_) => None,
    }
}

/// Helper of [`json_parse`]: carries a value of the `json` crate over,
/// variant by variant. Numbers that do not fit an unsigned integer carry
/// over as `Null`.
#[verifier::external_body]
fn from_json_value(v: json::JsonValue) -> JsonVal {
    match v {
        json::JsonValue::Null => JsonVal::Null,
        json::JsonValue::Boolean(b) => JsonVal::Bool(b),
        json::JsonValue::Short(s) => JsonVal::Str(s.as_str().to_owned()),
        json::JsonValue::String(s) => JsonVal::Str(s),
        json::JsonValue::Number(n) => u64::try_from(n).map(JsonVal::Num).unwrap_or(JsonVal::Null),
        json::JsonValue::Array(items) => JsonVal::Arr(
            items.into_iter().map(from_json_value).collect(),
        ),
        json::JsonValue::Object(o) => JsonVal::Obj(
            o.iter().map(|(k, x)| (k.to_owned(), from_json_value(x.clone()))).collect(),
        ),
    }
}

/// Relies on `json::stringify`: the compact one-line text of the value;
/// a function of the value alone.
#[verifier::external_body]
pub fn json_dump(v: &JsonVal) -> (r: String)
    ensures
        r@ == json_text(v@),
{
    json::stringify(to_json_value(v))
}

/// Relies on `json::stringify_pretty` with a two-space indent: the pretty
/// text of the value; a function of the value alone.
#[verifier::external_body]
pub fn json_dump_pretty(v: &JsonVal) -> (r: String)
    ensures
        r@ == json_text_pretty(v@),
{
    json::stringify_pretty(to_json_value(v), 2)
}

/// Helper of [`json_dump`] and [`json_dump_pretty`]: carries a value over
/// to the `json` crate, variant by variant.
#[verifier::external_body]
fn to_json_value(v: &JsonVal) -> json::JsonValue {
    match v {
        JsonVal::Null => json::JsonValue::Null,
        JsonVal::Bool(b) => json::JsonValue::Boolean(*b),
        JsonVal::Num(n) => json::JsonValue::Number(json::number::Number::from(*n)),
        JsonVal::Str(s) => json::JsonValue::String(s.clone()),
        JsonVal::Arr(items) => json::JsonValue::Array(items.iter().map(to_json_value).collect()),
        JsonVal::Obj(fields) => {
            let mut o = json::object::Object::new();
            fields.iter().for_each(|(k, x)| o.insert(k, to_json_value(x)));
            json::JsonValue::Object(o)
        },
    }
}

/// The first value keyed `key`, if any.
pub open spec fn obj_get(fields: Seq<(Seq<char>, JsonSpec)>, key: Seq<char>) -> Option<JsonSpec>
    decreases fields.len(),
{
    if fields.len() == 0 {
        None
    } else if fields[0].0 == key {
        Some(fields[0].1)
    } else {
        obj_get(fields.drop_first(), key)
    }
}

impl JsonVal {
    /// Whether the value is a list.
    pub fn is_array(&self) -> (r: bool)
        ensures
            r == (self@ is Arr),
    {
        match self {
            JsonVal::Arr(_) => true,
            _ => false,
        }
    }

    /// The items of a list value.
    pub fn as_array(&self) -> (r: Option<&Vec<JsonVal>>)
        ensures
            match r {
                Some(items) => self@ == JsonSpec::Arr(items.deep_view()),
                None => !(self@ is Arr),
            },
    {
        match self {
            JsonVal::Arr(items) => {
                proof {
                    lemma_json_view_arr(items@);
                    assert(json_view_arr(items@) =~= items.deep_view());
                }
                Some(items)
            },
            _ => None,
        }
    }

    /// The text of a text value.
    pub fn as_str(&self) -> (r: Option<&String>)
        ensures
            match r {
                Some(s) => self@ == JsonSpec::Str(s@),
                None => !(self@ is Str),
            },
    {
        match self {
            JsonVal::Str(s) => Some(s),
            _ => None,
        }
    }

    /// The boolean of a boolean value.
    pub fn as_bool(&self) -> (r: Option<bool>)
        ensures
            match r {
                Some(b) => self@ == JsonSpec::Bool(b),
                None => !(self@ is Bool),
            },
    {
        match self {
            JsonVal::Bool(b) => Some(*b),
            _ => None,
        }
    }

    /// The integer of a number value.
    pub fn as_u64(&self) -> (r: Option<u64>)
        ensures
            match r {
                Some(n) => self@ == JsonSpec::Num(n),
                None => !(self@ is Num),
            },
    {
        match self {
            JsonVal::Num(n) => Some(*n),
            _ => None,
        }
    }

    /// The first value keyed `key` of a keyed-list value.
    pub fn get<'a>(&'a self, key: &str) -> (r: Option<&'a JsonVal>)
        ensures
            match r {
                Some(x) => self@ matches JsonSpec::Obj(fields) && obj_get(fields, key@) == Some(
                    x@,
                ),
                None => self@ matches JsonSpec::Obj(fields) ==> obj_get(fields, key@) is None,
            },
    {
        match self {
            JsonVal::Obj(fields) => {
                let ghost fspec = json_view_obj(fields@);
                let n = fields.len();
                let mut i: usize = 0;
                proof {
                    lemma_json_view_obj(fields@);
                    assert(fspec.skip(0) =~= fspec);
                    assert(self@ == JsonSpec::Obj(json_view_obj(fields@)));
                }
                while i < n
                    invariant
                        i <= n,
                        n == fields@.len(),
                        fspec == json_view_obj(fields@),
                        self@ == JsonSpec::Obj(fspec),
                        fspec.len() == n,
                        forall|k: int|
                            0 <= k < n ==> fspec[k] == (fields@[k].0@, json_view(fields@[k].1)),
                        obj_get(fspec, key@) == obj_get(fspec.skip(i as int), key@),
                    decreases n - i,
                {
                    proof {
                        assert(fspec.skip(i as int)[0] == fspec[i as int]);
                        assert(fspec.skip(i as int).drop_first() =~= fspec.skip(i + 1));
                    }
                    if str_eq(fields[i].0.as_str(), key) {
                        proof {
                            assert(self@ == JsonSpec::Obj(fspec));
                            assert(fspec[i as int].0 == key@);
                            assert(obj_get(fspec.skip(i as int), key@) == Some(fspec[i as int].1));
                            assert(obj_get(fspec, key@) == Some(json_view(fields@[i as int].1)));
                        }
                        return Some(&fields[i].1);
                    }
                    i = i + 1;
                }
                proof {
                    assert(fspec.skip(n as int) =~= Seq::<(Seq<char>, JsonSpec)>::empty());
                }
                None
            },
            _ => None,
        }
    }
}

} // verus!
