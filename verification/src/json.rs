//! The library's JSON document model: a tagged union mirroring the shape of
//! a parsed JSON value (null / boolean / number / string / array / object),
//! its mathematical model `JsonV`, and field lookup on objects.
//!
//! Objects keep their fields as an ordered list of key/value pairs; lookup
//! returns the first field with a matching key.

use vstd::prelude::*;
use crate::text::str_eq;

verus! {

/// A JSON value. Numbers carry their decimal rendering: the extraction
/// rules never read a numeric value, only its presence.
pub enum Json {
    Null,
    Bool(bool),
    Num(String),
    Str(String),
    Arr(Vec<Json>),
    Obj(Vec<(String, Json)>),
}

/// The mathematical model of a JSON value: strings as character sequences,
/// arrays and objects as sequences.
pub enum JsonV {
    Null,
    Bool(bool),
    Num(Seq<char>),
    Str(Seq<char>),
    Arr(Seq<JsonV>),
    Obj(Seq<(Seq<char>, JsonV)>),
}

impl Json {
    /// The model of this value.
    pub open spec fn model(self) -> JsonV
        decreases self,
    {
        match self {
            Json::Null => JsonV::Null,
            Json::Bool(b) => JsonV::Bool(b),
            Json::Num(n) => JsonV::Num(n@),
            Json::Str(s) => JsonV::Str(s@),
            Json::Arr(items) => JsonV::Arr(Json::model_items(items@)),
            Json::Obj(fields) => JsonV::Obj(Json::model_fields(fields@)),
        }
    }

    /// The models of the elements of an array, in order.
    pub open spec fn model_items(items: Seq<Json>) -> Seq<JsonV>
        decreases items,
    {
        if items.len() == 0 {
            Seq::empty()
        } else {
            seq![items[0].model()] + Json::model_items(items.subrange(1, items.len() as int))
        }
    }

    /// The models of the fields of an object, in order.
    pub open spec fn model_fields(fields: Seq<(String, Json)>) -> Seq<(Seq<char>, JsonV)>
        decreases fields,
    {
        if fields.len() == 0 {
            Seq::empty()
        } else {
            seq![(fields[0].0@, fields[0].1.model())]
                + Json::model_fields(fields.subrange(1, fields.len() as int))
        }
    }
}

impl View for Json {
    type V = JsonV;

    open spec fn view(&self) -> JsonV {
        self.model()
    }
}

/// The model of an array keeps its length and models each element.
pub proof fn lemma_model_items_props(items: Seq<Json>)
    ensures
        Json::model_items(items).len() == items.len(),
        forall|i: int|
            0 <= i < items.len() ==> #[trigger] Json::model_items(items)[i] == items[i].model(),
    decreases items.len(),
{
    if items.len() > 0 {
        let rest = items.subrange(1, items.len() as int);
        lemma_model_items_props(rest);
        assert forall|i: int|
            0 <= i < items.len() implies #[trigger] Json::model_items(items)[i]
            == items[i].model() by {
            if i > 0 {
                assert(rest[i - 1] == items[i]);
                assert(Json::model_items(items)[i] == Json::model_items(rest)[i - 1]);
            }
        }
    }
}

/// The model of an object keeps its length and models each field.
pub proof fn lemma_model_fields_props(fields: Seq<(String, Json)>)
    ensures
        Json::model_fields(fields).len() == fields.len(),
        forall|i: int|
            0 <= i < fields.len() ==> #[trigger] Json::model_fields(fields)[i] == (
            fields[i].0@,
            fields[i].1.model(),
            ),
    decreases fields.len(),
{
    if fields.len() > 0 {
        let rest = fields.subrange(1, fields.len() as int);
        lemma_model_fields_props(rest);
        assert forall|i: int|
            0 <= i < fields.len() implies #[trigger] Json::model_fields(fields)[i] == (
        fields[i].0@,
        fields[i].1.model(),
        ) by {
            if i > 0 {
                assert(rest[i - 1] == fields[i]);
                assert(Json::model_fields(fields)[i] == Json::model_fields(rest)[i - 1]);
            }
        }
    }
}

/// First field of `fields` whose key is `key`, if any.
pub open spec fn lookup_fields(fields: Seq<(Seq<char>, JsonV)>, key: Seq<char>) -> Option<JsonV>
    decreases fields.len(),
{
    if fields.len() == 0 {
        None
    } else if fields[0].0 == key {
        Some(fields[0].1)
    } else {
        lookup_fields(fields.drop_first(), key)
    }
}

/// The field named `key` of `j`, when `j` is an object that has one;
/// `None` when the key is absent or `j` is not an object.
pub open spec fn get_field(j: JsonV, key: Seq<char>) -> Option<JsonV> {
    match j {
        JsonV::Obj(fields) => lookup_fields(fields, key),
        _ => None,
    }
}

/// One step of a path descent: the field named `key` of the value reached
/// so far, if anything was reached at all.
pub open spec fn step(o: Option<JsonV>, key: Seq<char>) -> Option<JsonV> {
    match o {
        Some(j) => get_field(j, key),
        None => None,
    }
}

/// Looking a key up among the fields from position `i` on either finds it
/// at `i` or moves on to position `i + 1`.
proof fn lemma_lookup_step(s: Seq<(String, Json)>, key: Seq<char>, i: int)
    requires
        0 <= i < s.len(),
    ensures
        lookup_fields(Json::model_fields(s.skip(i)), key) == (if s[i].0@ == key {
            Some(s[i].1.model())
        } else {
            lookup_fields(Json::model_fields(s.skip(i + 1)), key)
        }),
{
    let t = s.skip(i);
    assert(t[0] == s[i]);
    let m = Json::model_fields(t);
    assert(t.subrange(1, t.len() as int) =~= s.skip(i + 1));
    assert(m[0] == (s[i].0@, s[i].1.model()));
    assert(m.drop_first() =~= Json::model_fields(s.skip(i + 1)));
}

impl Json {
    /// Looks the field named `key` up in this value.
    pub fn get<'a>(&'a self, key: &str) -> (r: Option<&'a Json>)
        ensures
            match r {
                Some(v) => get_field(self@, key@) == Some(v@),
                None => get_field(self@, key@) is None,
            },
    {
        match self {
            Json::Obj(fields) => {
                proof {
                    assert(fields@.skip(0) =~= fields@);
                }
                let n = fields.len();
                let mut i: usize = 0;
                while i < n
                    invariant
                        i <= n,
                        n == fields@.len(),
                        self@ == JsonV::Obj(Json::model_fields(fields@)),
                        get_field(self@, key@) == lookup_fields(
                            Json::model_fields(fields@.skip(i as int)),
                            key@,
                        ),
                    decreases n - i,
                {
                    let (k, v) = &fields[i];
                    proof {
                        lemma_lookup_step(fields@, key@, i as int);
                    }
                    if str_eq(k.as_str(), key) {
                        return Some(v);
                    }
                    i += 1;
                }
                proof {
                    assert(fields@.skip(n as int) =~= Seq::<(String, Json)>::empty());
                }
                None
            },
            _ => None,
        }
    }
}

/// One step of an executable path descent, mirroring `step`.
pub fn descend<'a>(o: Option<&'a Json>, key: &str) -> (r: Option<&'a Json>)
    ensures
        match r {
            Some(v) => step(model_opt(o), key@) == Some(v@),
            None => step(model_opt(o), key@) is None,
        },
{
    match o {
        Some(j) => j.get(key),
        None => None,
    }
}

/// The model of an optional reference to a JSON value.
pub open spec fn model_opt(o: Option<&Json>) -> Option<JsonV> {
    match o {
        Some(j) => Some(j@),
        None => None,
    }
}

} // verus!
