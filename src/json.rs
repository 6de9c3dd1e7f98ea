//! The JSON value tree that the flattener walks, and its mathematical model.
use vstd::prelude::*;

verus! {

/// A parsed JSON value. Numbers keep the text they were written with, and the
/// fields of an object keep the order of the document.
#[derive(Debug, PartialEq, Eq)]
pub enum JsonValue {
    Null,
    Bool(bool),
    Number(String),
    String(String),
    Array(Vec<JsonValue>),
    Object(Vec<(String, JsonValue)>),
}

/// The model of a `JsonValue`: text as sequences of characters.
pub enum Json {
    Null,
    Bool(bool),
    Number(Seq<char>),
    Str(Seq<char>),
    Array(Seq<Json>),
    Object(Seq<(Seq<char>, Json)>),
}

/// A value that is neither an array nor an object.
pub open spec fn is_scalar(v: Json) -> bool {
    !(v is Array) && !(v is Object)
}

pub open spec fn json_of(v: JsonValue) -> Json
    decreases v,
{
    match v {
        JsonValue::Null => Json::Null,
        JsonValue::Bool(b) => Json::Bool(b),
        JsonValue::Number(t) => Json::Number(t@),
        JsonValue::String(s) => Json::Str(s@),
        JsonValue::Array(items) => Json::Array(json_items(items@)),
        JsonValue::Object(fields) => Json::Object(json_fields(fields@)),
    }
}

pub open spec fn json_items(items: Seq<JsonValue>) -> Seq<Json>
    decreases items,
{
    if items.len() == 0 {
        Seq::empty()
    } else {
        json_items(items.drop_last()).push(json_of(items.last()))
    }
}

pub open spec fn json_fields(fields: Seq<(String, JsonValue)>) -> Seq<(Seq<char>, Json)>
    decreases fields,
{
    if fields.len() == 0 {
        Seq::empty()
    } else {
        json_fields(fields.drop_last()).push((fields.last().0@, json_of(fields.last().1)))
    }
}

impl View for JsonValue {
    type V = Json;

    open spec fn view(&self) -> Json {
        json_of(*self)
    }
}


/// An array or an object.
pub open spec fn is_complex(v: Json) -> bool {
    v is Array || v is Object
}

/// The model of an array holds the models of its items, one for one.
pub proof fn lemma_json_items(items: Seq<JsonValue>)
    ensures
        json_items(items).len() == items.len(),
        forall|i: int| 0 <= i < items.len() ==> #[trigger] json_items(items)[i] == json_of(items[i]),
    decreases items.len(),
{
    if items.len() > 0 {
        lemma_json_items(items.drop_last());
    }
}

/// The model of an object holds the models of its fields, one for one and in order.
pub proof fn lemma_json_fields(fields: Seq<(String, JsonValue)>)
    ensures
        json_fields(fields).len() == fields.len(),
        forall|i: int|
            0 <= i < fields.len() ==> #[trigger] json_fields(fields)[i] == (
            fields[i].0@,
            json_of(fields[i].1),
        ),
    decreases fields.len(),
{
    if fields.len() > 0 {
        lemma_json_fields(fields.drop_last());
    }
}

impl Clone for JsonValue {
    /// A deep copy, with the same model.
    fn clone(&self) -> (r: Self)
        ensures
            r@ == self@,
        decreases self,
    {
        match self {
            JsonValue::Null => JsonValue::Null,
            JsonValue::Bool(b) => JsonValue::Bool(*b),
            JsonValue::Number(t) => JsonValue::Number(t.clone()),
            JsonValue::String(s) => JsonValue::String(s.clone()),
            JsonValue::Array(items) => {
                proof {
                    lemma_json_items(items@);
                }
                let mut copies: Vec<JsonValue> = Vec::new();
                for i in 0..items.len()
                    invariant
                        *self == JsonValue::Array(*items),
                        copies@.len() == i,
                        forall|j: int| 0 <= j < i ==> (#[trigger] copies@[j])@ == items@[j]@,
                {
                    proof {
                        assert(decreases_to!(*self => (*self)->Array_0));
                        assert(decreases_to!(*items => items[i as int]));
                    }
                    copies.push(items[i].clone());
                }
                proof {
                    lemma_json_items(items@);
                    lemma_json_items(copies@);
                    assert(json_items(copies@) == json_items(items@));
                }
                JsonValue::Array(copies)
            },
            JsonValue::Object(fields) => {
                proof {
                    lemma_json_fields(fields@);
                }
                let mut copies: Vec<(String, JsonValue)> = Vec::new();
                for i in 0..fields.len()
                    invariant
                        *self == JsonValue::Object(*fields),
                        copies@.len() == i,
                        forall|j: int|
                            0 <= j < i ==> (#[trigger] copies@[j]).0@ == fields@[j].0@ && copies@[j].1@
                                == fields@[j].1@,
                {
                    proof {
                        assert(decreases_to!(*self => (*self)->Object_0));
                        assert(decreases_to!(*fields => fields[i as int]));
                        assert(decreases_to!(fields[i as int] => fields[i as int].1));
                    }
                    let (name, value) = &fields[i];
                    copies.push((name.clone(), value.clone()));
                }
                proof {
                    lemma_json_fields(fields@);
                    lemma_json_fields(copies@);
                    assert(json_fields(copies@) == json_fields(fields@));
                }
                JsonValue::Object(copies)
            },
        }
    }
}

impl JsonValue {
    /// Whether the value is an array or an object.
    pub fn is_complex(&self) -> (r: bool)
        ensures
            r == is_complex(self@),
    {
        match self {
            JsonValue::Array(_) | JsonValue::Object(_) => true,
            _ => false,
        }
    }
}

} // verus!
