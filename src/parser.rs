//! The flattener: options, the recursive walk, and how keys are composed.
use vstd::prelude::*;
use vstd::string::StringExecFns;

use crate::env_var::{document, entries_of, EnvVar};
use crate::json::{
    is_complex, is_scalar, json_fields, json_items, lemma_json_fields, lemma_json_items, Json,
    JsonValue,
};
use crate::text::{decimal, decimal_string, joined, push_stripped, stripped, trim, trimmed};

verus! {

/// The model of `ParseOptions`.
pub struct Config {
    pub key_separator: Seq<char>,
    pub array_separator: Seq<char>,
    pub enumerate_array: bool,
}

/// How a document is flattened: the text between the parts of a key, the text
/// between the items of a collapsed array, and whether arrays of scalars are
/// spread over one entry per item.
#[derive(Debug, Clone)]
pub struct ParseOptions {
    key_separator: String,
    array_separator: String,
    enumerate_array: bool,
}

impl View for ParseOptions {
    type V = Config;

    closed spec fn view(&self) -> Config {
        Config {
            key_separator: self.key_separator@,
            array_separator: self.array_separator@,
            enumerate_array: self.enumerate_array,
        }
    }
}

impl ParseOptions {
    pub fn new(key_separator: String, array_separator: String, enumerate_array: bool) -> (r: Self)
        ensures
            r@ == (Config {
                key_separator: key_separator@,
                array_separator: array_separator@,
                enumerate_array,
            }),
    {
        ParseOptions { key_separator, array_separator, enumerate_array }
    }
}

/// The key of a child: the segment alone under the root, else the prefix, the
/// separator and the segment.
pub open spec fn key_of(prefix: Seq<char>, segment: Seq<char>, separator: Seq<char>) -> Seq<char> {
    if prefix.len() == 0 {
        segment
    } else {
        prefix + separator + segment
    }
}

/// Some item is an array or an object.
pub open spec fn has_complex(items: Seq<Json>) -> bool {
    exists|i: int| 0 <= i < items.len() && is_complex(#[trigger] items[i])
}

/// The text of a scalar inside a collapsed array.
pub open spec fn rendered(v: Json) -> Seq<char> {
    match v {
        Json::Null => "null"@,
        Json::Bool(b) => if b {
            "true"@
        } else {
            "false"@
        },
        Json::Number(t) => t,
        Json::Str(s) => s,
        _ => Seq::empty(),
    }
}

/// The single text that an array of scalars collapses to.
pub open spec fn collapsed(items: Seq<Json>, separator: Seq<char>) -> Seq<char> {
    joined(items.map_values(|v: Json| stripped(rendered(v))), separator)
}

/// The entries of the value `v` found under `key`, in document order. An
/// array is walked item by item when it is empty, when the options ask for
/// enumeration, or when an item is an array or an object; otherwise its items
/// collapse into one string.
pub open spec fn flatten(key: Seq<char>, v: Json, c: Config) -> Seq<(Seq<char>, Json)>
    decreases v,
{
    match v {
        Json::Array(items) => if items.len() == 0 || c.enumerate_array || has_complex(items) {
            flatten_items(key, items, c)
        } else {
            seq![(trimmed(key), Json::Str(collapsed(items, c.array_separator)))]
        },
        Json::Object(fields) => flatten_fields(key, fields, c),
        _ => seq![(trimmed(key), v)],
    }
}

/// The entries of the items of an array under `key`, each keyed by its index.
pub open spec fn flatten_items(key: Seq<char>, items: Seq<Json>, c: Config) -> Seq<
    (Seq<char>, Json),
>
    decreases items,
{
    if items.len() == 0 {
        Seq::empty()
    } else {
        flatten_items(key, items.drop_last(), c) + flatten(
            key_of(key, decimal((items.len() - 1) as nat), c.key_separator),
            items.last(),
            c,
        )
    }
}

/// The entries of the fields of an object under `key`, each keyed by its name.
pub open spec fn flatten_fields(key: Seq<char>, fields: Seq<(Seq<char>, Json)>, c: Config) -> Seq<
    (Seq<char>, Json),
>
    decreases fields,
{
    if fields.len() == 0 {
        Seq::empty()
    } else {
        flatten_fields(key, fields.drop_last(), c) + flatten(
            key_of(key, fields.last().0, c.key_separator),
            fields.last().1,
            c,
        )
    }
}


/// Appends the text of a scalar to `r`, without its backslashes and double quotes.
fn push_rendered(r: &mut String, v: &JsonValue)
    ensures
        final(r)@ == old(r)@ + stripped(rendered(v@)),
{
    match v {
        JsonValue::Null => push_stripped(r, "null"),
        JsonValue::Bool(b) => if *b {
            push_stripped(r, "true")
        } else {
            push_stripped(r, "false")
        },
        JsonValue::Number(t) => push_stripped(r, t.as_str()),
        JsonValue::String(s) => push_stripped(r, s.as_str()),
        _ => {
            proof {
                reveal(Seq::filter);
            }
        },
    }
}

/// Collapses the items of an array into one text: each rendered and stripped,
/// with `separator` between each two.
fn collapse(items: &Vec<JsonValue>, separator: &str) -> (r: String)
    ensures
        r@ == collapsed(json_items(items@), separator@),
{
    let ghost parts = json_items(items@).map_values(|v: Json| stripped(rendered(v)));
    proof {
        lemma_json_items(items@);
    }
    let mut r = String::new();
    for i in 0..items.len()
        invariant
            parts == json_items(items@).map_values(|v: Json| stripped(rendered(v))),
            parts.len() == items@.len(),
            forall|j: int| 0 <= j < items@.len() ==> #[trigger] parts[j] == stripped(rendered(items@[j]@)),
            r@ == joined(parts.take(i as int), separator@),
    {
        assert(parts.take(i + 1).drop_last() == parts.take(i as int));
        if i > 0 {
            r.append(separator);
        }
        push_rendered(&mut r, &items[i]);
    }
    assert(parts.take(items@.len() as int) == parts);
    r
}

/// Whether some item is an array or an object.
fn any_complex(items: &Vec<JsonValue>) -> (r: bool)
    ensures
        r == has_complex(json_items(items@)),
{
    proof {
        lemma_json_items(items@);
    }
    let ghost models = json_items(items@);
    let mut found = false;
    for i in 0..items.len()
        invariant
            models == json_items(items@),
            models.len() == items@.len(),
            forall|j: int| 0 <= j < items@.len() ==> #[trigger] models[j] == items@[j]@,
            found == has_complex(models.take(i as int)),
    {
        let ghost before = models.take(i as int);
        let ghost after = models.take(i + 1);
        assert(forall|j: int| 0 <= j < i ==> after[j] == before[j]);
        assert(after[i as int] == models[i as int]);
        if items[i].is_complex() {
            found = true;
        }
    }
    assert(models.take(items@.len() as int) == models);
    found
}

/// Flattens JSON documents with fixed options.
#[derive(Debug, Clone)]
pub struct JsonParser {
    options: ParseOptions,
}

impl View for JsonParser {
    type V = Config;

    closed spec fn view(&self) -> Config {
        self.options@
    }
}

impl JsonParser {
    pub fn new(options: ParseOptions) -> (r: Self)
        ensures
            r@ == options@,
    {
        JsonParser { options }
    }

    /// Flattens `json` from the root, whose key is empty, into its entries in
    /// document order.
    pub fn parse(&mut self, json: &JsonValue) -> (r: Vec<EnvVar>)
        ensures
            *final(self) == *old(self),
            entries_of(r@) == flatten(Seq::empty(), json@, old(self)@),
    {
        let root = "";
        proof {
            reveal_strlit("");
            assert(root@ =~= Seq::<char>::empty());
        }
        Self::parse_value(root, json, &self.options)
    }

    /// The entries of `value` found under `key`: objects and enumerated arrays
    /// are walked child by child (an empty one gives no entry), a non-empty
    /// array of scalars is collapsed into one string unless the options ask for
    /// enumeration, and a scalar is one entry under the trimmed key.
    fn parse_value(key: &str, value: &JsonValue, options: &ParseOptions) -> (r: Vec<EnvVar>)
        ensures
            entries_of(r@) == flatten(key@, value@, options@),
        decreases value,
    {
        match value {
            JsonValue::Array(items) => {
                proof {
                    lemma_json_items(items@);
                }
                let ghost models = json_items(items@);
                let has_complex_values = any_complex(items);
                if items.len() == 0 || options.enumerate_array || has_complex_values {
                    let mut values: Vec<EnvVar> = Vec::new();
                    for i in 0..items.len()
                        invariant
                            models == json_items(items@),
                            models.len() == items@.len(),
                            forall|j: int| 0 <= j < items@.len() ==> #[trigger] models[j] == items@[j]@,
                            *value == JsonValue::Array(*items),
                            entries_of(values@) == flatten_items(key@, models.take(i as int), options@),
                    {
                        let index = decimal_string(i);
                        let child_key = Self::build_key(key, index.as_str(), options.key_separator.as_str());
                        proof {
                            assert(decreases_to!(*value => (*value)->Array_0));
                            assert(decreases_to!(*items => items[i as int]));
                        }
                        let mut child = Self::parse_value(child_key.as_str(), &items[i], options);
                        let ghost start = values@;
                        let ghost added = child@;
                        values.append(&mut child);
                        assert(models.take(i + 1).drop_last() == models.take(i as int));
                        assert(entries_of(values@) == entries_of(start) + entries_of(added));
                    }
                    assert(models.take(items@.len() as int) == models);
                    values
                } else {
                    let text = collapse(items, options.array_separator.as_str());
                    let mut values: Vec<EnvVar> = Vec::new();
                    values.push(EnvVar(trim(key), JsonValue::String(text)));
                    assert(entries_of(values@) =~= flatten(key@, value@, options@));
                    values
                }
            },
            JsonValue::Object(fields) => {
                proof {
                    lemma_json_fields(fields@);
                }
                let ghost models = json_fields(fields@);
                let mut values: Vec<EnvVar> = Vec::new();
                for i in 0..fields.len()
                    invariant
                        models == json_fields(fields@),
                        models.len() == fields@.len(),
                        forall|j: int|
                            0 <= j < fields@.len() ==> #[trigger] models[j] == (
                            fields@[j].0@,
                            fields@[j].1@,
                        ),
                        *value == JsonValue::Object(*fields),
                        entries_of(values@) == flatten_fields(key@, models.take(i as int), options@),
                {
                    let (name, child_value) = &fields[i];
                    let child_key = Self::build_key(key, name.as_str(), options.key_separator.as_str());
                    proof {
                        assert(decreases_to!(*value => (*value)->Object_0));
                        assert(decreases_to!(*fields => fields[i as int]));
                        assert(decreases_to!(fields[i as int] => fields[i as int].1));
                    }
                    let mut child = Self::parse_value(child_key.as_str(), child_value, options);
                    let ghost start = values@;
                        let ghost added = child@;
                    values.append(&mut child);
                    assert(models.take(i + 1).drop_last() == models.take(i as int));
                    assert(entries_of(values@) == entries_of(start) + entries_of(added));
                }
                assert(models.take(fields@.len() as int) == models);
                values
            },
            _ => {
                let mut values: Vec<EnvVar> = Vec::new();
                values.push(EnvVar(trim(key), value.clone()));
                assert(entries_of(values@) =~= flatten(key@, value@, options@));
                values
            },
        }
    }

    /// The key of a child: `key` alone when `prefix` is empty, else `prefix`,
    /// `separator` and `key`.
    pub fn build_key(prefix: &str, key: &str, separator: &str) -> (r: String)
        ensures
            r@ == key_of(prefix@, key@, separator@),
            prefix@.len() == 0 ==> r@ == key@,
            prefix@.len() > 0 ==> r@ == prefix@ + separator@ + key@,
    {
        if prefix.is_empty() {
            String::from_str(key)
        } else {
            String::from_str(prefix).concat(separator).concat(key)
        }
    }
}


/// An empty array or an empty object adds no entry, under any key and with
/// any options.
pub proof fn lemma_empty_containers(key: Seq<char>, c: Config)
    ensures
        flatten(key, Json::Array(Seq::empty()), c) == Seq::<(Seq<char>, Json)>::empty(),
        flatten(key, Json::Object(Seq::empty()), c) == Seq::<(Seq<char>, Json)>::empty(),
{
}

/// A scalar at the root flattens to exactly one entry: the empty key and the
/// value itself.
pub proof fn lemma_scalar_root(v: Json, c: Config)
    requires
        is_scalar(v),
    ensures
        flatten(Seq::empty(), v, c) == seq![(Seq::<char>::empty(), v)],
{
    assert(trimmed(Seq::empty()) == Seq::<char>::empty());
}

/// Flattening keeps no state between runs: two runs of `JsonParser::parse` on
/// the same document with the same options give the same entries, and so the
/// same rendered text.
pub proof fn lemma_parse_repeatable(json: Json, c: Config, first: Seq<EnvVar>, second: Seq<EnvVar>)
    requires
        entries_of(first) == flatten(Seq::empty(), json, c),
        entries_of(second) == flatten(Seq::empty(), json, c),
    ensures
        entries_of(first) == entries_of(second),
        document(entries_of(first)) == document(entries_of(second)),
{
}

} // verus!
