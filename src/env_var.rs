//! One flattened entry, and its rendering as a shell assignment.
use vstd::prelude::*;
use vstd::string::StringExecFns;

use crate::json::{Json, JsonValue};
use crate::text::{escape_quotes, escaped, joined};

verus! {

/// A flattened entry: a key and the scalar value found under it.
#[derive(Debug, Clone, PartialEq, Eq)]
pub struct EnvVar(pub String, pub JsonValue);

impl View for EnvVar {
    type V = (Seq<char>, Json);

    open spec fn view(&self) -> (Seq<char>, Json) {
        (self.0@, self.1@)
    }
}

/// The line `KEY=VALUE` for a key and a value; empty for an array or an object.
pub open spec fn formatted(key: Seq<char>, v: Json) -> Seq<char> {
    match v {
        Json::Null => key + "=null"@,
        Json::Bool(b) => key + "="@ + if b {
            "true"@
        } else {
            "false"@
        },
        Json::Number(t) => key + "="@ + t,
        Json::Str(s) => key + "=\""@ + escaped(s) + "\""@,
        _ => Seq::empty(),
    }
}

/// The lines of the entries, in order, separated by newlines.
pub open spec fn document(entries: Seq<(Seq<char>, Json)>) -> Seq<char> {
    joined(entries.map_values(|e: (Seq<char>, Json)| formatted(e.0, e.1)), seq!['\n'])
}

/// The models of the entries, in order.
pub open spec fn entries_of(vars: Seq<EnvVar>) -> Seq<(Seq<char>, Json)> {
    vars.map_values(|v: EnvVar| v@)
}

impl EnvVar {
    /// Renders the entry as one line: `KEY=null`, `KEY=true`, `KEY=<number text>`
    /// or `KEY="<text>"` with its double quotes escaped; an array or an object
    /// renders as the empty string.
    pub fn to_string(&self) -> (r: String)
        ensures
            r@ == formatted(self.0@, self.1@),
    {
        let key = self.0.as_str();
        match &self.1 {
            JsonValue::Null => String::from_str(key).concat("=null"),
            JsonValue::Bool(b) => {
                let line = String::from_str(key).concat("=");
                if *b {
                    line.concat("true")
                } else {
                    line.concat("false")
                }
            },
            JsonValue::Number(t) => String::from_str(key).concat("=").concat(t.as_str()),
            JsonValue::String(s) => {
                let text = escape_quotes(s.as_str());
                String::from_str(key).concat("=\"").concat(text.as_str()).concat("\"")
            },
            _ => String::new(),
        }
    }
}

/// Renders the entries one per line, in order, with no newline after the last.
pub fn format_env(vars: &[EnvVar]) -> (r: String)
    ensures
        r@ == document(entries_of(vars@)),
{
    let mut r = String::new();
    let ghost lines = entries_of(vars@).map_values(|e: (Seq<char>, Json)| formatted(e.0, e.1));
    for i in 0..vars.len()
        invariant
            lines == entries_of(vars@).map_values(|e: (Seq<char>, Json)| formatted(e.0, e.1)),
            r@ == joined(lines.take(i as int), seq!['\n']),
    {
        proof {
            reveal_strlit("\n");
            assert(lines.take(i + 1).drop_last() == lines.take(i as int));
            assert(lines.take(i + 1).last() == formatted(vars@[i as int].0@, vars@[i as int].1@));
        }
        if i > 0 {
            r.append("\n");
        }
        let line = vars[i].to_string();
        r.append(line.as_str());
    }
    assert(lines.take(vars@.len() as int) == lines);
    r
}

} // verus!
