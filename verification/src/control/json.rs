//! Requests and answers as lines of JSON.

use crate::control::method::{method_named, method_of, Method, METHOD_NOT_FOUND, PARSE_ERROR};
use crate::control::params::{Field, Params};
use crate::parse::same_text;
use serde_json::Value;
use vstd::prelude::*;
use vstd::string::*;

verus! {

/// A value: what it is, and the text that it is written as.
#[derive(Debug)]
pub struct Json {
    pub text: String,
    pub kind: Kind,
}

/// What a value is.
#[derive(Debug)]
pub enum Kind {
    Null,
    Flag(bool),
    /// A number: as an unsigned one and as a signed one, where it is such.
    Number { unsigned: Option<u64>, signed: Option<i64> },
    Text(String),
    /// A list or an object.
    Other,
}

/// What a text holds.
#[derive(Debug)]
pub enum Parsed {
    /// It is no JSON, and what is wrong with it.
    Broken(String),
    /// A value other than an object.
    Plain,
    /// The fields of an object.
    Object(Vec<(String, Json)>),
}

/// What a text holds, read as JSON.
pub uninterp spec fn json_of(text: Seq<char>) -> Parsed;

/// `serde_json::from_str` to a `serde_json::Value`, with an object taken apart into its fields,
/// each with the text that it is written as. What comes out depends on the text alone.
#[verifier::external_body]
fn parse_json(text: &str) -> (parsed: Parsed)
    ensures
        parsed == json_of(text@),
{
    let field = |v: Value| Json { text: v.to_string(), kind: match v {
        Value::Null => Kind::Null,
        Value::Bool(b) => Kind::Flag(b),
        Value::Number(n) => Kind::Number { unsigned: n.as_u64(), signed: n.as_i64() },
        Value::String(s) => Kind::Text(s),
        Value::Array(_) | Value::Object(_) => Kind::Other,
    } };
    match serde_json::from_str(text) {
        Ok(Value::Object(m)) => Parsed::Object(m.into_iter().map(|(k, v)| (k, field(v))).collect()),
        Ok(_) => Parsed::Plain,
        Err(e) => Parsed::Broken(e.to_string()),
    }
}

/// The first field of a name.
pub open spec fn value_in(fields: Seq<(String, Json)>, key: Seq<char>) -> Option<Json>
    decreases fields.len(),
{
    if fields.len() == 0 {
        None
    } else if fields[0].0@ == key {
        Some(fields[0].1)
    } else {
        value_in(fields.skip(1), key)
    }
}

/// The field of a name, where there is an object that has it.
pub open spec fn value_at(parsed: Parsed, key: Seq<char>) -> Option<Json> {
    match parsed {
        Parsed::Object(fields) => value_in(fields@, key),
        _ => None,
    }
}

/// The method that a request names.
pub open spec fn method_in(parsed: Parsed) -> Option<Method> {
    match value_at(parsed, "method"@) {
        Some(Json { kind: Kind::Text(name), .. }) => method_named(name@),
        _ => None,
    }
}

/// `id` is what an answer to a request is marked with: what the request was marked with, and
/// null where it was not.
pub open spec fn marks(parsed: Parsed, id: Json) -> bool {
    match value_at(parsed, "id"@) {
        Some(given) => id == given,
        None => id.text@ == "null"@ && id.kind == Kind::Null,
    }
}

/// What a value is as a parameter.
pub open spec fn param_of(value: Json) -> Field {
    match value.kind {
        Kind::Text(t) => Field::Text(t),
        Kind::Number { unsigned, signed } => Field::Number { unsigned, signed },
        Kind::Flag(b) => Field::Flag(b),
        _ => Field::Other,
    }
}

/// The parameters that a text spells: the fields of an object, and none otherwise.
pub open spec fn params_in(parsed: Parsed) -> Seq<(String, Field)> {
    match parsed {
        Parsed::Object(fields) => fields@.map_values(|f: (String, Json)| (f.0, param_of(f.1))),
        _ => Seq::empty(),
    }
}

/// A request, with its parameters still as they were sent.
#[derive(Debug)]
pub struct Request {
    pub id: Json,
    pub method: Method,
    pub params: Option<Json>,
}

/// A request that can be carried out.
#[derive(Debug)]
pub struct Call {
    pub id: Json,
    pub method: Method,
    pub params: Params,
}

/// The answer to a request that cannot be carried out.
#[derive(Debug)]
pub struct Refusal {
    pub id: Json,
    pub code: i64,
    pub message: String,
}

/// The refusal that a line calls for, which is no request.
pub open spec fn refuses(parsed: Parsed, refusal: Refusal) -> bool {
    &&& marks(parsed, refusal.id)
    &&& match parsed {
        Parsed::Broken(e) => refusal.code == PARSE_ERROR && refusal.message@ == "parse error: "@
            + e@,
        _ => refusal.code == METHOD_NOT_FOUND && refusal.message@ == "method not found"@,
    }
}

fn null() -> (id: Json)
    ensures
        id.text@ == "null"@,
        id.kind == Kind::Null,
{
    Json { text: String::from_str("null"), kind: Kind::Null }
}

proof fn lemma_value_after_removal(fields: Seq<(String, Json)>, i: int, key: Seq<char>)
    requires
        0 <= i < fields.len(),
        fields[i].0@ != key,
    ensures
        value_in(fields.remove(i), key) == value_in(fields, key),
    decreases fields.len(),
{
    if i == 0 {
        assert(fields.remove(0) =~= fields.skip(1));
    } else {
        assert(fields.remove(i)[0] == fields[0]);
        assert(fields.remove(i).skip(1) =~= fields.skip(1).remove(i - 1));
        lemma_value_after_removal(fields.skip(1), i - 1, key);
    }
}

/// Takes the first field of a name out of the fields.
fn take_value(fields: &mut Vec<(String, Json)>, key: &str) -> (value: Option<Json>)
    ensures
        value == value_in(old(fields)@, key@),
        forall|other: Seq<char>|
            other != key@ ==> #[trigger] value_in(final(fields)@, other) == value_in(
                old(fields)@,
                other,
            ),
{
    let ghost before = fields@;
    let mut i: usize = 0;
    assert(before.skip(0) =~= before);
    while i < fields.len()
        invariant
            before == old(fields)@,
            fields@ == before,
            i <= before.len(),
            value_in(before, key@) == value_in(before.skip(i as int), key@),
        decreases before.len() - i,
    {
        assert(before.skip(i as int)[0] == before[i as int]);
        assert(before.skip(i as int).skip(1) =~= before.skip(i + 1));
        if same_text(fields[i].0.as_str(), key) {
            let (_, value) = fields.remove(i);
            proof {
                assert forall|other: Seq<char>| other != key@ implies #[trigger] value_in(
                    fields@,
                    other,
                ) == value_in(before, other) by {
                    lemma_value_after_removal(before, i as int, other);
                }
            }
            return Some(value);
        }
        i = i + 1;
    }
    None
}

/// The request that a line holds, given what it was read as. A line that is no JSON is refused,
/// and so is one that names no method that there is.
pub fn request_of(parsed: Parsed) -> (r: Result<Request, Refusal>)
    ensures
        match method_in(parsed) {
            Some(method) => r matches Ok(q) && marks(parsed, q.id) && q.method == method
                && q.params == value_at(parsed, "params"@),
            None => r matches Err(refusal) && refuses(parsed, refusal),
        },
{
    proof {
        reveal_strlit("id");
        reveal_strlit("method");
        reveal_strlit("params");
        assert("id"@.len() != "method"@.len() && "id"@.len() != "params"@.len());
        assert("method"@[0] != "params"@[0]);
    }
    match parsed {
        Parsed::Broken(e) => {
            let mut message = String::from_str("parse error: ");
            message.append(e.as_str());
            Err(Refusal { id: null(), code: PARSE_ERROR, message })
        },
        Parsed::Plain => Err(
            Refusal {
                id: null(),
                code: METHOD_NOT_FOUND,
                message: String::from_str("method not found"),
            },
        ),
        Parsed::Object(fields) => {
            let mut rest = fields;
            let id = match take_value(&mut rest, "id") {
                Some(id) => id,
                None => null(),
            };
            let method = match take_value(&mut rest, "method") {
                Some(Json { kind: Kind::Text(name), .. }) => method_of(Some(name.as_str())),
                _ => None,
            };
            match method {
                Some(method) => {
                    let params = take_value(&mut rest, "params");
                    Ok(Request { id, method, params })
                },
                None => Err(
                    Refusal {
                        id,
                        code: METHOD_NOT_FOUND,
                        message: String::from_str("method not found"),
                    },
                ),
            }
        },
    }
}

/// The parameters of a request, given what their text was read as.
pub fn params_of(parsed: Parsed) -> (params: Params)
    ensures
        params.fields@ == params_in(parsed),
{
    let mut out: Vec<(String, Field)> = Vec::new();
    if let Parsed::Object(fields) = parsed {
        let ghost all = fields@;
        let mut rest = fields;
        assert(all.skip(0) =~= all);
        while rest.len() > 0
            invariant
                out@.len() + rest@.len() == all.len(),
                rest@ == all.skip(out@.len() as int),
                forall|i: int|
                    0 <= i < out@.len() ==> #[trigger] out@[i] == (all[i].0, param_of(all[i].1)),
            decreases rest@.len(),
        {
            let (name, value) = rest.remove(0);
            let field = match value.kind {
                Kind::Text(t) => Field::Text(t),
                Kind::Number { unsigned, signed } => Field::Number { unsigned, signed },
                Kind::Flag(b) => Field::Flag(b),
                Kind::Null => Field::Other,
                Kind::Other => Field::Other,
            };
            assert(rest@ =~= all.skip(out@.len() as int + 1));
            out.push((name, field));
        }
        assert(out@ =~= all.map_values(|f: (String, Json)| (f.0, param_of(f.1))));
    }
    Params { fields: out }
}

/// Reads a line as a request: what it is marked with, the method it names, and the parameters
/// that the text of its field for them spells.
pub fn read_request(line: &str) -> (r: Result<Call, Refusal>)
    ensures
        ({
            let parsed = json_of(line@);
            match method_in(parsed) {
                Some(method) => r matches Ok(call) && marks(parsed, call.id) && call.method
                    == method && call.params.fields@ == (match value_at(parsed, "params"@) {
                    Some(params) => params_in(json_of(params.text@)),
                    None => Seq::empty(),
                }),
                None => r matches Err(refusal) && refuses(parsed, refusal),
            }
        }),
{
    match request_of(parse_json(line)) {
        Ok(request) => {
            let params = match request.params {
                Some(value) => params_of(parse_json(value.text.as_str())),
                None => Params { fields: Vec::new() },
            };
            Ok(Call { id: request.id, method: request.method, params })
        },
        Err(refusal) => Err(refusal),
    }
}

/// What an answer comes to: the text of its result, null where it has none, or why there is
/// none.
pub open spec fn reply_in(parsed: Parsed) -> Result<Seq<char>, Seq<char>> {
    match parsed {
        Parsed::Broken(e) => Err(e@),
        _ => match value_at(parsed, "error"@) {
            Some(error) => Err("daemon error: "@ + error.text@),
            None => match value_at(parsed, "result"@) {
                Some(result) => Ok(result.text@),
                None => Ok("null"@),
            },
        },
    }
}

/// The texts of a result.
pub open spec fn result_texts(r: Result<String, String>) -> Result<Seq<char>, Seq<char>> {
    match r {
        Ok(t) => Ok(t@),
        Err(t) => Err(t@),
    }
}

/// What an answer comes to, given what its line was read as.
pub fn reply_of(parsed: Parsed) -> (r: Result<String, String>)
    ensures
        result_texts(r) == reply_in(parsed),
{
    proof {
        reveal_strlit("error");
        reveal_strlit("result");
        assert("error"@.len() != "result"@.len());
    }
    match parsed {
        Parsed::Broken(e) => Err(e),
        Parsed::Plain => Ok(String::from_str("null")),
        Parsed::Object(fields) => {
            let mut rest = fields;
            if let Some(error) = take_value(&mut rest, "error") {
                let mut text = String::from_str("daemon error: ");
                text.append(error.text.as_str());
                return Err(text);
            }
            match take_value(&mut rest, "result") {
                Some(result) => Ok(result.text),
                None => Ok(String::from_str("null")),
            }
        },
    }
}

/// Reads a line as the answer to a request.
pub fn read_reply(line: &str) -> (r: Result<String, String>)
    ensures
        result_texts(r) == reply_in(json_of(line@)),
{
    reply_of(parse_json(line))
}

/// The first field of a name counts, and fields of other names do not.
pub proof fn law_the_first_value_counts(key: String, value: Json, rest: Seq<(String, Json)>, name: Seq<char>)
    ensures
        value_in(Seq::empty(), name) is None,
        key@ == name ==> value_in(seq![(key, value)] + rest, name) == Some(value),
        key@ != name ==> value_in(seq![(key, value)] + rest, name) == value_in(rest, name),
        value_at(Parsed::Plain, name) is None,
{
    assert((seq![(key, value)] + rest).skip(1) =~= rest);
}

/// A method is named by a text, and by nothing that is no text or no object.
pub proof fn law_methods_are_named_by_text(parsed: Parsed)
    ensures
        method_in(parsed) is Some ==> parsed is Object && value_at(parsed, "method"@) is Some
            && value_at(parsed, "method"@)->0.kind is Text,
        value_at(parsed, "method"@) is Some && value_at(parsed, "method"@)->0.kind is Text
            ==> method_in(parsed) == method_named(value_at(parsed, "method"@)->0.kind->Text_0@),
{
}

/// Every field of an object is a parameter, in order and under its name; its value is what it is
/// written as.
pub proof fn law_fields_become_parameters(fields: Vec<(String, Json)>, i: int)
    requires
        0 <= i < fields@.len(),
    ensures
        params_in(Parsed::Object(fields)).len() == fields@.len(),
        params_in(Parsed::Object(fields))[i].0 == fields@[i].0,
        match fields@[i].1.kind {
            Kind::Text(t) => params_in(Parsed::Object(fields))[i].1 == Field::Text(t),
            Kind::Number { unsigned, signed } => params_in(Parsed::Object(fields))[i].1 == (
            Field::Number { unsigned, signed }),
            Kind::Flag(b) => params_in(Parsed::Object(fields))[i].1 == Field::Flag(b),
            _ => params_in(Parsed::Object(fields))[i].1 == Field::Other,
        },
        params_in(Parsed::Plain).len() == 0,
{
}

/// An answer carries the mark of its request; what cannot be read, and what names no method, is
/// refused, each with its own code.
pub proof fn law_refusals_tell_why(parsed: Parsed, refusal: Refusal)
    requires
        refuses(parsed, refusal),
    ensures
        parsed is Broken ==> refusal.code == -32700,
        !(parsed is Broken) ==> refusal.code == -32601,
        value_at(parsed, "id"@) is Some ==> Some(refusal.id) == value_at(parsed, "id"@),
        value_at(parsed, "id"@) is None ==> refusal.id.kind == Kind::Null,
{
}

/// A reply that holds an error is one, whatever else it holds; one that holds none gives its
/// result.
pub proof fn law_errors_come_before_results(parsed: Parsed)
    ensures
        reply_in(parsed) is Err <==> parsed is Broken || value_at(parsed, "error"@) is Some,
        !(parsed is Broken) && value_at(parsed, "error"@) is None && value_at(parsed, "result"@)
            is Some ==> reply_in(parsed) == Ok::<Seq<char>, Seq<char>>(
            value_at(parsed, "result"@)->0.text@,
        ),
{
}

} // verus!
