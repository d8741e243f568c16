//! A document as the exchange sends it, and how its fields are read.
use crate::dec::{dec, Dec};
use crate::money::{self, amount, read_amount};
use crate::symbols::{lemma_lookup_first, lemma_lookup_none, lookup};
use crate::text::{own, same, trimmed};
use serde_json::Value;
use vstd::prelude::*;

verus! {

/// A number of a document, in the forms in which it is read.
#[derive(Debug)]
pub struct JsonNumber {
    /// As the document writes it.
    pub text: String,
    /// As a fraction without an exponent.
    pub plain: Option<String>,
    /// The signed integer that it is.
    pub exact: Option<i64>,
    /// The unsigned integer that it is.
    pub natural: Option<u64>,
    /// The integer that is left once its fraction is cut off.
    pub cut: Option<i64>,
}

impl JsonNumber {
    /// The number as a signed integer: the one that it is, else the unsigned one
    /// that it is, wrapped, else what is left once its fraction is cut off.
    pub open spec fn as_whole(self) -> Option<i64> {
        match (self.exact, self.natural) {
            (Some(n), _) => Some(n),
            (None, Some(n)) => Some(n as i64),
            (None, None) => self.cut,
        }
    }

    pub fn whole(&self) -> (r: Option<i64>)
        ensures
            r == self.as_whole(),
    {
        match (self.exact, self.natural) {
            (Some(n), _) => Some(n),
            (None, Some(n)) => Some(n as i64),
            (None, None) => self.cut,
        }
    }
}

/// A document.
#[derive(Debug)]
pub enum Json {
    Null,
    Bool(bool),
    Number(JsonNumber),
    Text(String),
    List(Vec<Json>),
    Object(Vec<(String, Json)>),
}

/// A document as `serde_json` holds it.
#[verifier::external_type_specification]
#[verifier::external_body]
pub struct ExValue(serde_json::Value);

/// The document that a value of `serde_json` holds.
pub uninterp spec fn value_document(value: serde_json::Value) -> Json;

/// The document that `serde_json` reads from a text, if it reads one.
pub uninterp spec fn json_document(text: Seq<char>) -> Option<Json>;

/// `serde_json::from_str` into a `serde_json::Value`. Which texts it reads, and as
/// which document, is named, not stated.
#[verifier::external_body]
fn parse_value(text: &str) -> (r: Option<serde_json::Value>)
    ensures
        match r {
            Some(v) => json_document(text@) == Some(value_document(v)),
            None => json_document(text@) is None,
        },
{
    serde_json::from_str(text).ok()
}

/// The variants of `serde_json::Value`, one for one. A number is given as it is
/// printed and by `as_f64`, `as_i64` and `as_u64`. What a value holds is named, not
/// stated.
#[verifier::external_body]
fn take_document(value: serde_json::Value) -> (r: Json)
    ensures
        r == value_document(value),
{
    match value {
        Value::Null => Json::Null,
        Value::Bool(b) => Json::Bool(b),
        Value::Number(n) => Json::Number(JsonNumber {
            text: n.to_string(),
            plain: n.as_f64().map(|x| x.to_string()),
            exact: n.as_i64(),
            natural: n.as_u64(),
            cut: n.as_f64().map(|x| x as i64),
        }),
        Value::String(s) => Json::Text(s),
        Value::Array(v) => Json::List(v.into_iter().map(take_document).collect()),
        Value::Object(m) => Json::Object(m.into_iter().map(|(k, v)| (k, take_document(v))).collect()),
    }
}

/// Reads a document from a text.
pub fn read_document(text: &str) -> (r: Option<Json>)
    ensures
        r == json_document(text@),
{
    match parse_value(text) {
        Some(v) => Some(take_document(v)),
        None => None,
    }
}

impl Json {
    /// The field of an object.
    pub open spec fn field(self, key: Seq<char>) -> Option<Json> {
        match self {
            Json::Object(e) => lookup(e@, key),
            _ => None,
        }
    }

    /// The field of an object, else another one.
    pub open spec fn field_or(self, key: Seq<char>, other: Seq<char>) -> Option<Json> {
        match self.field(key) {
            Some(v) => Some(v),
            None => self.field(other),
        }
    }

    /// The text of a field; nothing where it is none.
    pub open spec fn text_at(self, key: Seq<char>) -> Option<Seq<char>> {
        match self.field(key) {
            Some(v) => v.as_text(),
            None => None,
        }
    }

    /// The integer of a field; nothing where it is none.
    pub open spec fn int_at(self, key: Seq<char>) -> Option<i64> {
        match self.field(key) {
            Some(Json::Number(n)) => n.exact,
            _ => None,
        }
    }

    /// Whether a field is true.
    pub open spec fn true_at(self, key: Seq<char>) -> bool {
        match self.field(key) {
            Some(Json::Bool(b)) => b,
            _ => false,
        }
    }

    /// The text that the value is.
    pub open spec fn as_text(self) -> Option<Seq<char>> {
        match self {
            Json::Text(t) => Some(t@),
            _ => None,
        }
    }

    /// The text that the value is, or a number as it is written.
    pub open spec fn as_written(self) -> Option<Seq<char>> {
        match self {
            Json::Text(t) => Some(t@),
            Json::Number(n) => Some(n.text@),
            _ => None,
        }
    }

    pub fn get(&self, key: &str) -> (r: Option<&Json>)
        ensures
            match r {
                Some(v) => self.field(key@) == Some(*v),
                None => self.field(key@) is None,
            },
    {
        match self {
            Json::Object(e) => {
                let mut i: usize = 0;
                while i < e.len()
                    invariant
                        i <= e@.len(),
                        self.field(key@) == lookup(e@, key@),
                        forall|j: int| 0 <= j < i ==> (#[trigger] e@[j]).0@ != key@,
                    decreases e@.len() - i,
                {
                    if same(e[i].0.as_str(), key) {
                        proof {
                            lemma_lookup_first(e@, key@, i as int);
                        }
                        return Some(&e[i].1);
                    }
                    i = i + 1;
                }
                proof {
                    lemma_lookup_none(e@, key@);
                }
                None
            },
            _ => None,
        }
    }

    pub fn get_or(&self, key: &str, other: &str) -> (r: Option<&Json>)
        ensures
            match r {
                Some(v) => self.field_or(key@, other@) == Some(*v),
                None => self.field_or(key@, other@) is None,
            },
    {
        match self.get(key) {
            Some(v) => Some(v),
            None => self.get(other),
        }
    }

    pub fn get_text(&self, key: &str) -> (r: Option<&str>)
        ensures
            match r {
                Some(t) => self.text_at(key@) == Some(t@),
                None => self.text_at(key@) is None,
            },
    {
        match self.get(key) {
            Some(Json::Text(t)) => Some(t.as_str()),
            _ => None,
        }
    }

    pub fn get_int(&self, key: &str) -> (r: Option<i64>)
        ensures
            r == self.int_at(key@),
    {
        match self.get(key) {
            Some(Json::Number(n)) => n.exact,
            _ => None,
        }
    }

    pub fn is_true(&self, key: &str) -> (r: bool)
        ensures
            r == self.true_at(key@),
    {
        match self.get(key) {
            Some(Json::Bool(b)) => *b,
            _ => false,
        }
    }

    pub fn written(&self) -> (r: Option<&str>)
        ensures
            match r {
                Some(t) => self.as_written() == Some(t@),
                None => self.as_written() is None,
            },
    {
        match self {
            Json::Text(t) => Some(t.as_str()),
            Json::Number(n) => Some(n.text.as_str()),
            _ => None,
        }
    }
}

/// The amount of an optional value: a text or a number that can be read.
pub open spec fn amount_in(v: Option<Json>) -> Option<Dec> {
    match v {
        Some(j) => match j.as_written() {
            Some(t) => amount(t),
            None => None,
        },
        None => None,
    }
}

/// What is wrong with an optional value that should be an amount.
pub open spec fn amount_error(v: Option<Json>) -> Seq<char> {
    match v {
        None => "missing numeric value"@,
        Some(j) => match j.as_written() {
            None => "not a decimal"@,
            Some(t) => if trimmed(t).len() == 0 {
                "missing numeric value"@
            } else {
                "not a decimal: "@ + t
            },
        },
    }
}

/// Reads a required amount.
pub fn require_amount(v: Option<&Json>) -> (r: Result<Dec, String>)
    ensures
        match r {
            Ok(d) => amount_in(opt_json(v)) == Some(d),
            Err(e) => amount_in(opt_json(v)) is None && e@ == amount_error(opt_json(v)),
        },
{
    match v {
        None => Err(own("missing numeric value")),
        Some(j) => match j.written() {
            None => Err(own("not a decimal")),
            Some(t) => match money::dec(t) {
                Ok(d) => Ok(d),
                Err(e) => Err(e.message()),
            },
        },
    }
}

pub open spec fn opt_json(v: Option<&Json>) -> Option<Json> {
    match v {
        Some(j) => Some(*j),
        None => None,
    }
}

/// The amount of a field, else zero.
pub open spec fn amount_or_zero(v: Option<Json>) -> Dec {
    match amount_in(v) {
        Some(d) => d,
        None => dec(0, 0),
    }
}

/// Reads the amount of an optional value, else zero.
pub fn read_or_zero(v: Option<&Json>) -> (r: Dec)
    ensures
        r == amount_or_zero(opt_json(v)),
{
    match v {
        Some(j) => match j.written() {
            Some(t) => match read_amount(t) {
                Some(d) => d,
                None => Dec::zero(),
            },
            None => Dec::zero(),
        },
        None => Dec::zero(),
    }
}

} // verus!
