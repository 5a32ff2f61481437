//! Reading what platforms send, whatever type they chose for it.

use vstd::prelude::*;
use crate::channel::config::{ChannelEndpoint, EndpointV};
use crate::json::{Json, JsonV};
use crate::table::bound;
use crate::text::{trim, trimmed};

verus! {

/// A text, a number or a truth value as text; nothing else has one.
pub open spec fn js_text(v: JsonV) -> Seq<char> {
    match v {
        JsonV::Str(s) => s,
        JsonV::Bool(b) => if b {
            "true"@
        } else {
            "false"@
        },
        _ => match v.number_text() {
            Some(s) => s,
            None => Seq::empty(),
        },
    }
}

/// The first of two texts that is not empty.
pub open spec fn or_text(a: Seq<char>, b: Seq<char>) -> Seq<char> {
    if a.len() > 0 {
        a
    } else {
        b
    }
}

/// A text, a number or a truth value as text.
pub fn js_str(v: Option<&Json>) -> (r: String)
    ensures
        r@ == (match v {
            Some(j) => js_text(j@),
            None => Seq::empty(),
        }),
{
    match v {
        Some(Json::Str(s)) => s.clone(),
        Some(Json::Bool(b)) => if *b {
            "true".to_owned()
        } else {
            "false".to_owned()
        },
        Some(other) => match other.number_text() {
            Some(s) => s,
            None => String::new(),
        },
        None => String::new(),
    }
}

/// The value under `a` as text.
pub fn js_at(v: &Json, a: &str) -> (r: String)
    ensures
        r@ == js_text(v@.at(a@)),
{
    js_str(v.get(a))
}

/// The value under `a` and `b` as text.
pub fn js_at2(v: &Json, a: &str, b: &str) -> (r: String)
    ensures
        r@ == js_text(v@.at(a@).at(b@)),
{
    match v.get(a) {
        Some(x) => js_at(x, b),
        None => String::new(),
    }
}

/// The value under `a`, `b` and `c` as text.
pub fn js_at3(v: &Json, a: &str, b: &str, c: &str) -> (r: String)
    ensures
        r@ == js_text(v@.at(a@).at(b@).at(c@)),
{
    match v.get(a) {
        Some(x) => js_at2(x, b, c),
        None => String::new(),
    }
}

/// The first of two texts that is not empty.
pub fn or_else(a: String, b: String) -> (r: String)
    ensures
        r@ == or_text(a@, b@),
{
    if a.as_str().is_empty() {
        b
    } else {
        a
    }
}

/// An extra setting of an endpoint, trimmed; nothing where there is none.
pub open spec fn extra_of(e: EndpointV, key: Seq<char>) -> Seq<char> {
    match bound(e.extra, key) {
        Some(s) => trimmed(s),
        None => Seq::empty(),
    }
}

/// An extra setting of an endpoint.
pub fn extra(ep: &ChannelEndpoint, key: &str) -> (r: String)
    ensures
        r@ == extra_of(ep@, key@),
{
    match ep.extra.get(key) {
        Some(s) => trim(s.as_str()),
        None => String::new(),
    }
}

/// What a value is as text: a text is itself, a truth value its word, a whole number its
/// digits; and what is none of these is nothing.
pub proof fn law_what_a_value_is_as_text(s: Seq<char>, n: nat)
    ensures
        js_text(JsonV::Str(s)) == s,
        js_text(JsonV::Bool(true)) == "true"@,
        js_text(JsonV::Bool(false)) == "false"@,
        js_text(JsonV::Int(n as int)) == crate::text::decimal(n),
        js_text(JsonV::Float(s)) == s,
        js_text(JsonV::Null).len() == 0,
        js_text(JsonV::Object(Map::empty())).len() == 0,
{
}

/// The first of two texts that says anything.
pub proof fn law_the_first_text_that_says_anything(a: Seq<char>, b: Seq<char>)
    ensures
        a.len() > 0 ==> or_text(a, b) == a,
        a.len() == 0 ==> or_text(a, b) == b,
{
}

/// A further setting counts without the space around it; one that is not there is nothing.
pub proof fn law_what_a_setting_says(e: EndpointV, key: Seq<char>)
    ensures
        e.extra.contains_key(key) ==> extra_of(e, key) == trimmed(e.extra[key]),
        !e.extra.contains_key(key) ==> extra_of(e, key).len() == 0,
{
}

} // verus!
