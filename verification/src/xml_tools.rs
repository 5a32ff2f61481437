//! Tool calls written into the text of a reply: `<tool_call>` blocks (and their
//! plural form) around JSON or around `<function=name>` elements.
//!
//! JSON is tried first, then well-formed elements, then elements whose closing
//! tags are missing. The extractor does not know about thinking; a reader of a
//! whole turn decides which channel it is given.

use vstd::prelude::*;
use crate::double::{out_of_range, too_large};
use crate::json::{fields_of, items_view, lemma_items_view, opt_text, Json, JsonV};
use crate::outside::{drawn_text, parse_json, parsed_json, random_id};
use crate::text::{
    at, chars_of, contains, digit, find_from, holds, is_digit, lemma_find_behind, lemma_find_from,
    lemma_find_past, lemma_find_tag, lower, parse_i64,
    same, search, signed_value, stands_at, string_of, trim, trim_bounds, trimmed,
};

verus! {

/// A tool call of a model turn.
#[derive(Debug, PartialEq, Eq)]
pub struct ToolCall {
    pub id: String,
    pub name: String,
    pub arguments: Json,
}

/// A tool call whose identifier may still be missing.
#[derive(Debug, PartialEq, Eq)]
pub struct Draft {
    pub id: Option<String>,
    pub name: String,
    pub arguments: Json,
}

/// What a call means.
pub ghost struct CallV {
    pub id: Option<Seq<char>>,
    pub name: Seq<char>,
    pub args: JsonV,
}

impl View for ToolCall {
    type V = CallV;

    open spec fn view(&self) -> CallV {
        CallV { id: Some(self.id@), name: self.name@, args: self.arguments@ }
    }
}

impl View for Draft {
    type V = CallV;

    open spec fn view(&self) -> CallV {
        CallV { id: opt_text(self.id), name: self.name@, args: self.arguments@ }
    }
}

pub open spec fn drafts_view(v: Seq<Draft>) -> Seq<CallV> {
    v.map_values(|d: Draft| d@)
}

pub open spec fn calls_view(v: Seq<ToolCall>) -> Seq<CallV> {
    v.map_values(|c: ToolCall| c@)
}

// ---------------------------------------------------------------------------
// Parameter values
// ---------------------------------------------------------------------------

/// The end of the row of digits that starts at `i`.
pub open spec fn digits_end(s: Seq<char>, i: int) -> int
    decreases s.len() - i,
{
    if 0 <= i < s.len() && digit(s[i]) {
        digits_end(s, i + 1)
    } else {
        i
    }
}

pub open spec fn signed(s: Seq<char>, i: int) -> bool {
    0 <= i < s.len() && (s[i] == '+' || s[i] == '-')
}

/// From `i`, nothing, or an exponent to the end of the text.
pub open spec fn exponent_or_end(s: Seq<char>, i: int) -> bool {
    ||| i == s.len()
    ||| 0 <= i < s.len() && (s[i] == 'e' || s[i] == 'E') && {
        let from = if signed(s, i + 1) {
            i + 2
        } else {
            i + 1
        };
        digits_end(s, from) > from && digits_end(s, from) == s.len()
    }
}

/// A decimal number, with digits before the point, after it or both.
pub open spec fn decimal_text(s: Seq<char>, i: int) -> bool {
    let a = digits_end(s, i);
    if 0 <= a < s.len() && s[a] == '.' {
        let b = digits_end(s, a + 1);
        (a > i || b > a + 1) && exponent_or_end(s, b)
    } else {
        a > i && exponent_or_end(s, a)
    }
}

pub open spec fn after_sign(s: Seq<char>) -> int {
    if signed(s, 0) {
        1
    } else {
        0
    }
}

/// A text that names no finite number: an infinity or not-a-number.
pub open spec fn unbounded_text(s: Seq<char>) -> bool {
    let w = lower(s.skip(after_sign(s)));
    w == "inf"@ || w == "infinity"@ || w == "nan"@
}

/// The value of a parameter that is no JSON container.
pub open spec fn plain_value(raw: Seq<char>) -> JsonV {
    if raw == "true"@ {
        JsonV::Bool(true)
    } else if raw == "false"@ {
        JsonV::Bool(false)
    } else if signed_value(raw) is Some && i64::MIN <= signed_value(raw)->0 <= i64::MAX {
        JsonV::Int(signed_value(raw)->0)
    } else if unbounded_text(raw) {
        JsonV::Null
    } else if decimal_text(raw, after_sign(raw)) {
        if too_large(raw) {
            JsonV::Null
        } else {
            JsonV::Float(raw)
        }
    } else {
        JsonV::Str(raw)
    }
}

/// A text between braces or between brackets.
pub open spec fn container_text(raw: Seq<char>) -> bool {
    raw.len() > 0 && ((raw[0] == '{' && raw.last() == '}') || (raw[0] == '[' && raw.last() == ']'))
}

/// The value that the text of a parameter stands for.
pub open spec fn param_value(raw: Seq<char>) -> JsonV {
    if container_text(raw) && parsed_json(raw) is Some {
        parsed_json(raw)->0
    } else {
        plain_value(raw)
    }
}

fn scan_digits(cs: &Vec<char>, i: usize) -> (r: usize)
    requires
        i <= cs@.len(),
    ensures
        r == digits_end(cs@, i as int),
        i <= r <= cs@.len(),
{
    let mut k: usize = i;
    while k < cs.len() && is_digit(cs[k])
        invariant
            i <= k <= cs@.len(),
            digits_end(cs@, i as int) == digits_end(cs@, k as int),
        decreases cs.len() - k,
    {
        k = k + 1;
    }
    k
}

fn is_signed(cs: &Vec<char>, i: usize) -> (r: bool)
    ensures
        r == signed(cs@, i as int),
{
    i < cs.len() && (cs[i] == '+' || cs[i] == '-')
}

fn is_exponent_or_end(cs: &Vec<char>, i: usize) -> (r: bool)
    requires
        i <= cs@.len(),
    ensures
        r == exponent_or_end(cs@, i as int),
{
    if i == cs.len() {
        return true;
    }
    if cs[i] != 'e' && cs[i] != 'E' {
        return false;
    }
    let from: usize = if is_signed(cs, i + 1) {
        i + 2
    } else {
        i + 1
    };
    let end: usize = scan_digits(cs, from);
    end > from && end == cs.len()
}

pub fn is_decimal_text(cs: &Vec<char>, i: usize) -> (r: bool)
    requires
        i <= cs@.len(),
    ensures
        r == decimal_text(cs@, i as int),
{
    let a: usize = scan_digits(cs, i);
    if a < cs.len() && cs[a] == '.' {
        let b: usize = scan_digits(cs, a + 1);
        (a > i || b > a + 1) && is_exponent_or_end(cs, b)
    } else {
        a > i && is_exponent_or_end(cs, a)
    }
}

/// The value of a parameter that is no JSON container: a truth value, an integer,
/// a fraction or a text.
pub fn coerce_plain(raw: &str) -> (r: Json)
    ensures
        r@ == plain_value(raw@),
{
    if same(raw, "true") {
        return Json::Bool(true);
    }
    if same(raw, "false") {
        return Json::Bool(false);
    }
    if let Some(n) = parse_i64(raw) {
        return Json::number(n);
    }
    let cs = chars_of(raw);
    let from: usize = if is_signed(&cs, 0) {
        1
    } else {
        0
    };
    let word = string_of(&cs, from, cs.len());
    assert(word@ =~= raw@.skip(after_sign(raw@)));
    let w = crate::text::to_lower(word.as_str());
    if same(w.as_str(), "inf") || same(w.as_str(), "infinity") || same(w.as_str(), "nan") {
        return Json::Null;
    }
    if is_decimal_text(&cs, from) {
        if out_of_range(raw).0 {
            return Json::Null;
        }
        return Json::Float(raw.to_owned());
    }
    Json::Str(raw.to_owned())
}

/// The value that the text of a parameter stands for.
pub fn coerce_param(raw: &str) -> (r: Json)
    ensures
        r@ == param_value(raw@),
{
    let cs = chars_of(raw);
    let n: usize = cs.len();
    if n > 0 && ((cs[0] == '{' && cs[n - 1] == '}') || (cs[0] == '[' && cs[n - 1] == ']')) {
        if let Some(v) = parse_json(raw) {
            return v;
        }
    }
    coerce_plain(raw)
}

// ---------------------------------------------------------------------------
// Calls written as JSON
// ---------------------------------------------------------------------------

/// The value under `k`, else the value under `function` and `k`.
pub open spec fn call_field(v: JsonV, k: Seq<char>) -> Option<JsonV> {
    match v.field(k) {
        Some(x) => Some(x),
        None => match v.field("function"@) {
            Some(f) => f.field(k),
            None => None,
        },
    }
}

/// Arguments given as a text are the value that the text writes, where it writes one.
pub open spec fn unpacked(v: JsonV) -> JsonV {
    match v {
        JsonV::Str(s) => match parsed_json(s) {
            Some(x) => x,
            None => v,
        },
        _ => v,
    }
}

/// The call that one JSON value writes.
pub open spec fn json_call(v: JsonV) -> Option<CallV> {
    match call_field(v, "name"@) {
        Some(JsonV::Str(name)) => if name.len() == 0 {
            None
        } else {
            Some(
                CallV {
                    id: v.text_at("id"@),
                    name,
                    args: match call_field(v, "arguments"@) {
                        Some(a) => unpacked(a),
                        None => JsonV::Object(Map::empty()),
                    },
                },
            )
        },
        _ => None,
    }
}

/// One call of each value, `None` where a value writes none.
pub open spec fn each_call(items: Seq<JsonV>) -> Option<Seq<CallV>>
    decreases items.len(),
{
    if items.len() == 0 {
        Some(Seq::empty())
    } else {
        match (each_call(items.drop_last()), json_call(items.last())) {
            (Some(cs), Some(c)) => Some(cs.push(c)),
            _ => None,
        }
    }
}

/// The calls that a JSON value writes: one, or a list of at least one.
pub open spec fn json_calls(v: JsonV) -> Option<Seq<CallV>> {
    match v {
        JsonV::Array(items) => if items.len() == 0 {
            None
        } else {
            each_call(items)
        },
        _ => match json_call(v) {
            Some(c) => Some(seq![c]),
            None => None,
        },
    }
}

fn call_field_of<'a>(v: &'a Json, key: &str) -> (r: Option<&'a Json>)
    ensures
        r is Some <==> call_field(v@, key@) is Some,
        r matches Some(j) ==> call_field(v@, key@) == Some(j@),
{
    match v.get(key) {
        Some(x) => Some(x),
        None => match v.get("function") {
            Some(f) => f.get(key),
            None => None,
        },
    }
}

/// Arguments given as a text are the value that the text writes, where it writes one.
pub fn unpack(v: &Json) -> (r: Json)
    ensures
        r@ == unpacked(v@),
{
    match v {
        Json::Str(s) => match parse_json(s.as_str()) {
            Some(x) => x,
            None => v.copy(),
        },
        _ => v.copy(),
    }
}

/// The call that one JSON value writes.
pub fn json_to_call(v: &Json) -> (r: Option<Draft>)
    ensures
        r is Some <==> json_call(v@) is Some,
        r matches Some(d) ==> json_call(v@) == Some(d@),
{
    let name: String = match call_field_of(v, "name") {
        Some(n) => match n.as_str() {
            Some(s) => s.to_owned(),
            None => {
                return None;
            },
        },
        None => {
            return None;
        },
    };
    if name.as_str().is_empty() {
        return None;
    }
    let arguments: Json = match call_field_of(v, "arguments") {
        Some(a) => unpack(a),
        None => Json::object(),
    };
    let id: Option<String> = match v.text_at("id") {
        Some(s) => Some(s.to_owned()),
        None => None,
    };
    Some(Draft { id, name, arguments })
}

/// The calls that a JSON value writes.
pub fn calls_of_json(v: &Json) -> (r: Option<Vec<Draft>>)
    ensures
        r is Some <==> json_calls(v@) is Some,
        r matches Some(ds) ==> json_calls(v@) == Some(drafts_view(ds@)),
{
    match v {
        Json::Array(items) => {
            proof {
                lemma_items_view(items@);
            }
            if items.len() == 0 {
                return None;
            }
            let ghost vals = items_view(items@);
            let mut out: Vec<Draft> = Vec::new();
            let mut i: usize = 0;
            assert(drafts_view(out@) =~= Seq::empty());
            while i < items.len()
                invariant
                    i <= items@.len() == vals.len(),
                    forall|j: int| 0 <= j < vals.len() ==> #[trigger] vals[j] == items@[j]@,
                    each_call(vals.take(i as int)) == Some(drafts_view(out@)),
                    v@ == JsonV::Array(vals),
                    vals.len() > 0,
                decreases items.len() - i,
            {
                let ghost before = out@;
                assert(vals.take(i + 1).drop_last() =~= vals.take(i as int));
                assert(vals.take(i + 1).last() == items@[i as int]@);
                match json_to_call(&items[i]) {
                    Some(d) => {
                        out.push(d);
                        assert(drafts_view(out@) =~= drafts_view(before).push(d@));
                    },
                    None => {
                        proof {
                            lemma_each_call_none(vals, i + 1);
                        }
                        return None;
                    },
                }
                i = i + 1;
            }
            assert(vals.take(i as int) =~= vals);
            Some(out)
        },
        _ => match json_to_call(v) {
            Some(d) => {
                let mut out: Vec<Draft> = Vec::new();
                out.push(d);
                assert(drafts_view(out@) =~= seq![d@]);
                Some(out)
            },
            None => None,
        },
    }
}

proof fn lemma_each_call_none(vals: Seq<JsonV>, k: int)
    requires
        0 <= k <= vals.len(),
        each_call(vals.take(k)) is None,
    ensures
        each_call(vals) is None,
    decreases vals.len() - k,
{
    if k < vals.len() {
        assert(vals.take(k + 1).drop_last() =~= vals.take(k));
        lemma_each_call_none(vals, k + 1);
    } else {
        assert(vals.take(k) =~= vals);
    }
}

// ---------------------------------------------------------------------------
// Calls written as elements
// ---------------------------------------------------------------------------

pub open spec fn earlier(a: Option<int>, b: Option<int>) -> Option<int> {
    match (a, b) {
        (Some(x), Some(y)) => Some(
            if x <= y {
                x
            } else {
                y
            },
        ),
        (Some(x), None) => Some(x),
        (None, y) => y,
    }
}

pub open spec fn tag_end() -> Seq<char> {
    seq!['>']
}

/// The parameters of an element body from `from` on, each with both its tags.
pub open spec fn params_strict(
    body: Seq<char>,
    from: int,
    acc: Map<Seq<char>, JsonV>,
) -> Option<Map<Seq<char>, JsonV>>
    decreases body.len() - from,
{
    if from < 0 {
        None
    } else {
        match find_from(body, "<parameter="@, from) {
            None => Some(acc),
            Some(start) => {
                let name_at = start + "<parameter="@.len();
                proof {
                    lemma_find_from(body, "<parameter="@, from);
                    lemma_find_from(body, tag_end(), name_at);
                }
                match find_from(body, tag_end(), name_at) {
                    None => None,
                    Some(gt) => {
                        let key = trimmed(body.subrange(name_at, gt));
                        proof {
                            lemma_find_from(body, "</parameter>"@, gt + 1);
                        }
                        match find_from(body, "</parameter>"@, gt + 1) {
                            None => None,
                            Some(close) => if key.len() == 0 {
                                None
                            } else {
                                params_strict(
                                    body,
                                    close + "</parameter>"@.len(),
                                    acc.insert(
                                        key,
                                        param_value(trimmed(body.subrange(gt + 1, close))),
                                    ),
                                )
                            },
                        }
                    },
                }
            },
        }
    }
}

/// Where a parameter value without its closing tag ends: at the next tag of any
/// kind, else with the text.
pub open spec fn value_end(body: Seq<char>, from: int) -> int {
    match earlier(
        earlier(find_from(body, "<parameter="@, from), find_from(body, "</parameter>"@, from)),
        earlier(find_from(body, "<function="@, from), find_from(body, "</function>"@, from)),
    ) {
        Some(i) => i,
        None => body.len() as int,
    }
}

pub open spec fn past(s: Seq<char>, tag: Seq<char>, i: int) -> int {
    if at(s, tag, i) {
        i + tag.len()
    } else {
        i
    }
}

pub proof fn lemma_value_end(body: Seq<char>, from: int)
    requires
        0 <= from <= body.len(),
    ensures
        from <= value_end(body, from) <= body.len(),
{
    lemma_find_from(body, "<parameter="@, from);
    lemma_find_from(body, "</parameter>"@, from);
    lemma_find_from(body, "<function="@, from);
    lemma_find_from(body, "</function>"@, from);
}

/// The parameters of an element body from `from` on, closing tags optional. A
/// parameter without the end of its opening tag, or without a name, ends the list.
pub open spec fn params_lenient(
    body: Seq<char>,
    from: int,
    acc: Map<Seq<char>, JsonV>,
) -> Map<Seq<char>, JsonV>
    decreases body.len() - from,
{
    if from < 0 {
        acc
    } else {
        match find_from(body, "<parameter="@, from) {
            None => acc,
            Some(start) => {
                let name_at = start + "<parameter="@.len();
                proof {
                    lemma_find_from(body, "<parameter="@, from);
                    lemma_find_from(body, tag_end(), name_at);
                }
                match find_from(body, tag_end(), name_at) {
                    None => acc,
                    Some(gt) => {
                        let key = trimmed(body.subrange(name_at, gt));
                        let end = value_end(body, gt + 1);
                        proof {
                            lemma_value_end(body, gt + 1);
                        }
                        if key.len() == 0 {
                            acc
                        } else {
                            params_lenient(
                                body,
                                past(body, "</parameter>"@, end),
                                acc.insert(key, param_value(trimmed(body.subrange(gt + 1, end)))),
                            )
                        }
                    },
                }
            },
        }
    }
}

/// A name for a function element: not empty, and without the start of a tag.
pub open spec fn element_name(name: Seq<char>) -> bool {
    name.len() > 0 && !name.contains('<')
}

/// The function elements from `from` on, each with both its tags.
pub open spec fn functions_strict(s: Seq<char>, from: int, acc: Seq<CallV>) -> Option<Seq<CallV>>
    decreases s.len() - from,
{
    if from < 0 {
        None
    } else {
        match find_from(s, "<function="@, from) {
            None => Some(acc),
            Some(start) => {
                let name_at = start + "<function="@.len();
                proof {
                    lemma_find_from(s, "<function="@, from);
                    lemma_find_from(s, tag_end(), name_at);
                }
                match find_from(s, tag_end(), name_at) {
                    None => None,
                    Some(gt) => {
                        let name = trimmed(s.subrange(name_at, gt));
                        proof {
                            lemma_find_from(s, "</function>"@, gt + 1);
                        }
                        match find_from(s, "</function>"@, gt + 1) {
                            None => None,
                            Some(close) => match params_strict(
                                s.subrange(gt + 1, close),
                                0,
                                Map::empty(),
                            ) {
                                None => None,
                                Some(m) => if !element_name(name) {
                                    None
                                } else {
                                    functions_strict(
                                        s,
                                        close + "</function>"@.len(),
                                        acc.push(
                                            CallV { id: None, name, args: JsonV::Object(m) },
                                        ),
                                    )
                                },
                            },
                        }
                    },
                }
            },
        }
    }
}

/// Where a function body without its closing tag ends.
pub open spec fn body_end(s: Seq<char>, from: int) -> int {
    match earlier(find_from(s, "<function="@, from), find_from(s, "</function>"@, from)) {
        Some(i) => i,
        None => s.len() as int,
    }
}

pub proof fn lemma_body_end(s: Seq<char>, from: int)
    requires
        0 <= from <= s.len(),
    ensures
        from <= body_end(s, from) <= s.len(),
{
    lemma_find_from(s, "<function="@, from);
    lemma_find_from(s, "</function>"@, from);
}

/// The function elements from `from` on, closing tags optional. An element without
/// parameters is passed over.
pub open spec fn functions_lenient(s: Seq<char>, from: int, acc: Seq<CallV>) -> Option<Seq<CallV>>
    decreases s.len() - from,
{
    if from < 0 {
        None
    } else {
        match find_from(s, "<function="@, from) {
            None => Some(acc),
            Some(start) => {
                let name_at = start + "<function="@.len();
                proof {
                    lemma_find_from(s, "<function="@, from);
                    lemma_find_from(s, tag_end(), name_at);
                }
                match find_from(s, tag_end(), name_at) {
                    None => Some(acc),
                    Some(gt) => {
                        let name = trimmed(s.subrange(name_at, gt));
                        let end = body_end(s, gt + 1);
                        let m = params_lenient(s.subrange(gt + 1, end), 0, Map::empty());
                        proof {
                            lemma_body_end(s, gt + 1);
                        }
                        if !element_name(name) {
                            None
                        } else {
                            functions_lenient(
                                s,
                                past(s, "</function>"@, end),
                                if m =~= Map::empty() {
                                    acc
                                } else {
                                    acc.push(CallV { id: None, name, args: JsonV::Object(m) })
                                },
                            )
                        }
                    },
                }
            },
        }
    }
}

pub open spec fn some_calls(c: Option<Seq<CallV>>) -> Option<Seq<CallV>> {
    match c {
        Some(cs) => if cs.len() > 0 {
            Some(cs)
        } else {
            None
        },
        None => None,
    }
}

/// The calls that function elements write: by the strict reading where it gives
/// any, else by the lenient one.
pub open spec fn element_calls(s: Seq<char>) -> Option<Seq<CallV>> {
    match some_calls(functions_strict(s, 0, Seq::empty())) {
        Some(cs) => Some(cs),
        None => some_calls(functions_lenient(s, 0, Seq::empty())),
    }
}

/// The calls that the inside of a block writes.
pub open spec fn block_calls(inner: Seq<char>) -> Option<Seq<CallV>> {
    let t = trimmed(inner);
    let as_json = match parsed_json(t) {
        Some(v) => json_calls(v),
        None => None,
    };
    if t.len() == 0 {
        None
    } else if as_json is Some {
        as_json
    } else if holds(t, "<function="@) {
        element_calls(t)
    } else {
        None
    }
}

fn trimmed_part(cs: &Vec<char>, from: usize, to: usize) -> (r: String)
    requires
        from <= to <= cs@.len(),
    ensures
        r@ == trimmed(cs@.subrange(from as int, to as int)),
{
    let (a, b) = trim_bounds(cs, from, to);
    string_of(cs, a, b)
}

fn end_of_tag(cs: &Vec<char>, from: usize) -> (r: Option<usize>)
    ensures
        r is Some <==> find_from(cs@, tag_end(), from as int) is Some,
        r matches Some(i) ==> find_from(cs@, tag_end(), from as int) == Some(i as int) && from <= i
            < cs@.len(),
{
    let mut pat: Vec<char> = Vec::new();
    pat.push('>');
    assert(pat@ =~= tag_end());
    search(cs, &pat, from)
}

fn first_of(cs: &Vec<char>, tag: &str, from: usize) -> (r: Option<usize>)
    ensures
        r is Some <==> find_from(cs@, tag@, from as int) is Some,
        r matches Some(i) ==> find_from(cs@, tag@, from as int) == Some(i as int) && from <= i && i
            + tag@.len() <= cs@.len(),
{
    search(cs, &chars_of(tag), from)
}

fn earlier_of(a: Option<usize>, b: Option<usize>) -> (r: Option<usize>)
    ensures
        r is Some <==> a is Some || b is Some,
        a matches Some(x) ==> b matches Some(y) ==> r == Some(
            if x <= y {
                x
            } else {
                y
            },
        ),
        a is Some && b is None ==> r == a,
        a is None ==> r == b,
{
    match (a, b) {
        (Some(x), Some(y)) => if x <= y {
            Some(x)
        } else {
            Some(y)
        },
        (Some(x), None) => Some(x),
        (None, y) => y,
    }
}

fn past_tag(cs: &Vec<char>, tag: &str, i: usize) -> (r: usize)
    requires
        i <= cs@.len(),
    ensures
        r == past(cs@, tag@, i as int),
        i <= r <= cs@.len(),
{
    let pat = chars_of(tag);
    if stands_at(cs, &pat, i) {
        assert(i + pat@.len() <= cs.len());
        i + pat.len()
    } else {
        i
    }
}

/// The parameters of an element body, each with both its tags.
pub fn parse_parameters_strict(body: &Vec<char>) -> (r: Option<Json>)
    ensures
        r is Some <==> params_strict(body@, 0, Map::empty()) is Some,
        r matches Some(j) ==> params_strict(body@, 0, Map::empty()) is Some && j@ == JsonV::Object(
            params_strict(body@, 0, Map::empty())->0,
        ),
{
    let mut obj: Json = Json::object();
    let mut from: usize = 0;
    loop
        invariant
            from <= body@.len(),
            obj@ is Object,
            params_strict(body@, 0, Map::empty()) == params_strict(
                body@,
                from as int,
                fields_of(obj@),
            ),
        decreases body.len() - from,
    {
        let start: usize = match first_of(body, "<parameter=", from) {
            Some(i) => i,
            None => {
                return Some(obj);
            },
        };
        let name_at: usize = start + "<parameter=".unicode_len();
        let gt: usize = match end_of_tag(body, name_at) {
            Some(i) => i,
            None => {
                return None;
            },
        };
        let key = trimmed_part(body, name_at, gt);
        let close: usize = match first_of(body, "</parameter>", gt + 1) {
            Some(i) => i,
            None => {
                return None;
            },
        };
        if key.as_str().is_empty() {
            return None;
        }
        let raw = trimmed_part(body, gt + 1, close);
        obj.set(key.as_str(), coerce_param(raw.as_str()));
        from = close + "</parameter>".unicode_len();
    }
}

fn value_end_of(body: &Vec<char>, from: usize) -> (r: usize)
    requires
        from <= body@.len(),
    ensures
        r == value_end(body@, from as int),
        from <= r <= body@.len(),
{
    let a = earlier_of(first_of(body, "<parameter=", from), first_of(body, "</parameter>", from));
    let b = earlier_of(first_of(body, "<function=", from), first_of(body, "</function>", from));
    match earlier_of(a, b) {
        Some(i) => i,
        None => body.len(),
    }
}

/// The parameters of an element body, closing tags optional.
pub fn parse_parameters_lenient(body: &Vec<char>) -> (r: Json)
    ensures
        r@ == JsonV::Object(params_lenient(body@, 0, Map::empty())),
{
    let mut obj: Json = Json::object();
    let mut from: usize = 0;
    loop
        invariant
            from <= body@.len(),
            obj@ is Object,
            params_lenient(body@, 0, Map::empty()) == params_lenient(
                body@,
                from as int,
                fields_of(obj@),
            ),
        decreases body.len() - from,
    {
        let start: usize = match first_of(body, "<parameter=", from) {
            Some(i) => i,
            None => {
                return obj;
            },
        };
        let name_at: usize = start + "<parameter=".unicode_len();
        let gt: usize = match end_of_tag(body, name_at) {
            Some(i) => i,
            None => {
                return obj;
            },
        };
        let key = trimmed_part(body, name_at, gt);
        if key.as_str().is_empty() {
            return obj;
        }
        let end: usize = value_end_of(body, gt + 1);
        let raw = trimmed_part(body, gt + 1, end);
        obj.set(key.as_str(), coerce_param(raw.as_str()));
        from = past_tag(body, "</parameter>", end);
    }
}

fn part(cs: &Vec<char>, from: usize, to: usize) -> (r: Vec<char>)
    requires
        from <= to <= cs@.len(),
    ensures
        r@ == cs@.subrange(from as int, to as int),
{
    let mut out: Vec<char> = Vec::new();
    let mut i: usize = from;
    while i < to
        invariant
            from <= i <= to <= cs@.len(),
            out@ =~= cs@.subrange(from as int, i as int),
        decreases to - i,
    {
        out.push(cs[i]);
        i = i + 1;
    }
    out
}

fn is_element_name(name: &str) -> (r: bool)
    ensures
        r == element_name(name@),
{
    let cs = chars_of(name);
    let mut i: usize = 0;
    while i < cs.len()
        invariant
            i <= cs@.len(),
            cs@ == name@,
            forall|j: int| 0 <= j < i ==> cs@[j] != '<',
        decreases cs.len() - i,
    {
        if cs[i] == '<' {
            assert(name@[i as int] == '<');
            return false;
        }
        i = i + 1;
    }
    cs.len() > 0
}

fn has_fields(j: &Json) -> (r: bool)
    requires
        j@ is Object,
    ensures
        r == !(j@->Object_0 =~= Map::empty()),
{
    match j {
        Json::Object(v) => {
            if v.len() > 0 {
                proof {
                    crate::json::lemma_fields_dom(v@, v@[0].0@);
                    assert(crate::json::fields_view(v@).contains_key(v@[0].0@));
                }
                true
            } else {
                assert(crate::json::fields_view(v@) =~= Map::empty());
                false
            }
        },
        _ => false,
    }
}

/// The calls of the function elements, each with both its tags.
pub fn parse_function_tools_strict(s: &Vec<char>) -> (r: Option<Vec<Draft>>)
    ensures
        r is Some <==> some_calls(functions_strict(s@, 0, Seq::empty())) is Some,
        r matches Some(ds) ==> some_calls(functions_strict(s@, 0, Seq::empty())) == Some(
            drafts_view(ds@),
        ),
{
    let mut out: Vec<Draft> = Vec::new();
    let mut from: usize = 0;
    assert(drafts_view(out@) =~= Seq::empty());
    loop
        invariant
            from <= s@.len(),
            functions_strict(s@, 0, Seq::empty()) == functions_strict(
                s@,
                from as int,
                drafts_view(out@),
            ),
        decreases s.len() - from,
    {
        let start: usize = match first_of(s, "<function=", from) {
            Some(i) => i,
            None => {
                if out.len() == 0 {
                    return None;
                }
                return Some(out);
            },
        };
        let name_at: usize = start + "<function=".unicode_len();
        let gt: usize = match end_of_tag(s, name_at) {
            Some(i) => i,
            None => {
                return None;
            },
        };
        let name = trimmed_part(s, name_at, gt);
        if !is_element_name(name.as_str()) {
            return None;
        }
        let close: usize = match first_of(s, "</function>", gt + 1) {
            Some(i) => i,
            None => {
                return None;
            },
        };
        let body = part(s, gt + 1, close);
        let arguments: Json = match parse_parameters_strict(&body) {
            Some(j) => j,
            None => {
                return None;
            },
        };
        let ghost before = out@;
        let d = Draft { id: None, name, arguments };
        out.push(d);
        assert(drafts_view(out@) =~= drafts_view(before).push(d@));
        from = close + "</function>".unicode_len();
    }
}

/// The calls of the function elements, closing tags optional.
pub fn parse_function_tools_lenient(s: &Vec<char>) -> (r: Option<Vec<Draft>>)
    ensures
        r is Some <==> some_calls(functions_lenient(s@, 0, Seq::empty())) is Some,
        r matches Some(ds) ==> some_calls(functions_lenient(s@, 0, Seq::empty())) == Some(
            drafts_view(ds@),
        ),
{
    let mut out: Vec<Draft> = Vec::new();
    let mut from: usize = 0;
    assert(drafts_view(out@) =~= Seq::empty());
    loop
        invariant
            from <= s@.len(),
            functions_lenient(s@, 0, Seq::empty()) == functions_lenient(
                s@,
                from as int,
                drafts_view(out@),
            ),
        decreases s.len() - from,
    {
        let found = match first_of(s, "<function=", from) {
            Some(i) => {
                let name_at: usize = i + "<function=".unicode_len();
                match end_of_tag(s, name_at) {
                    Some(gt) => Some((name_at, gt)),
                    None => None,
                }
            },
            None => None,
        };
        let (name_at, gt) = match found {
            Some(p) => p,
            None => {
                if out.len() == 0 {
                    return None;
                }
                return Some(out);
            },
        };
        let name = trimmed_part(s, name_at, gt);
        if !is_element_name(name.as_str()) {
            return None;
        }
        let end: usize = match earlier_of(
            first_of(s, "<function=", gt + 1),
            first_of(s, "</function>", gt + 1),
        ) {
            Some(i) => i,
            None => s.len(),
        };
        let body = part(s, gt + 1, end);
        let arguments: Json = parse_parameters_lenient(&body);
        from = past_tag(s, "</function>", end);
        if has_fields(&arguments) {
            let ghost before = out@;
            let d = Draft { id: None, name, arguments };
            out.push(d);
            assert(drafts_view(out@) =~= drafts_view(before).push(d@));
        }
    }
}

/// The calls that the inside of a block writes.
pub fn parse_tool_inner(inner: &str) -> (r: Option<Vec<Draft>>)
    ensures
        r is Some <==> block_calls(inner@) is Some,
        r matches Some(ds) ==> block_calls(inner@) == Some(drafts_view(ds@)),
{
    let t = trim(inner);
    if t.as_str().is_empty() {
        return None;
    }
    if let Some(v) = parse_json(t.as_str()) {
        if let Some(ds) = calls_of_json(&v) {
            return Some(ds);
        }
    }
    if !contains(t.as_str(), "<function=") {
        return None;
    }
    let cs = chars_of(t.as_str());
    match parse_function_tools_strict(&cs) {
        Some(ds) => Some(ds),
        None => parse_function_tools_lenient(&cs),
    }
}

// ---------------------------------------------------------------------------
// Blocks
// ---------------------------------------------------------------------------

/// A stretch of a text, by character index.
#[derive(Debug, Clone, Copy, PartialEq, Eq)]
pub struct Span {
    pub start: usize,
    pub end: usize,
}

/// Whether the end of a text, read from `i` on, stands inside a code fence or an
/// inline code span.
pub open spec fn code_open(s: Seq<char>, i: int, fence: bool, inline: bool) -> bool
    decreases s.len() - i,
{
    if i < 0 || i >= s.len() {
        fence || inline
    } else if !inline && i + 2 < s.len() && s[i] == '`' && s[i + 1] == '`' && s[i + 2] == '`' {
        code_open(s, i + 3, !fence, inline)
    } else if !fence && s[i] == '`' {
        code_open(s, i + 1, fence, !inline)
    } else {
        code_open(s, i + 1, fence, inline)
    }
}

/// Whether index `i` of a text stands inside markdown code.
pub open spec fn in_code(s: Seq<char>, i: int) -> bool {
    code_open(s.take(i), 0, false, false)
}

/// What the blocks of a text hold.
pub ghost struct BlocksV {
    pub calls: Seq<CallV>,
    pub unclosed: bool,
    pub malformed: bool,
    pub spans: Seq<(int, int)>,
}

pub open spec fn no_blocks() -> BlocksV {
    BlocksV { calls: Seq::empty(), unclosed: false, malformed: false, spans: Seq::empty() }
}

/// The first opening tag from `from` on, and whether it is the plural one.
pub open spec fn next_open(s: Seq<char>, from: int) -> Option<(int, bool)> {
    match (find_from(s, "<tool_call>"@, from), find_from(s, "<tool_calls>"@, from)) {
        (Some(a), Some(b)) => if a <= b {
            Some((a, false))
        } else {
            Some((b, true))
        },
        (Some(a), None) => Some((a, false)),
        (None, Some(b)) => Some((b, true)),
        (None, None) => None,
    }
}

/// The end of what a plural opening tag encloses: its closing tag, where no single
/// block opens before it.
pub open spec fn plural_close(s: Seq<char>, from: int) -> Option<int> {
    match find_from(s, "</tool_calls>"@, from) {
        None => None,
        Some(e) => match find_from(s, "<tool_call>"@, from) {
            Some(b) => if b < e {
                None
            } else {
                Some(e)
            },
            None => Some(e),
        },
    }
}

/// One more complete block.
pub open spec fn with_block(x: BlocksV, inner: Seq<char>, start: int, end: int) -> BlocksV {
    match block_calls(inner) {
        Some(cs) => BlocksV { calls: x.calls + cs, spans: x.spans.push((start, end)), ..x },
        None => BlocksV { malformed: true, spans: x.spans.push((start, end)), ..x },
    }
}

/// The blocks of a text from `from` on. Tags inside markdown code are citations, a
/// block that never closes runs to the end.
pub open spec fn blocks(s: Seq<char>, from: int, x: BlocksV) -> BlocksV
    decreases s.len() - from,
{
    if from < 0 {
        x
    } else {
        proof {
            lemma_next_open(s, from);
        }
        match next_open(s, from) {
            None => x,
            Some((start, plural)) => {
                let inner_at = start + if plural {
                    "<tool_calls>"@.len()
                } else {
                    "<tool_call>"@.len()
                };
                if in_code(s, start) {
                    blocks(s, inner_at, x)
                } else if plural {
                    proof {
                        lemma_find_from(s, "</tool_calls>"@, inner_at);
                    }
                    match plural_close(s, inner_at) {
                        None => blocks(s, inner_at, x),
                        Some(e) => blocks(
                            s,
                            e + "</tool_calls>"@.len(),
                            with_block(
                                x,
                                trimmed(s.subrange(inner_at, e)),
                                start,
                                e + "</tool_calls>"@.len(),
                            ),
                        ),
                    }
                } else {
                    proof {
                        lemma_find_from(s, "</tool_call>"@, inner_at);
                    }
                    match find_from(s, "</tool_call>"@, inner_at) {
                        None => BlocksV {
                            unclosed: true,
                            spans: x.spans.push((start, s.len() as int)),
                            ..x
                        },
                        Some(e) => blocks(
                            s,
                            e + "</tool_call>"@.len(),
                            with_block(
                                x,
                                trimmed(s.subrange(inner_at, e)),
                                start,
                                e + "</tool_call>"@.len(),
                            ),
                        ),
                    }
                }
            },
        }
    }
}

pub proof fn lemma_next_open(s: Seq<char>, from: int)
    requires
        0 <= from,
    ensures
        "<tool_call>"@.len() == 11,
        "<tool_calls>"@.len() == 12,
        next_open(s, from) matches Some((i, p)) ==> from <= i && i + (if p {
            12int
        } else {
            11int
        }) <= s.len(),
{
    reveal_strlit("<tool_call>");
    reveal_strlit("<tool_calls>");
    lemma_find_from(s, "<tool_call>"@, from);
    lemma_find_from(s, "<tool_calls>"@, from);
}

/// The blocks of a text.
pub open spec fn extracted(s: Seq<char>) -> BlocksV {
    blocks(s, 0, no_blocks())
}

fn is_in_code(s: &Vec<char>, end: usize) -> (r: bool)
    requires
        end <= s@.len(),
    ensures
        r == in_code(s@, end as int),
{
    let ghost t = s@.take(end as int);
    let mut i: usize = 0;
    let mut fence: bool = false;
    let mut inline: bool = false;
    while i < end
        invariant
            i <= end <= s.len(),
            t == s@.take(end as int),
            in_code(s@, end as int) == code_open(t, i as int, fence, inline),
        decreases end - i,
    {
        if !inline && end - i > 2 && s[i] == '`' && s[i + 1] == '`' && s[i + 2] == '`' {
            fence = !fence;
            i = i + 3;
        } else {
            if !fence && s[i] == '`' {
                inline = !inline;
            }
            i = i + 1;
        }
    }
    fence || inline
}

/// The blocks of a text, before their calls have identifiers.
#[derive(Debug, PartialEq, Eq)]
pub struct XmlDrafts {
    pub calls: Vec<Draft>,
    pub unclosed: bool,
    pub malformed: bool,
    pub ranges: Vec<Span>,
}

pub open spec fn spans_view(v: Seq<Span>) -> Seq<(int, int)> {
    v.map_values(|s: Span| (s.start as int, s.end as int))
}

impl View for XmlDrafts {
    type V = BlocksV;

    open spec fn view(&self) -> BlocksV {
        BlocksV {
            calls: drafts_view(self.calls@),
            unclosed: self.unclosed,
            malformed: self.malformed,
            spans: spans_view(self.ranges@),
        }
    }
}

impl XmlDrafts {
    fn add_block(&mut self, inner: &str, start: usize, end: usize)
        ensures
            final(self)@ == with_block(old(self)@, inner@, start as int, end as int),
    {
        let ghost before = self@;
        let ghost spans = self.ranges@;
        self.ranges.push(Span { start, end });
        assert(spans_view(self.ranges@) =~= spans_view(spans).push((start as int, end as int)));
        match parse_tool_inner(inner) {
            Some(mut ds) => {
                let ghost had = self.calls@;
                let ghost more = ds@;
                self.calls.append(&mut ds);
                assert(drafts_view(self.calls@) =~= drafts_view(had) + drafts_view(more));
            },
            None => {
                self.malformed = true;
            },
        }
    }
}

/// The blocks of a text, before their calls have identifiers.
pub fn read_blocks(content: &str) -> (r: XmlDrafts)
    ensures
        r@ == extracted(content@),
{
    let s = chars_of(content);
    let mut out = XmlDrafts {
        calls: Vec::new(),
        unclosed: false,
        malformed: false,
        ranges: Vec::new(),
    };
    assert(drafts_view(out.calls@) =~= Seq::empty());
    assert(spans_view(out.ranges@) =~= Seq::empty());
    let mut from: usize = 0;
    loop
        invariant
            from <= s@.len(),
            extracted(s@) == blocks(s@, from as int, out@),
            s@ == content@,
        decreases s.len() - from,
    {
        proof {
            lemma_next_open(s@, from as int);
        }
        let single = first_of(&s, "<tool_call>", from);
        let several = first_of(&s, "<tool_calls>", from);
        let (start, plural) = match (single, several) {
            (Some(a), Some(b)) => if a <= b {
                (a, false)
            } else {
                (b, true)
            },
            (Some(a), None) => (a, false),
            (None, Some(b)) => (b, true),
            (None, None) => {
                return out;
            },
        };
        assert(next_open(s@, from as int) == Some((start as int, plural)));
        if plural {
            let inner_at: usize = start + "<tool_calls>".unicode_len();
            if is_in_code(&s, start) {
                from = inner_at;
                continue;
            }
            let close: Option<usize> = match first_of(&s, "</tool_calls>", inner_at) {
                None => None,
                Some(e) => match first_of(&s, "<tool_call>", inner_at) {
                    Some(b) => if b < e {
                        None
                    } else {
                        Some(e)
                    },
                    None => Some(e),
                },
            };
            match close {
                None => {
                    from = inner_at;
                },
                Some(e) => {
                    let inner = trimmed_part(&s, inner_at, e);
                    let end: usize = e + "</tool_calls>".unicode_len();
                    out.add_block(inner.as_str(), start, end);
                    from = end;
                },
            }
        } else {
            let inner_at: usize = start + "<tool_call>".unicode_len();
            if is_in_code(&s, start) {
                from = inner_at;
                continue;
            }
            match first_of(&s, "</tool_call>", inner_at) {
                None => {
                    let ghost spans = out.ranges@;
                    out.unclosed = true;
                    out.ranges.push(Span { start, end: s.len() });
                    assert(spans_view(out.ranges@) =~= spans_view(spans).push(
                        (start as int, s@.len() as int),
                    ));
                    return out;
                },
                Some(e) => {
                    let inner = trimmed_part(&s, inner_at, e);
                    let end: usize = e + "</tool_call>".unicode_len();
                    out.add_block(inner.as_str(), start, end);
                    from = end;
                },
            }
        }
    }
}

// ---------------------------------------------------------------------------
// Calls with identifiers
// ---------------------------------------------------------------------------

/// The same calls, with an identifier where one was missing.
pub open spec fn completed(calls: Seq<ToolCall>, drafts: Seq<CallV>) -> bool {
    calls.len() == drafts.len() && forall|i: int|
        0 <= i < drafts.len() ==> {
            &&& (#[trigger] calls[i]).name@ == drafts[i].name
            &&& calls[i].arguments@ == drafts[i].args
            &&& drafts[i].id is Some ==> calls[i].id@ == drafts[i].id->0
            &&& drafts[i].id is None ==> drawn_text(calls[i].id@)
        }
}

/// A call, under `fresh` where it has no identifier of its own.
pub fn with_id(d: Draft, fresh: String) -> (r: ToolCall)
    ensures
        r.id@ == (match opt_text(d.id) {
            Some(id) => id,
            None => fresh@,
        }),
        r.name@ == d.name@,
        r.arguments@ == d.arguments@,
{
    let id: String = match d.id {
        Some(s) => s,
        None => fresh,
    };
    ToolCall { id, name: d.name, arguments: d.arguments }
}

/// Gives each call that has no identifier a random one.
pub fn with_ids(drafts: Vec<Draft>) -> (r: Vec<ToolCall>)
    ensures
        completed(r@, drafts_view(drafts@)),
{
    let mut rest = drafts;
    let ghost all = drafts@;
    let mut out: Vec<ToolCall> = Vec::new();
    let n: usize = rest.len();
    let mut i: usize = 0;
    while i < n
        invariant
            i <= n == all.len(),
            rest@ == all.skip(i as int),
            completed(out@, drafts_view(all.take(i as int))),
        decreases n - i,
    {
        let d = rest.remove(0);
        assert(d == all[i as int]);
        assert(rest@ =~= all.skip(i + 1));
        let ghost before = out@;
        let call = with_id(d, random_id());
        out.push(call);
        assert(completed(out@, drafts_view(all.take(i + 1)))) by {
            let ds = drafts_view(all.take(i + 1));
            assert forall|k: int| 0 <= k < ds.len() implies {
                &&& (#[trigger] out@[k]).name@ == ds[k].name
                &&& out@[k].arguments@ == ds[k].args
                &&& ds[k].id is Some ==> out@[k].id@ == ds[k].id->0
                &&& ds[k].id is None ==> drawn_text(out@[k].id@)
            } by {
                if k < i {
                    assert(out@[k] == before[k]);
                    assert(ds[k] == drafts_view(all.take(i as int))[k]);
                } else {
                    assert(ds[k] == all[i as int]@);
                }
            }
        }
        i = i + 1;
    }
    assert(all.take(i as int) =~= all);
    out
}

/// The tool calls written into a text.
#[derive(Debug, PartialEq, Eq)]
pub struct XmlExtract {
    pub calls: Vec<ToolCall>,
    /// A block was opened but never closed.
    pub unclosed: bool,
    /// A complete block wrote no call.
    pub malformed: bool,
    pub ranges: Vec<Span>,
}

impl XmlExtract {
    /// Whether the text holds a block at all.
    pub fn had_tag(&self) -> (r: bool)
        ensures
            r == (self.ranges@.len() > 0),
    {
        self.ranges.len() > 0
    }

    /// Whether the blocks cannot be acted on. A text that was cut off while it
    /// streamed is no failure.
    pub fn parse_fail(&self, truncated: bool) -> (r: bool)
        ensures
            r == (!truncated && (self.unclosed || self.malformed)),
    {
        if truncated {
            return false;
        }
        self.unclosed || self.malformed
    }
}

/// `x` holds what the blocks of `s` write.
pub open spec fn extract_of(x: XmlExtract, s: Seq<char>) -> bool {
    let b = extracted(s);
    &&& completed(x.calls@, b.calls)
    &&& x.unclosed == b.unclosed
    &&& x.malformed == b.malformed
    &&& spans_view(x.ranges@) == b.spans
}

/// The tool calls written into a text.
pub fn extract_xml_tools(content: &str) -> (r: XmlExtract)
    ensures
        extract_of(r, content@),
{
    let x = read_blocks(content);
    XmlExtract {
        calls: with_ids(x.calls),
        unclosed: x.unclosed,
        malformed: x.malformed,
        ranges: x.ranges,
    }
}

/// What stands before the first block, the whole text where there is none.
pub open spec fn before_first(s: Seq<char>, spans: Seq<(int, int)>) -> Seq<char> {
    if spans.len() > 0 && 0 <= spans[0].0 <= s.len() {
        trimmed(s.take(spans[0].0))
    } else {
        trimmed(s)
    }
}

/// What stands before the first block, the whole text where there is none.
pub fn text_before_first(content: &str, ranges: &Vec<Span>) -> (r: String)
    ensures
        r@ == before_first(content@, spans_view(ranges@)),
{
    let n: usize = content.unicode_len();
    if ranges.len() > 0 && ranges[0].start <= n {
        let head = content.substring_char(0, ranges[0].start);
        assert(head@ =~= content@.take(spans_view(ranges@)[0].0));
        trim(head)
    } else {
        trim(content)
    }
}

// ---------------------------------------------------------------------------
// Laws
// ---------------------------------------------------------------------------

/// Spans that follow one another inside a text.
pub open spec fn in_order(spans: Seq<(int, int)>, len: int) -> bool {
    &&& forall|i: int| 0 <= i < spans.len() ==> 0 <= (#[trigger] spans[i]).0 < spans[i].1 <= len
    &&& forall|i: int, j: int| 0 <= i < j < spans.len() ==> spans[i].1 <= (#[trigger] spans[j]).0
        && #[trigger] spans[i].0 < spans[j].0
}

/// Spans that begin outside markdown code.
pub open spec fn outside_code(s: Seq<char>, spans: Seq<(int, int)>) -> bool {
    forall|i: int| 0 <= i < spans.len() ==> !in_code(s, (#[trigger] spans[i]).0)
}

proof fn lemma_blocks_in_order(s: Seq<char>, from: int, x: BlocksV)
    requires
        outside_code(s, x.spans),
        0 <= from <= s.len(),
        in_order(x.spans, s.len() as int),
        x.spans.len() > 0 ==> x.spans.last().1 <= from,
        x.calls.len() > 0 || x.malformed || x.unclosed ==> x.spans.len() > 0,
    ensures
        in_order(blocks(s, from, x).spans, s.len() as int),
        outside_code(s, blocks(s, from, x).spans),
        ({
            let y = blocks(s, from, x);
            y.calls.len() > 0 || y.malformed || y.unclosed ==> y.spans.len() > 0
        }),
    decreases s.len() - from,
{
    lemma_next_open(s, from);
    if let Some((start, plural)) = next_open(s, from) {
        let inner_at = start + if plural {
            "<tool_calls>"@.len()
        } else {
            "<tool_call>"@.len()
        };
        if in_code(s, start) {
            lemma_blocks_in_order(s, inner_at, x);
        } else if plural {
            lemma_find_from(s, "</tool_calls>"@, inner_at);
            match plural_close(s, inner_at) {
                None => lemma_blocks_in_order(s, inner_at, x),
                Some(e) => {
                    let end = e + "</tool_calls>"@.len();
                    lemma_blocks_in_order(
                        s,
                        end,
                        with_block(x, trimmed(s.subrange(inner_at, e)), start, end),
                    );
                },
            }
        } else {
            lemma_find_from(s, "</tool_call>"@, inner_at);
            match find_from(s, "</tool_call>"@, inner_at) {
                None => {},
                Some(e) => {
                    let end = e + "</tool_call>"@.len();
                    lemma_blocks_in_order(
                        s,
                        end,
                        with_block(x, trimmed(s.subrange(inner_at, e)), start, end),
                    );
                },
            }
        }
    }
}

/// The blocks of a text follow one another inside it, and whatever is found was
/// found in a block.
pub proof fn law_blocks_in_order(s: Seq<char>)
    ensures
        in_order(extracted(s).spans, s.len() as int),
        extracted(s).calls.len() > 0 || extracted(s).malformed || extracted(s).unclosed
            ==> extracted(s).spans.len() > 0,
{
    lemma_blocks_in_order(s, 0, no_blocks());
}

/// A tag that is only cited in markdown code opens no block.
pub proof fn law_cited_tags_open_no_block(s: Seq<char>)
    ensures
        outside_code(s, extracted(s).spans),
{
    lemma_blocks_in_order(s, 0, no_blocks());
}

/// A text without either opening tag holds no block.
pub proof fn law_no_tag_no_block(s: Seq<char>)
    requires
        !holds(s, "<tool_call>"@),
        !holds(s, "<tool_calls>"@),
    ensures
        extracted(s) == no_blocks(),
{
    lemma_find_from(s, "<tool_call>"@, 0);
    lemma_find_from(s, "<tool_calls>"@, 0);
}

/// A parameter as an element.
pub open spec fn parameter_element(name: Seq<char>, value: Seq<char>) -> Seq<char> {
    "<parameter="@ + name + seq!['>'] + value + "</parameter>"@
}

/// A function as an element.
pub open spec fn function_element(name: Seq<char>, body: Seq<char>) -> Seq<char> {
    "<function="@ + name + seq!['>'] + body + "</function>"@
}

proof fn lemma_tags()
    ensures
        "<parameter="@.len() == 11 && "</parameter>"@.len() == 12,
        "<function="@.len() == 10 && "</function>"@.len() == 11,
        "<parameter="@[0] == '<' && !"<parameter="@.skip(1).contains('<'),
        "</parameter>"@[0] == '<' && !"</parameter>"@.skip(1).contains('<'),
        "<function="@[0] == '<' && !"<function="@.skip(1).contains('<'),
        "</function>"@[0] == '<' && !"</function>"@.skip(1).contains('<'),
        "<parameter="@[1] == 'p' && "</parameter>"@[1] == '/',
        "<function="@[1] == 'f' && "</function>"@[1] == '/' && "</function>"@[2] == 'f'
            && "</parameter>"@[2] == 'p',
{
    reveal_strlit("<parameter=");
    reveal_strlit("</parameter>");
    reveal_strlit("<function=");
    reveal_strlit("</function>");
}

proof fn lemma_strict_behind(
    a: Seq<char>,
    b: Seq<char>,
    from: int,
    acc: Map<Seq<char>, JsonV>,
)
    requires
        0 <= from,
    ensures
        params_strict(a + b, a.len() + from, acc) == params_strict(b, from, acc),
    decreases b.len() - from,
{
    lemma_tags();
    let s = a + b;
    let n = a.len() as int;
    lemma_find_behind(a, b, "<parameter="@, from);
    lemma_find_from(b, "<parameter="@, from);
    if let Some(start) = find_from(b, "<parameter="@, from) {
        let name_at = start + 11;
        lemma_find_behind(a, b, tag_end(), name_at);
        lemma_find_from(b, tag_end(), name_at);
        if let Some(gt) = find_from(b, tag_end(), name_at) {
            lemma_find_behind(a, b, "</parameter>"@, gt + 1);
            lemma_find_from(b, "</parameter>"@, gt + 1);
            assert(s.subrange(n + name_at, n + gt) =~= b.subrange(name_at, gt));
            if let Some(close) = find_from(b, "</parameter>"@, gt + 1) {
                assert(s.subrange(n + gt + 1, n + close) =~= b.subrange(gt + 1, close));
                let key = trimmed(b.subrange(name_at, gt));
                let more = acc.insert(key, param_value(trimmed(b.subrange(gt + 1, close))));
                lemma_strict_behind(a, b, close + 12, more);
            }
        }
    }
}

/// The body of a call is read element by element: the first parameter is bound to its
/// value, and all that follow it are read too.
pub proof fn law_every_parameter_is_read(
    space: Seq<char>,
    name: Seq<char>,
    value: Seq<char>,
    rest: Seq<char>,
    acc: Map<Seq<char>, JsonV>,
)
    requires
        !space.contains('<'),
        !name.contains('>'),
        trimmed(name).len() > 0,
        !holds(value, "</parameter>"@),
    ensures
        params_strict(space + parameter_element(name, value) + rest, 0, acc) == params_strict(
            rest,
            0,
            acc.insert(trimmed(name), param_value(trimmed(value))),
        ),
        params_strict(space, 0, acc) == Some(acc),
{
    lemma_tags();
    let open = "<parameter="@;
    let close = "</parameter>"@;
    let el = parameter_element(name, value);
    let s = space + el + rest;
    let n = space.len() as int;
    let tail = name + seq!['>'] + value + close + rest;
    assert(s =~= space + (open + tail));
    lemma_find_past(space, open + tail, open, 0);
    lemma_find_behind(space, open + tail, open, 0);
    assert((open + tail).subrange(0, 11) =~= open);
    assert(at(open + tail, open, 0));
    assert(find_from(open + tail, open, 0) == Some(0int));
    assert(find_from(s, open, 0) == Some(n));
    let name_at = n + 11;
    let front = space + open;
    let after = seq!['>'] + value + close + rest;
    assert(s =~= front + (name + after));
    lemma_find_behind(front, name + after, tag_end(), 0);
    lemma_find_past(name, after, tag_end(), 0);
    lemma_find_behind(name, after, tag_end(), 0);
    assert(after.subrange(0, 1) =~= tag_end());
    assert(at(after, tag_end(), 0));
    assert(find_from(after, tag_end(), 0) == Some(0int));
    let gt = name_at + name.len();
    assert(find_from(s, tag_end(), name_at) == Some(gt as int));
    assert(s.subrange(name_at, gt as int) =~= name);
    let head = front + name + seq!['>'];
    assert(s =~= head + (value + close + rest));
    lemma_find_behind(head, value + close + rest, close, 0);
    lemma_find_tag(value, close, rest);
    let end = gt + 1 + value.len();
    assert(find_from(s, close, gt + 1) == Some(end as int));
    assert(s.subrange(gt + 1, end as int) =~= value);
    let more = acc.insert(trimmed(name), param_value(trimmed(value)));
    assert(s =~= (space + el) + rest);
    assert((space + el).len() == end + 12);
    lemma_strict_behind(space + el, rest, 0, more);
    lemma_find_from(space, open, 0);
    if let Some(i) = find_from(space, open, 0) {
        assert(space.subrange(i, i + 11)[0] == space[i]);
        assert(space.contains(space[i]));
    }
}

/// The elements of a list of parameters, one after the other.
pub open spec fn parameter_elements(ps: Seq<(Seq<char>, Seq<char>)>) -> Seq<char>
    decreases ps.len(),
{
    if ps.len() == 0 {
        Seq::empty()
    } else {
        parameter_element(ps[0].0, ps[0].1) + parameter_elements(ps.skip(1))
    }
}

/// A body of parameters, each under a name of its own, reads as an object with exactly
/// those names, each bound to its own value.
pub proof fn law_parameters_read_back(
    ps: Seq<(Seq<char>, Seq<char>)>,
    acc: Map<Seq<char>, JsonV>,
)
    requires
        forall|i: int|
            0 <= i < ps.len() ==> {
                &&& !(#[trigger] ps[i]).0.contains('>')
                &&& trimmed(ps[i].0).len() > 0
                &&& !holds(ps[i].1, "</parameter>"@)
            },
        forall|i: int, j: int|
            0 <= i < j < ps.len() ==> trimmed((#[trigger] ps[i]).0) != trimmed(
                (#[trigger] ps[j]).0,
            ),
    ensures
        ({
            let r = params_strict(parameter_elements(ps), 0, acc);
            &&& r is Some
            &&& forall|i: int|
                0 <= i < ps.len() ==> r->0.contains_key(trimmed((#[trigger] ps[i]).0))
                    && r->0[trimmed(ps[i].0)] == param_value(trimmed(ps[i].1))
            &&& forall|k: Seq<char>| #[trigger]
                r->0.contains_key(k) ==> acc.contains_key(k) || exists|i: int|
                    0 <= i < ps.len() && trimmed((#[trigger] ps[i]).0) == k
            &&& forall|k: Seq<char>|
                acc.contains_key(k) && !(exists|i: int|
                    0 <= i < ps.len() && trimmed((#[trigger] ps[i]).0) == k) ==> (
                #[trigger] r->0.contains_key(k)) && r->0[k] == acc[k]
        }),
    decreases ps.len(),
{
    let e = Seq::<char>::empty();
    let r = params_strict(parameter_elements(ps), 0, acc);
    lemma_tags();
    if ps.len() == 0 {
        assert(find_from(e, "<parameter="@, 0) is None);
        assert(r == Some(acc));
    } else {
        let rest = ps.skip(1);
        let key = trimmed(ps[0].0);
        let more = acc.insert(key, param_value(trimmed(ps[0].1)));
        assert(e + parameter_element(ps[0].0, ps[0].1) + parameter_elements(rest)
            =~= parameter_elements(ps));
        law_every_parameter_is_read(e, ps[0].0, ps[0].1, parameter_elements(rest), acc);
        assert forall|i: int| 0 <= i < rest.len() implies {
            &&& !(#[trigger] rest[i]).0.contains('>')
            &&& trimmed(rest[i].0).len() > 0
            &&& !holds(rest[i].1, "</parameter>"@)
        } by {
            assert(rest[i] == ps[i + 1]);
        }
        assert forall|i: int, j: int| 0 <= i < j < rest.len() implies trimmed(
            (#[trigger] rest[i]).0,
        ) != trimmed((#[trigger] rest[j]).0) by {
            assert(rest[i] == ps[i + 1] && rest[j] == ps[j + 1]);
        }
        law_parameters_read_back(rest, more);
        assert forall|i: int| 0 <= i < ps.len() implies r->0.contains_key(
            trimmed((#[trigger] ps[i]).0),
        ) && r->0[trimmed(ps[i].0)] == param_value(trimmed(ps[i].1)) by {
            if i > 0 {
                assert(rest[i - 1] == ps[i]);
            } else {
                assert(more.contains_key(key));
                if exists|j: int| 0 <= j < rest.len() && trimmed((#[trigger] rest[j]).0) == key {
                    let j = choose|j: int|
                        0 <= j < rest.len() && trimmed((#[trigger] rest[j]).0) == key;
                    assert(rest[j] == ps[j + 1]);
                }
                assert(r->0.contains_key(key));
            }
        }
        assert forall|k: Seq<char>| #[trigger] r->0.contains_key(k) implies acc.contains_key(k)
            || exists|i: int| 0 <= i < ps.len() && trimmed((#[trigger] ps[i]).0) == k by {
            if more.contains_key(k) {
                if k == key {
                    assert(trimmed(ps[0].0) == k);
                }
            } else {
                let j = choose|j: int|
                    0 <= j < rest.len() && trimmed((#[trigger] rest[j]).0) == k;
                assert(rest[j] == ps[j + 1]);
            }
        }
        assert forall|k: Seq<char>|
            acc.contains_key(k) && !(exists|i: int|
                0 <= i < ps.len() && trimmed((#[trigger] ps[i]).0) == k) implies (
        #[trigger] r->0.contains_key(k)) && r->0[k] == acc[k] by {
            assert(trimmed(ps[0].0) != k);
            assert(more.contains_key(k) && more[k] == acc[k]);
            if exists|j: int| 0 <= j < rest.len() && trimmed((#[trigger] rest[j]).0) == k {
                let j = choose|j: int|
                    0 <= j < rest.len() && trimmed((#[trigger] rest[j]).0) == k;
                assert(rest[j] == ps[j + 1]);
            }
        }
    }
}

proof fn lemma_functions_behind(a: Seq<char>, b: Seq<char>, from: int, acc: Seq<CallV>)
    requires
        0 <= from,
    ensures
        functions_strict(a + b, a.len() + from, acc) == functions_strict(b, from, acc),
    decreases b.len() - from,
{
    lemma_tags();
    let s = a + b;
    let n = a.len() as int;
    lemma_find_behind(a, b, "<function="@, from);
    lemma_find_from(b, "<function="@, from);
    if let Some(start) = find_from(b, "<function="@, from) {
        let name_at = start + 10;
        lemma_find_behind(a, b, tag_end(), name_at);
        lemma_find_from(b, tag_end(), name_at);
        if let Some(gt) = find_from(b, tag_end(), name_at) {
            lemma_find_behind(a, b, "</function>"@, gt + 1);
            lemma_find_from(b, "</function>"@, gt + 1);
            assert(s.subrange(n + name_at, n + gt) =~= b.subrange(name_at, gt));
            if let Some(close) = find_from(b, "</function>"@, gt + 1) {
                let body = b.subrange(gt + 1, close);
                assert(s.subrange(n + gt + 1, n + close) =~= body);
                let name = trimmed(b.subrange(name_at, gt));
                if let Some(m) = params_strict(body, 0, Map::empty()) {
                    let more = acc.push(CallV { id: None, name, args: JsonV::Object(m) });
                    lemma_functions_behind(a, b, close + 11, more);
                }
            }
        }
    }
}

/// Function elements are read one after the other: the first makes a call under its name
/// with the parameters of its body, and all that follow it are read too. One whose body
/// cannot be read spoils the whole.
pub proof fn law_every_function_is_read(
    space: Seq<char>,
    name: Seq<char>,
    body: Seq<char>,
    rest: Seq<char>,
    acc: Seq<CallV>,
)
    requires
        !space.contains('<'),
        !name.contains('>'),
        trimmed(name).len() > 0,
        !trimmed(name).contains('<'),
        !holds(body, "</function>"@),
    ensures
        ({
            let s = space + function_element(name, body) + rest;
            match params_strict(body, 0, Map::empty()) {
                Some(m) => functions_strict(s, 0, acc) == functions_strict(
                    rest,
                    0,
                    acc.push(CallV { id: None, name: trimmed(name), args: JsonV::Object(m) }),
                ),
                None => functions_strict(s, 0, acc) is None,
            }
        }),
        functions_strict(space, 0, acc) == Some(acc),
{
    lemma_tags();
    let open = "<function="@;
    let close = "</function>"@;
    let el = function_element(name, body);
    let s = space + el + rest;
    let n = space.len() as int;
    let tail = name + seq!['>'] + body + close + rest;
    assert(s =~= space + (open + tail));
    lemma_find_past(space, open + tail, open, 0);
    lemma_find_behind(space, open + tail, open, 0);
    assert((open + tail).subrange(0, 10) =~= open);
    assert(at(open + tail, open, 0));
    assert(find_from(open + tail, open, 0) == Some(0int));
    let name_at = n + 10;
    let front = space + open;
    let after = seq!['>'] + body + close + rest;
    assert(s =~= front + (name + after));
    lemma_find_behind(front, name + after, tag_end(), 0);
    lemma_find_past(name, after, tag_end(), 0);
    lemma_find_behind(name, after, tag_end(), 0);
    assert(after.subrange(0, 1) =~= tag_end());
    assert(at(after, tag_end(), 0));
    assert(find_from(after, tag_end(), 0) == Some(0int));
    let gt = name_at + name.len();
    assert(s.subrange(name_at, gt as int) =~= name);
    let head = front + name + seq!['>'];
    assert(s =~= head + (body + close + rest));
    lemma_find_behind(head, body + close + rest, close, 0);
    lemma_find_tag(body, close, rest);
    let end = gt + 1 + body.len();
    assert(find_from(s, close, gt + 1) == Some(end as int));
    assert(s.subrange(gt + 1, end as int) =~= body);
    assert(s =~= (space + el) + rest);
    assert((space + el).len() == end + 11);
    if let Some(m) = params_strict(body, 0, Map::empty()) {
        let more = acc.push(CallV { id: None, name: trimmed(name), args: JsonV::Object(m) });
        lemma_functions_behind(space + el, rest, 0, more);
    }
    lemma_find_from(space, open, 0);
    if let Some(i) = find_from(space, open, 0) {
        assert(space.subrange(i, i + 10)[0] == space[i]);
        assert(space.contains(space[i]));
    }
}

proof fn lemma_lenient_behind(
    a: Seq<char>,
    b: Seq<char>,
    from: int,
    acc: Map<Seq<char>, JsonV>,
)
    requires
        0 <= from <= b.len(),
    ensures
        params_lenient(a + b, a.len() + from, acc) == params_lenient(b, from, acc),
    decreases b.len() - from,
{
    lemma_tags();
    let s = a + b;
    let n = a.len() as int;
    lemma_find_behind(a, b, "<parameter="@, from);
    lemma_find_from(b, "<parameter="@, from);
    if let Some(start) = find_from(b, "<parameter="@, from) {
        let name_at = start + 11;
        lemma_find_behind(a, b, tag_end(), name_at);
        lemma_find_from(b, tag_end(), name_at);
        if let Some(gt) = find_from(b, tag_end(), name_at) {
            assert(s.subrange(n + name_at, n + gt) =~= b.subrange(name_at, gt));
            lemma_find_behind(a, b, "<parameter="@, gt + 1);
            lemma_find_behind(a, b, "</parameter>"@, gt + 1);
            lemma_find_behind(a, b, "<function="@, gt + 1);
            lemma_find_behind(a, b, "</function>"@, gt + 1);
            lemma_value_end(b, gt + 1);
            let end = value_end(b, gt + 1);
            assert(value_end(s, n + gt + 1) == n + end);
            assert(s.subrange(n + gt + 1, n + end) =~= b.subrange(gt + 1, end));
            let tag = "</parameter>"@;
            if end + 12 <= b.len() {
                assert(s.subrange(n + end, n + end + 12) =~= b.subrange(end, end + 12));
            }
            assert(at(s, tag, n + end) == at(b, tag, end));
            let key = trimmed(b.subrange(name_at, gt));
            let more = acc.insert(key, param_value(trimmed(b.subrange(gt + 1, end))));
            lemma_lenient_behind(a, b, past(b, tag, end), more);
        }
    }
}

/// Where closing tags are missing, a parameter still ends where the next begins, and none
/// is lost: the first is bound to its value, and all that follow it are read too.
pub proof fn law_unclosed_parameters_are_read(
    space: Seq<char>,
    name: Seq<char>,
    value: Seq<char>,
    rest: Seq<char>,
    acc: Map<Seq<char>, JsonV>,
)
    requires
        !space.contains('<'),
        !name.contains('>'),
        trimmed(name).len() > 0,
        !value.contains('<'),
        rest.len() == 0 || at(rest, "<parameter="@, 0),
    ensures
        params_lenient(space + "<parameter="@ + name + seq!['>'] + value + rest, 0, acc)
            == params_lenient(rest, 0, acc.insert(trimmed(name), param_value(trimmed(value)))),
        params_lenient(Seq::empty(), 0, acc) == acc,
{
    lemma_tags();
    let open = "<parameter="@;
    let close = "</parameter>"@;
    let s = space + open + name + seq!['>'] + value + rest;
    let n = space.len() as int;
    let tail = name + seq!['>'] + value + rest;
    assert(s =~= space + (open + tail));
    lemma_find_past(space, open + tail, open, 0);
    lemma_find_behind(space, open + tail, open, 0);
    assert((open + tail).subrange(0, 11) =~= open);
    assert(at(open + tail, open, 0));
    assert(find_from(open + tail, open, 0) == Some(0int));
    let name_at = n + 11;
    let front = space + open;
    let after = seq!['>'] + value + rest;
    assert(s =~= front + (name + after));
    lemma_find_behind(front, name + after, tag_end(), 0);
    lemma_find_past(name, after, tag_end(), 0);
    lemma_find_behind(name, after, tag_end(), 0);
    assert(after.subrange(0, 1) =~= tag_end());
    assert(at(after, tag_end(), 0));
    assert(find_from(after, tag_end(), 0) == Some(0int));
    let gt = name_at + name.len();
    assert(s.subrange(name_at, gt as int) =~= name);
    let head = front + name + seq!['>'];
    assert(s =~= head + (value + rest));
    let end = gt + 1 + value.len();
    lemma_value_end_at(head, value, rest);
    assert(value_end(s, gt + 1) == end);
    assert(s.subrange(gt + 1, end as int) =~= value);
    let all = head + value;
    assert(s =~= all + rest);
    assert(!at(s, close, end as int)) by {
        if at(s, close, end as int) {
            assert(s.subrange(end as int, end + 12)[1] == s[end + 1]);
            assert(rest.subrange(0, 11)[1] == rest[1]);
            assert(s[end + 1] == rest[1]);
        }
    }
    let more = acc.insert(trimmed(name), param_value(trimmed(value)));
    lemma_lenient_behind(all, rest, 0, more);
    assert(find_from(Seq::<char>::empty(), open, 0) is None);
}

proof fn lemma_value_end_at(head: Seq<char>, value: Seq<char>, rest: Seq<char>)
    requires
        !value.contains('<'),
        rest.len() == 0 || at(rest, "<parameter="@, 0),
    ensures
        value_end(head + (value + rest), head.len() as int) == head.len() + value.len(),
{
    lemma_tags();
    let v = value + rest;
    let s = head + v;
    let a = "<parameter="@;
    let b = "</parameter>"@;
    let c = "<function="@;
    let d = "</function>"@;
    lemma_find_behind(head, v, a, 0);
    lemma_find_behind(head, v, b, 0);
    lemma_find_behind(head, v, c, 0);
    lemma_find_behind(head, v, d, 0);
    lemma_find_past(value, rest, a, 0);
    lemma_find_past(value, rest, b, 0);
    lemma_find_past(value, rest, c, 0);
    lemma_find_past(value, rest, d, 0);
    lemma_find_behind(value, rest, a, 0);
    lemma_find_behind(value, rest, b, 0);
    lemma_find_behind(value, rest, c, 0);
    lemma_find_behind(value, rest, d, 0);
    lemma_find_from(rest, a, 0);
    lemma_find_from(rest, b, 0);
    lemma_find_from(rest, c, 0);
    lemma_find_from(rest, d, 0);
    if rest.len() > 0 {
        assert(find_from(rest, a, 0) == Some(0int));
    }
}

/// What the text of a parameter stands for: a truth value, an integer that fits in 64 bits,
/// and else, where it is no number and no container, the text itself.
pub proof fn law_plain_texts_stay_texts(raw: Seq<char>)
    ensures
        param_value("true"@) == JsonV::Bool(true),
        param_value("false"@) == JsonV::Bool(false),
        raw.len() > 0 && crate::text::letter(raw[0]) && raw != "true"@ && raw != "false"@ && lower(
            raw,
        ) != "inf"@ && lower(raw) != "infinity"@ && lower(raw) != "nan"@ ==> param_value(raw)
            == JsonV::Str(raw),
        raw.len() > 0 && (raw[0] == '/' || raw[0] == '<' || raw[0] == '_' || raw[0] == '"')
            ==> param_value(raw) == JsonV::Str(raw),
{
    reveal_strlit("true");
    reveal_strlit("false");
    reveal_strlit("inf");
    reveal_strlit("infinity");
    reveal_strlit("nan");
    assert("true"@[0] == 't' && "false"@[0] == 'f');
    if raw.len() > 0 {
        let c = raw[0];
        let w = lower(raw);
        assert(raw.skip(0) =~= raw);
        assert(w[0] == crate::text::lower_char(c));
        if crate::text::letter(c) || c == '/' || c == '<' || c == '_' || c == '"' {
            assert(!digit(c) && c != '+' && c != '-' && c != '.' && c != '{' && c != '[');
            assert(!crate::text::all_digits(raw));
            assert(signed_value(raw) is None);
            assert(digits_end(raw, 0) == 0);
            assert(!decimal_text(raw, 0));
        }
        if c == '/' || c == '<' || c == '_' || c == '"' {
            assert(w[0] == c);
            assert("inf"@[0] == 'i' && "infinity"@[0] == 'i' && "nan"@[0] == 'n');
        }
    }
}

/// A number that is written in decimal is that number.
pub proof fn law_numbers_are_read(n: nat)
    requires
        n <= i64::MAX,
    ensures
        param_value(crate::text::decimal(n)) == JsonV::Int(n as int),
{
    crate::text::law_decimal_reads_back(n);
    let d = crate::text::decimal(n);
    assert(digit(d[0]));
    reveal_strlit("true");
    reveal_strlit("false");
    assert("true"@[0] == 't' && "false"@[0] == 'f');
}

/// A call written as JSON: its name, its identifier and its arguments are those of the
/// value, or of what stands under `function`. Without a name there is no call.
pub proof fn law_a_json_call_is_read(v: JsonV)
    ensures
        ({
            let f = v.at("function"@);
            let c = json_call(v);
            &&& v.text_at("name"@) matches Some(n) ==> n.len() > 0 ==> c is Some && c->0.name == n
            &&& v.field("name"@) is None && f.text_at("name"@) is Some && f.text_at("name"@)->0.len()
                > 0 ==> c is Some && c->0.name == f.text_at("name"@)->0
            &&& v.field("name"@) is None && f.field("name"@) is None ==> c is None
            &&& c is Some ==> {
                &&& c->0.id == v.text_at("id"@)
                &&& v.at("arguments"@) is Object ==> c->0.args == v.at("arguments"@)
                &&& v.field("arguments"@) is None && f.at("arguments"@) is Object ==> c->0.args
                    == f.at("arguments"@)
                &&& v.text_at("arguments"@) matches Some(s) ==> c->0.args == (match parsed_json(
                    s,
                ) {
                    Some(x) => x,
                    None => JsonV::Str(s),
                })
                &&& v.field("arguments"@) is None && f.field("arguments"@) is None ==> c->0.args
                    == JsonV::Object(Map::empty())
            }
        }),
{
}

/// A list of calls is read call by call, in order, and only as a whole.
pub proof fn law_a_json_list_is_read(items: Seq<JsonV>)
    ensures
        json_calls(JsonV::Array(items)) is Some <==> items.len() > 0 && (forall|i: int|
            0 <= i < items.len() ==> json_call(#[trigger] items[i]) is Some),
        json_calls(JsonV::Array(items)) matches Some(cs) ==> cs.len() == items.len() && forall|
            i: int,
        |
            0 <= i < items.len() ==> Some(#[trigger] cs[i]) == json_call(items[i]),
{
    lemma_each_call(items);
}

proof fn lemma_each_call(items: Seq<JsonV>)
    ensures
        each_call(items) is Some <==> (forall|i: int|
            0 <= i < items.len() ==> json_call(#[trigger] items[i]) is Some),
        each_call(items) matches Some(cs) ==> cs.len() == items.len() && forall|i: int|
            0 <= i < items.len() ==> Some(#[trigger] cs[i]) == json_call(items[i]),
    decreases items.len(),
{
    if items.len() > 0 {
        let rest = items.drop_last();
        lemma_each_call(rest);
        assert forall|i: int| 0 <= i < rest.len() implies rest[i] == #[trigger] items[i] by {}
        assert(items.last() == items[items.len() - 1]);
        if let Some(cs) = each_call(items) {
            assert forall|i: int| 0 <= i < items.len() implies Some(#[trigger] cs[i]) == json_call(
                items[i],
            ) by {
                if i < rest.len() {
                    assert(cs[i] == each_call(rest)->0[i]);
                    assert(rest[i] == items[i]);
                }
            }
        }
        if forall|i: int| 0 <= i < items.len() ==> json_call(#[trigger] items[i]) is Some {
            assert forall|i: int| 0 <= i < rest.len() implies json_call(#[trigger] rest[i]) is Some by {
                assert(rest[i] == items[i]);
            }
        }
        if each_call(items) is Some {
            assert forall|i: int| 0 <= i < items.len() implies json_call(#[trigger] items[i]) is Some by {
                if i < rest.len() {
                    assert(rest[i] == items[i]);
                }
            }
        }
    }
}

/// What the inside of a block writes: calls as JSON where it is JSON that writes some, else
/// function elements. Nothing writes nothing.
pub proof fn law_a_block_is_json_or_elements(inner: Seq<char>)
    ensures
        trimmed(inner).len() == 0 ==> block_calls(inner) is None,
        trimmed(inner).len() > 0 && parsed_json(trimmed(inner)) is Some && json_calls(
            parsed_json(trimmed(inner))->0,
        ) is Some ==> block_calls(inner) == json_calls(parsed_json(trimmed(inner))->0),
        (parsed_json(trimmed(inner)) is None || json_calls(parsed_json(trimmed(inner))->0) is None)
            && !holds(trimmed(inner), "<function="@) ==> block_calls(inner) is None,
{
}

/// A block with one function element makes one call, with all the parameters of its body.
pub proof fn law_a_function_block_is_one_call(
    name: Seq<char>,
    body: Seq<char>,
    m: Map<Seq<char>, JsonV>,
)
    requires
        !name.contains('>'),
        trimmed(name).len() > 0,
        !trimmed(name).contains('<'),
        !holds(body, "</function>"@),
        params_strict(body, 0, Map::empty()) == Some(m),
        parsed_json(function_element(name, body)) is None || json_calls(
            parsed_json(function_element(name, body))->0,
        ) is None,
    ensures
        block_calls(function_element(name, body)) == Some(
            seq![CallV { id: None, name: trimmed(name), args: JsonV::Object(m) }],
        ),
{
    lemma_tags();
    let e = Seq::<char>::empty();
    let el = function_element(name, body);
    law_every_function_is_read(e, name, body, e, Seq::empty());
    law_every_function_is_read(
        e,
        name,
        body,
        e,
        seq![CallV { id: None, name: trimmed(name), args: JsonV::Object(m) }],
    );
    assert(e + el + e =~= el);
    let one = seq![CallV { id: None, name: trimmed(name), args: JsonV::Object(m) }];
    assert(Seq::<CallV>::empty().push(one[0]) =~= one);
    assert(functions_strict(el, 0, Seq::empty()) == Some(one));
    reveal_strlit("</function>");
    assert(el[0] == '<' && el.last() == '>');
    crate::text::law_trimming_takes_the_ends(e, el, e);
    assert(trimmed(el) == el);
    assert(el.subrange(0, 10) =~= "<function="@);
    assert(at(el, "<function="@, 0));
}

proof fn lemma_call_tags()
    ensures
        "<tool_call>"@.len() == 11 && "</tool_call>"@.len() == 12,
        "<tool_calls>"@.len() == 12 && "</tool_calls>"@.len() == 13,
        "<tool_call>"@[0] == '<' && !"<tool_call>"@.skip(1).contains('<'),
        "</tool_call>"@[0] == '<' && !"</tool_call>"@.skip(1).contains('<'),
        "<tool_calls>"@[0] == '<' && !"<tool_calls>"@.skip(1).contains('<'),
        "</tool_calls>"@[0] == '<' && !"</tool_calls>"@.skip(1).contains('<'),
        "<tool_call>"@[10] == '>' && "<tool_calls>"@[10] == 's',
        !"<tool_call>"@.contains('`') && !"</tool_call>"@.contains('`'),
{
    reveal_strlit("<tool_call>");
    reveal_strlit("</tool_call>");
    reveal_strlit("<tool_calls>");
    reveal_strlit("</tool_calls>");
}

proof fn lemma_no_ticks_no_code(s: Seq<char>, i: int)
    requires
        0 <= i,
        !s.contains('`'),
    ensures
        !code_open(s, i, false, false),
    decreases s.len() - i,
{
    if i < s.len() {
        assert(s.contains(s[i]));
        lemma_no_ticks_no_code(s, i + 1);
    }
}

proof fn lemma_code_behind(a: Seq<char>, b: Seq<char>, i: int, fence: bool, inline: bool)
    requires
        0 <= i,
    ensures
        code_open(a + b, a.len() + i, fence, inline) == code_open(b, i, fence, inline),
    decreases b.len() - i,
{
    let s = a + b;
    let n = a.len() as int;
    if i < b.len() {
        assert(s[n + i] == b[i]);
        if i + 2 < b.len() {
            assert(s[n + i + 1] == b[i + 1] && s[n + i + 2] == b[i + 2]);
            lemma_code_behind(a, b, i + 3, !fence, inline);
        }
        lemma_code_behind(a, b, i + 1, fence, !inline);
        lemma_code_behind(a, b, i + 1, fence, inline);
    }
}

proof fn lemma_code_past(a: Seq<char>, b: Seq<char>, i: int)
    requires
        0 <= i <= a.len(),
        !a.contains('`'),
    ensures
        code_open(a + b, i, false, false) == code_open(a + b, a.len() as int, false, false),
    decreases a.len() - i,
{
    if i < a.len() {
        assert((a + b)[i] == a[i]);
        assert(a.contains(a[i]));
        lemma_code_past(a, b, i + 1);
    }
}

proof fn lemma_in_code_behind(a: Seq<char>, b: Seq<char>, i: int)
    requires
        0 <= i <= b.len(),
        !a.contains('`'),
    ensures
        in_code(a + b, a.len() + i) == in_code(b, i),
{
    let t = b.take(i);
    assert((a + b).take(a.len() + i) =~= a + t);
    lemma_code_past(a, t, 0);
    lemma_code_behind(a, t, 0, false, false);
}

/// A single tick opens code and the next one closes it again; three of them open a fence,
/// in which single ticks mean nothing.
pub proof fn law_ticks_enclose_code(a: Seq<char>, b: Seq<char>, c: Seq<char>, rest: Seq<char>)
    requires
        !a.contains('`'),
        !b.contains('`'),
        !c.contains('`'),
        b.len() > 0,
    ensures
        !in_code(a + rest, a.len() as int),
        in_code(a.push('`') + b + rest, (a.len() + 1 + b.len()) as int),
        !in_code(a.push('`') + b.push('`') + c + rest, (a.len() + b.len() + 2 + c.len()) as int),
        in_code(a + seq!['`', '`', '`'] + b + rest, (a.len() + 3 + b.len()) as int),
        in_code(
            a + seq!['`', '`', '`'] + b.push('`') + c + rest,
            (a.len() + 4 + b.len() + c.len()) as int,
        ),
{
    let e = Seq::<char>::empty();
    assert((a + rest).take(a.len() as int) =~= a);
    lemma_no_ticks_no_code(a, 0);
    let s1 = a.push('`') + b;
    assert((a.push('`') + b + rest).take(s1.len() as int) =~= s1);
    lemma_open_stays(a, b, e);
    assert(s1 + e =~= s1);
    let s2 = a.push('`') + b.push('`') + c;
    assert((a.push('`') + b.push('`') + c + rest).take(s2.len() as int) =~= s2);
    lemma_open_stays(a, b, seq!['`'] + c);
    assert(s2 =~= a.push('`') + b + (seq!['`'] + c));
    let s2b = seq!['`'] + c;
    lemma_close_tick(c);
    let s3 = a + seq!['`', '`', '`'] + b;
    assert((a + seq!['`', '`', '`'] + b + rest).take(s3.len() as int) =~= s3);
    lemma_fence(a, b);
    let s4 = a + seq!['`', '`', '`'] + b.push('`') + c;
    assert((a + seq!['`', '`', '`'] + b.push('`') + c + rest).take(s4.len() as int) =~= s4);
    lemma_fence_tick(a, b, c);
}

proof fn lemma_open_stays(a: Seq<char>, b: Seq<char>, t: Seq<char>)
    requires
        !a.contains('`'),
        !b.contains('`'),
        b.len() > 0,
    ensures
        code_open(a.push('`') + b + t, 0, false, false) == code_open(t, 0, false, true),
{
    let s = a.push('`') + b + t;
    let q = seq!['`'] + b + t;
    assert(s =~= a + q);
    lemma_code_past(a, q, 0);
    lemma_code_behind(a, q, 0, false, false);
    assert(q[0] == '`');
    assert(q[1] == b[0]);
    assert(b.contains(b[0]));
    assert(code_open(q, 0, false, false) == code_open(q, 1, false, true));
    let h = seq!['`'];
    assert(q =~= h + (b + t));
    lemma_code_behind(h, b + t, 0, false, true);
    lemma_inline_past(b, t, 0);
    lemma_code_behind(b, t, 0, false, true);
}

proof fn lemma_inline_past(b: Seq<char>, t: Seq<char>, i: int)
    requires
        0 <= i <= b.len(),
        !b.contains('`'),
    ensures
        code_open(b + t, i, false, true) == code_open(b + t, b.len() as int, false, true),
    decreases b.len() - i,
{
    if i < b.len() {
        assert((b + t)[i] == b[i]);
        assert(b.contains(b[i]));
        lemma_inline_past(b, t, i + 1);
    }
}

proof fn lemma_close_tick(c: Seq<char>)
    requires
        !c.contains('`'),
    ensures
        !code_open(seq!['`'] + c, 0, false, true),
{
    let h = seq!['`'];
    let s = h + c;
    assert(s[0] == '`');
    assert(code_open(s, 0, false, true) == code_open(s, 1, false, false));
    lemma_code_behind(h, c, 0, false, false);
    lemma_no_ticks_no_code(c, 0);
}

proof fn lemma_fence_open(s: Seq<char>, i: int)
    requires
        0 <= i,
        forall|k: int| 0 <= k && k + 2 < s.len() ==> !(#[trigger] s[k] == '`' && s[k + 1] == '`' && s[k
            + 2] == '`'),
    ensures
        code_open(s, i, true, false),
    decreases s.len() - i,
{
    if i < s.len() {
        assert(s[i] == s[i]);
        lemma_fence_open(s, i + 1);
    }
}

proof fn lemma_fence(a: Seq<char>, b: Seq<char>)
    requires
        !a.contains('`'),
        !b.contains('`'),
    ensures
        code_open(a + seq!['`', '`', '`'] + b, 0, false, false),
{
    let q = seq!['`', '`', '`'] + b;
    let s = a + seq!['`', '`', '`'] + b;
    assert(s =~= a + q);
    lemma_code_past(a, q, 0);
    lemma_code_behind(a, q, 0, false, false);
    assert(q[0] == '`' && q[1] == '`' && q[2] == '`');
    assert(code_open(q, 0, false, false) == code_open(q, 3, true, false));
    lemma_code_behind(seq!['`', '`', '`'], b, 0, true, false);
    assert forall|k: int| 0 <= k && k + 2 < b.len() implies !(#[trigger] b[k] == '`' && b[k + 1]
        == '`' && b[k + 2] == '`') by {
        assert(b.contains(b[k]));
    }
    lemma_fence_open(b, 0);
}

proof fn lemma_fence_tick(a: Seq<char>, b: Seq<char>, c: Seq<char>)
    requires
        !a.contains('`'),
        !b.contains('`'),
        !c.contains('`'),
    ensures
        code_open(a + seq!['`', '`', '`'] + b.push('`') + c, 0, false, false),
{
    let d = b.push('`') + c;
    let q = seq!['`', '`', '`'] + d;
    let s = a + seq!['`', '`', '`'] + b.push('`') + c;
    assert(s =~= a + q);
    lemma_code_past(a, q, 0);
    lemma_code_behind(a, q, 0, false, false);
    assert(q[0] == '`' && q[1] == '`' && q[2] == '`');
    assert(code_open(q, 0, false, false) == code_open(q, 3, true, false));
    lemma_code_behind(seq!['`', '`', '`'], d, 0, true, false);
    assert forall|k: int| 0 <= k && k + 2 < d.len() implies !(#[trigger] d[k] == '`' && d[k + 1]
        == '`' && d[k + 2] == '`') by {
        if k < b.len() {
            assert(d[k] == b[k]);
            assert(b.contains(b[k]));
        } else if k > b.len() {
            assert(d[k] == c[k - b.len() - 1]);
            assert(c.contains(c[k - b.len() - 1]));
        } else {
            assert(d[k + 1] == c[0]);
            assert(c.contains(c[0]));
        }
    }
    lemma_fence_open(d, 0);
}

/// `x` is `y` after blocks that wrote `calls`, of which there were `n`.
spec fn further(x: BlocksV, y: BlocksV, calls: Seq<CallV>, malformed: bool, n: nat) -> bool {
    &&& x.calls == calls + y.calls
    &&& x.malformed == (malformed || y.malformed)
    &&& x.unclosed == y.unclosed
    &&& x.spans.len() == n + y.spans.len()
}

proof fn lemma_with_block_further(
    x: BlocksV,
    y: BlocksV,
    calls: Seq<CallV>,
    malformed: bool,
    n: nat,
    inner: Seq<char>,
    a: int,
    b: int,
    c: int,
    d: int,
)
    requires
        further(x, y, calls, malformed, n),
    ensures
        further(with_block(x, inner, a, b), with_block(y, inner, c, d), calls, malformed, n),
        with_block(x, inner, a, b).spans == x.spans.push((a, b)),
{
    if let Some(cs) = block_calls(inner) {
        assert(calls + y.calls + cs =~= calls + (y.calls + cs));
    }
}

#[verifier::spinoff_prover]
#[verifier::rlimit(60)]
proof fn lemma_blocks_behind(
    a: Seq<char>,
    b: Seq<char>,
    from: int,
    x: BlocksV,
    y: BlocksV,
    calls: Seq<CallV>,
    malformed: bool,
    n: nat,
)
    requires
        0 <= from <= b.len(),
        !a.contains('`'),
        further(x, y, calls, malformed, n),
    ensures
        further(blocks(a + b, a.len() + from, x), blocks(b, from, y), calls, malformed, n),
        x.spans.is_prefix_of(blocks(a + b, a.len() + from, x).spans),
    decreases b.len() - from,
{
    lemma_call_tags();
    let s = a + b;
    let k = a.len() as int;
    lemma_next_open(b, from);
    lemma_next_open(s, k + from);
    lemma_find_behind(a, b, "<tool_call>"@, from);
    lemma_find_behind(a, b, "<tool_calls>"@, from);
    if let Some((start, plural)) = next_open(b, from) {
        assert(next_open(s, k + from) == Some((k + start, plural)));
        let inner_at = start + if plural {
            12int
        } else {
            11int
        };
        lemma_in_code_behind(a, b, start);
        if in_code(b, start) {
            lemma_blocks_behind(a, b, inner_at, x, y, calls, malformed, n);
        } else if plural {
            lemma_find_behind(a, b, "</tool_calls>"@, inner_at);
            lemma_find_behind(a, b, "<tool_call>"@, inner_at);
            lemma_find_from(b, "</tool_calls>"@, inner_at);
            match plural_close(b, inner_at) {
                None => {
                    assert(plural_close(s, k + inner_at) is None);
                    lemma_blocks_behind(a, b, inner_at, x, y, calls, malformed, n);
                },
                Some(e) => {
                    assert(plural_close(s, k + inner_at) == Some(k + e));
                    let inner = trimmed(b.subrange(inner_at, e));
                    assert(s.subrange(k + inner_at, k + e) =~= b.subrange(inner_at, e));
                    lemma_with_block_further(
                        x,
                        y,
                        calls,
                        malformed,
                        n,
                        inner,
                        k + start,
                        k + e + 13,
                        start,
                        e + 13,
                    );
                    let x2 = with_block(x, inner, k + start, k + e + 13);
                    lemma_blocks_behind(
                        a,
                        b,
                        e + 13,
                        x2,
                        with_block(y, inner, start, e + 13),
                        calls,
                        malformed,
                        n,
                    );
                    lemma_prefix_of_push(
                        x.spans,
                        (k + start, k + e + 13),
                        blocks(s, k + e + 13, x2).spans,
                    );
                },
            }
        } else {
            lemma_find_behind(a, b, "</tool_call>"@, inner_at);
            lemma_find_from(b, "</tool_call>"@, inner_at);
            match find_from(b, "</tool_call>"@, inner_at) {
                None => {
                    assert(x.spans.is_prefix_of(x.spans.push((k + start, s.len() as int))));
                },
                Some(e) => {
                    let inner = trimmed(b.subrange(inner_at, e));
                    assert(s.subrange(k + inner_at, k + e) =~= b.subrange(inner_at, e));
                    lemma_with_block_further(
                        x,
                        y,
                        calls,
                        malformed,
                        n,
                        inner,
                        k + start,
                        k + e + 12,
                        start,
                        e + 12,
                    );
                    let x2 = with_block(x, inner, k + start, k + e + 12);
                    lemma_blocks_behind(
                        a,
                        b,
                        e + 12,
                        x2,
                        with_block(y, inner, start, e + 12),
                        calls,
                        malformed,
                        n,
                    );
                    lemma_prefix_of_push(
                        x.spans,
                        (k + start, k + e + 12),
                        blocks(s, k + e + 12, x2).spans,
                    );
                },
            }
        }
    } else {
        assert(next_open(s, k + from) is None);
    }
}

proof fn lemma_prefix_of_push(s: Seq<(int, int)>, x: (int, int), t: Seq<(int, int)>)
    requires
        s.push(x).is_prefix_of(t),
    ensures
        s.is_prefix_of(t),
{
    assert forall|i: int| 0 <= i < s.len() implies s[i] == t[i] by {
        assert(s.push(x)[i] == t[i]);
    }
    assert(s =~= t.take(s.len() as int));
}

proof fn lemma_first_open(pre: Seq<char>, tail: Seq<char>)
    requires
        !pre.contains('<'),
    ensures
        next_open(pre + "<tool_call>"@ + tail, 0) == Some((pre.len() as int, false)),
        next_open(pre + "<tool_calls>"@ + tail, 0) == Some((pre.len() as int, true)),
{
    lemma_call_tags();
    let one = "<tool_call>"@;
    let all = "<tool_calls>"@;
    let a = one + tail;
    let b = all + tail;
    assert(pre + one + tail =~= pre + a);
    assert(pre + all + tail =~= pre + b);
    lemma_find_past(pre, a, one, 0);
    lemma_find_past(pre, a, all, 0);
    lemma_find_past(pre, b, one, 0);
    lemma_find_past(pre, b, all, 0);
    lemma_find_behind(pre, a, one, 0);
    lemma_find_behind(pre, a, all, 0);
    lemma_find_behind(pre, b, one, 0);
    lemma_find_behind(pre, b, all, 0);
    assert(a.subrange(0, 11) =~= one);
    assert(at(a, one, 0));
    assert(b.subrange(0, 12) =~= all);
    assert(at(b, all, 0));
    assert(find_from(a, one, 0) == Some(0int));
    assert(find_from(b, all, 0) == Some(0int));
    lemma_find_from(a, all, 0);
    lemma_find_from(b, one, 0);
    assert(!at(b, one, 0)) by {
        if at(b, one, 0) {
            assert(b.subrange(0, 11)[10] == b[10]);
        }
    }
}

/// The blocks of a text are read one after the other: the first writes the calls of what
/// stands between its tags, or is malformed, and all that follow it are read too.
pub proof fn law_every_block_is_read(pre: Seq<char>, inner: Seq<char>, rest: Seq<char>)
    requires
        !pre.contains('<'),
        !pre.contains('`'),
        !inner.contains('`'),
        !holds(inner, "</tool_call>"@),
    ensures
        ({
            let x = extracted(pre + "<tool_call>"@ + inner + "</tool_call>"@ + rest);
            let y = extracted(rest);
            let c = block_calls(trimmed(inner));
            &&& c matches Some(cs) ==> x.calls == cs + y.calls
            &&& c is None ==> x.calls == y.calls
            &&& x.malformed == (c is None || y.malformed)
            &&& x.unclosed == y.unclosed
            &&& x.spans.len() == 1 + y.spans.len()
            &&& x.spans[0] == (pre.len() as int, (pre.len() + inner.len() + 23) as int)
        }),
{
    lemma_call_tags();
    let open = "<tool_call>"@;
    let close = "</tool_call>"@;
    let s = pre + open + inner + close + rest;
    let n = pre.len() as int;
    let tail = inner + close + rest;
    assert(s =~= pre + open + tail);
    lemma_first_open(pre, tail);
    assert(s.take(n) =~= pre);
    lemma_no_ticks_no_code(pre, 0);
    assert(!in_code(s, n));
    let head = pre + open;
    lemma_find_behind(head, tail, close, 0);
    lemma_find_tag(inner, close, rest);
    let e = n + 11 + inner.len();
    assert(s =~= head + tail);
    assert(find_from(s, close, n + 11) == Some(e as int));
    assert(s.subrange(n + 11, e as int) =~= inner);
    let block = trimmed(inner);
    let x = with_block(no_blocks(), block, n, e + 12);
    let all = pre + open + inner + close;
    assert(s =~= all + rest);
    assert(all.len() == e + 12);
    assert(!all.contains('`')) by {
        assert forall|i: int| 0 <= i < all.len() implies all[i] != '`' by {
            if i < n {
                assert(pre.contains(pre[i]));
            } else if i < n + 11 {
                assert(open.contains(open[i - n]));
            } else if i < e {
                assert(inner.contains(inner[i - n - 11]));
            } else {
                assert(close.contains(close[i - e]));
            }
        }
    }
    let cs = match block_calls(block) {
        Some(cs) => cs,
        None => Seq::empty(),
    };
    assert(Seq::<CallV>::empty() + cs =~= cs);
    assert(cs + Seq::<CallV>::empty() =~= cs);
    assert(further(x, no_blocks(), cs, block_calls(block) is None, 1));
    lemma_blocks_behind(all, rest, 0, x, no_blocks(), cs, block_calls(block) is None, 1);
    assert(extracted(s) == blocks(s, e + 12, x));
    assert(x.spans[0] == (n, e + 12));
    if block_calls(block) is None {
        assert(Seq::<CallV>::empty() + extracted(rest).calls =~= extracted(rest).calls);
    }
}

/// A block that never closes runs to the end of the text and writes no call.
pub proof fn law_an_open_block_runs_to_the_end(pre: Seq<char>, inner: Seq<char>)
    requires
        !pre.contains('<'),
        !pre.contains('`'),
        !holds(inner, "</tool_call>"@),
    ensures
        ({
            let x = extracted(pre + "<tool_call>"@ + inner);
            &&& x.unclosed
            &&& x.calls.len() == 0
            &&& !x.malformed
            &&& x.spans == seq![(pre.len() as int, (pre.len() + 11 + inner.len()) as int)]
        }),
{
    lemma_call_tags();
    let open = "<tool_call>"@;
    let close = "</tool_call>"@;
    let s = pre + open + inner;
    let n = pre.len() as int;
    lemma_first_open(pre, inner);
    assert(s.take(n) =~= pre);
    lemma_no_ticks_no_code(pre, 0);
    let head = pre + open;
    lemma_find_behind(head, inner, close, 0);
    lemma_find_from(inner, close, 0);
    assert(extracted(s).spans =~= seq![(n, s.len() as int)]);
}

/// What is left of a text as the answer is what stands before its first block, and all of
/// it where it holds none.
pub proof fn law_the_answer_stands_before_the_calls(pre: Seq<char>, inner: Seq<char>, rest: Seq<char>)
    requires
        !pre.contains('<'),
        !pre.contains('`'),
        !inner.contains('`'),
        !holds(inner, "</tool_call>"@),
    ensures
        ({
            let s = pre + "<tool_call>"@ + inner + "</tool_call>"@ + rest;
            &&& before_first(s, extracted(s).spans) == trimmed(pre)
            &&& before_first(pre, extracted(pre).spans) == trimmed(pre)
        }),
{
    law_every_block_is_read(pre, inner, rest);
    let s = pre + "<tool_call>"@ + inner + "</tool_call>"@ + rest;
    assert(s.take(pre.len() as int) =~= pre);
    lemma_call_tags();
    if holds(pre, "<tool_call>"@) {
        let i = choose|i: int| at(pre, "<tool_call>"@, i);
        assert(pre.subrange(i, i + 11)[0] == pre[i]);
        assert(pre.contains(pre[i]));
    }
    if holds(pre, "<tool_calls>"@) {
        let i = choose|i: int| at(pre, "<tool_calls>"@, i);
        assert(pre.subrange(i, i + 12)[0] == pre[i]);
        assert(pre.contains(pre[i]));
    }
    law_no_tag_no_block(pre);
}

/// Calls keep their names and arguments when they get identifiers, and their own identifiers
/// where they have any.
pub proof fn law_calls_keep_what_they_are(calls: Seq<ToolCall>, drafts: Seq<CallV>, i: int)
    requires
        completed(calls, drafts),
        0 <= i < drafts.len(),
    ensures
        calls.len() == drafts.len(),
        calls[i].name@ == drafts[i].name,
        calls[i].arguments@ == drafts[i].args,
        drafts[i].id matches Some(id) ==> calls[i].id@ == id,
        drafts[i].id is None ==> calls[i].id@.len() == 32,
{
}

proof fn lemma_functions_lenient_behind(a: Seq<char>, b: Seq<char>, from: int, acc: Seq<CallV>)
    requires
        0 <= from <= b.len(),
    ensures
        functions_lenient(a + b, a.len() + from, acc) == functions_lenient(b, from, acc),
    decreases b.len() - from,
{
    lemma_tags();
    let s = a + b;
    let n = a.len() as int;
    lemma_find_behind(a, b, "<function="@, from);
    lemma_find_from(b, "<function="@, from);
    if let Some(start) = find_from(b, "<function="@, from) {
        let name_at = start + 10;
        lemma_find_behind(a, b, tag_end(), name_at);
        lemma_find_from(b, tag_end(), name_at);
        if let Some(gt) = find_from(b, tag_end(), name_at) {
            assert(s.subrange(n + name_at, n + gt) =~= b.subrange(name_at, gt));
            lemma_find_behind(a, b, "<function="@, gt + 1);
            lemma_find_behind(a, b, "</function>"@, gt + 1);
            lemma_body_end(b, gt + 1);
            let end = body_end(b, gt + 1);
            assert(body_end(s, n + gt + 1) == n + end);
            let body = b.subrange(gt + 1, end);
            assert(s.subrange(n + gt + 1, n + end) =~= body);
            let tag = "</function>"@;
            if end + 11 <= b.len() {
                assert(s.subrange(n + end, n + end + 11) =~= b.subrange(end, end + 11));
            }
            assert(at(s, tag, n + end) == at(b, tag, end));
            let m = params_lenient(body, 0, Map::empty());
            let name = trimmed(b.subrange(name_at, gt));
            let more = if m =~= Map::empty() {
                acc
            } else {
                acc.push(CallV { id: None, name, args: JsonV::Object(m) })
            };
            lemma_functions_lenient_behind(a, b, past(b, tag, end), more);
        }
    }
}

/// Where the closing tag of a function is missing, it still ends where the next begins: the
/// first makes a call, where it has any parameters, and all that follow it are read too.
pub proof fn law_unclosed_functions_are_read(
    space: Seq<char>,
    name: Seq<char>,
    body: Seq<char>,
    rest: Seq<char>,
    acc: Seq<CallV>,
)
    requires
        !space.contains('<'),
        !name.contains('>'),
        trimmed(name).len() > 0,
        !trimmed(name).contains('<'),
        !holds(body + rest, "</function>"@) || rest.len() == 0,
        !holds(body, "<function="@) && !holds(body, "</function>"@),
        rest.len() == 0 || at(rest, "<function="@, 0),
    ensures
        ({
            let s = space + "<function="@ + name + seq!['>'] + body + rest;
            let m = params_lenient(body, 0, Map::empty());
            functions_lenient(s, 0, acc) == functions_lenient(
                rest,
                0,
                if m =~= Map::empty() {
                    acc
                } else {
                    acc.push(CallV { id: None, name: trimmed(name), args: JsonV::Object(m) })
                },
            )
        }),
{
    lemma_body_ends_at(body, rest);
    lemma_tags();
    if rest.len() > 0 {
        assert(rest.subrange(0, 10)[1] == rest[1]);
    }
    lemma_unclosed_function(space, name, body, rest, acc);
}

proof fn lemma_unclosed_function(
    space: Seq<char>,
    name: Seq<char>,
    body: Seq<char>,
    rest: Seq<char>,
    acc: Seq<CallV>,
)
    requires
        !space.contains('<'),
        !name.contains('>'),
        trimmed(name).len() > 0,
        !trimmed(name).contains('<'),
        rest.len() > 0 ==> find_from(body + rest, "<function="@, 0) == Some(body.len() as int),
        find_from(body + rest, "</function>"@, 0) is None,
        rest.len() == 0 ==> find_from(body + rest, "<function="@, 0) is None,
        rest.len() > 0 ==> rest.len() > 1 && rest[1] == 'f',
    ensures
        ({
            let s = space + "<function="@ + name + seq!['>'] + body + rest;
            let m = params_lenient(body, 0, Map::empty());
            functions_lenient(s, 0, acc) == functions_lenient(
                rest,
                0,
                if m =~= Map::empty() {
                    acc
                } else {
                    acc.push(CallV { id: None, name: trimmed(name), args: JsonV::Object(m) })
                },
            )
        }),
{
    lemma_tags();
    let open = "<function="@;
    let close = "</function>"@;
    let s = space + open + name + seq!['>'] + body + rest;
    lemma_tag_opening(space, open, name, body + rest);
    let head = space + open + name + seq!['>'];
    assert(s =~= head + (body + rest));
    let n = space.len() as int;
    let gt = n + 10 + name.len();
    let end = gt + 1 + body.len();
    lemma_find_behind(head, body + rest, open, 0);
    lemma_find_behind(head, body + rest, close, 0);
    assert(head.len() == gt + 1);
    assert(body_end(s, gt + 1) == end);
    assert(s.subrange(gt + 1, end as int) =~= body);
    let all = head + body;
    assert(s =~= all + rest);
    lemma_not_closed(all, rest);
    let m = params_lenient(body, 0, Map::empty());
    let more = if m =~= Map::empty() {
        acc
    } else {
        acc.push(CallV { id: None, name: trimmed(name), args: JsonV::Object(m) })
    };
    assert(functions_lenient(s, 0, acc) == functions_lenient(s, end as int, more));
    lemma_functions_lenient_behind(all, rest, 0, more);
}

proof fn lemma_not_closed(all: Seq<char>, rest: Seq<char>)
    requires
        rest.len() > 0 ==> rest.len() > 1 && rest[1] == 'f',
    ensures
        !at(all + rest, "</function>"@, all.len() as int),
{
    lemma_tags();
    let s = all + rest;
    let e = all.len() as int;
    if at(s, "</function>"@, e) {
        assert(s.subrange(e, e + 11)[1] == s[e + 1]);
    }
}

proof fn lemma_tag_opening(space: Seq<char>, open: Seq<char>, name: Seq<char>, after: Seq<char>)
    requires
        open.len() > 0,
        open[0] == '<',
        !space.contains('<'),
        !name.contains('>'),
    ensures
        ({
            let s = space + open + name + seq!['>'] + after;
            let a = space.len() + open.len();
            &&& find_from(s, open, 0) == Some(space.len() as int)
            &&& find_from(s, tag_end(), a as int) == Some((a + name.len()) as int)
            &&& s.subrange(a as int, (a + name.len()) as int) == name
        }),
{
    let s = space + open + name + seq!['>'] + after;
    let tail = name + seq!['>'] + after;
    assert(s =~= space + (open + tail));
    lemma_find_past(space, open + tail, open, 0);
    lemma_find_behind(space, open + tail, open, 0);
    assert((open + tail).subrange(0, open.len() as int) =~= open);
    assert(at(open + tail, open, 0));
    assert(find_from(open + tail, open, 0) == Some(0int));
    let front = space + open;
    let rest = seq!['>'] + after;
    assert(s =~= front + (name + rest));
    lemma_find_behind(front, name + rest, tag_end(), 0);
    lemma_find_past(name, rest, tag_end(), 0);
    lemma_find_behind(name, rest, tag_end(), 0);
    assert(rest.subrange(0, 1) =~= tag_end());
    assert(at(rest, tag_end(), 0));
    assert(find_from(rest, tag_end(), 0) == Some(0int));
    let a = front.len() as int;
    assert(s.subrange(a, a + name.len()) =~= name);
}

proof fn lemma_body_ends_at(body: Seq<char>, rest: Seq<char>)
    requires
        !holds(body + rest, "</function>"@) || rest.len() == 0,
        !holds(body, "<function="@) && !holds(body, "</function>"@),
        rest.len() == 0 || at(rest, "<function="@, 0),
    ensures
        rest.len() > 0 ==> find_from(body + rest, "<function="@, 0) == Some(body.len() as int),
        find_from(body + rest, "</function>"@, 0) is None,
        rest.len() == 0 ==> find_from(body + rest, "<function="@, 0) is None,
{
    lemma_tags();
    let open = "<function="@;
    let close = "</function>"@;
    let s = body + rest;
    if rest.len() > 0 {
        let more = rest.skip(10);
        assert(rest =~= rest.subrange(0, 10) + more);
        assert(s =~= body + open + more);
        lemma_find_tag(body, open, more);
        lemma_find_from(s, close, 0);
    } else {
        assert(s =~= body);
        lemma_find_from(s, open, 0);
        lemma_find_from(s, close, 0);
    }
}

/// Function elements are read strictly where that gives any call, else leniently, and a text
/// that gives none either way writes none.
pub proof fn law_strict_before_lenient(s: Seq<char>)
    ensures
        ({
            let a = functions_strict(s, 0, Seq::empty());
            let b = functions_lenient(s, 0, Seq::empty());
            &&& a is Some && a->0.len() > 0 ==> element_calls(s) == a
            &&& (a is None || a->0.len() == 0) && b is Some && b->0.len() > 0 ==> element_calls(s)
                == b
            &&& (a is None || a->0.len() == 0) && (b is None || b->0.len() == 0) ==> element_calls(
                s,
            ) is None
        }),
{
}

/// The plural tag encloses a block too, where no single one opens inside it.
pub proof fn law_plural_blocks_are_read(pre: Seq<char>, inner: Seq<char>)
    requires
        !pre.contains('<'),
        !pre.contains('`'),
        !inner.contains('`'),
        !holds(inner, "</tool_calls>"@),
        !inner.contains('<') || !holds(inner + "</tool_calls>"@, "<tool_call>"@),
    ensures
        ({
            let x = extracted(pre + "<tool_calls>"@ + inner + "</tool_calls>"@);
            let c = block_calls(trimmed(inner));
            &&& c matches Some(cs) ==> x.calls == cs && !x.malformed
            &&& c is None ==> x.calls.len() == 0 && x.malformed
            &&& !x.unclosed
            &&& x.spans == seq![(pre.len() as int, (pre.len() + inner.len() + 25) as int)]
        }),
{
    lemma_call_tags();
    reveal_strlit("</tool_calls>");
    let open = "<tool_calls>"@;
    let close = "</tool_calls>"@;
    let s = pre + open + inner + close;
    let n = pre.len() as int;
    let tail = inner + close;
    assert(s =~= pre + open + tail);
    lemma_first_open(pre, tail);
    assert(s.take(n) =~= pre);
    lemma_no_ticks_no_code(pre, 0);
    let head = pre + open;
    assert(s =~= head + tail);
    lemma_find_behind(head, tail, close, 0);
    lemma_find_tag(inner, close, Seq::empty());
    assert(inner + close + Seq::<char>::empty() =~= tail);
    let e = n + 12 + inner.len();
    assert(find_from(s, close, n + 12) == Some(e as int));
    lemma_find_behind(head, tail, "<tool_call>"@, 0);
    lemma_find_from(tail, "<tool_call>"@, 0);
    if let Some(b) = find_from(tail, "<tool_call>"@, 0) {
        assert(holds(tail, "<tool_call>"@));
        if !inner.contains('<') {
            assert(tail.subrange(b, b + 11)[0] == tail[b]);
            assert(tail.subrange(b, b + 11)[1] == tail[b + 1]);
            reveal_strlit("<tool_call>");
            if b < inner.len() {
                assert(inner.contains(inner[b]));
            } else {
                assert(tail[b] == close[b - inner.len()]);
                assert(tail[b + 1] == close[b - inner.len() + 1]);
                if b > inner.len() {
                    assert(close.skip(1)[b - inner.len() - 1] == '<');
                }
            }
        }
    }
    assert(plural_close(s, n + 12) == Some(e as int));
    assert(s.subrange(n + 12, e as int) =~= inner);
    let x = with_block(no_blocks(), trimmed(inner), n, e + 13);
    assert(e + 13 == s.len());
    lemma_next_open(s, e + 13);
    assert(next_open(s, e + 13) is None);
    assert(blocks(s, e + 13, x) == x);
    assert(extracted(s) == x);
    assert(x.spans =~= seq![(n, e + 13)]);
    if let Some(cs) = block_calls(trimmed(inner)) {
        assert(Seq::<CallV>::empty() + cs =~= cs);
    }
}

/// What is taken from a text are the calls of its blocks, in order and with their names and
/// arguments, where they stand, and whether one of them is open or broken.
pub proof fn law_all_blocks_are_taken(x: XmlExtract, s: Seq<char>, i: int)
    requires
        extract_of(x, s),
    ensures
        x.unclosed <==> extracted(s).unclosed,
        x.malformed <==> extracted(s).malformed,
        x.calls@.len() == extracted(s).calls.len(),
        0 <= i < x.calls@.len() ==> x.calls@[i].name@ == extracted(s).calls[i].name
            && x.calls@[i].arguments@ == extracted(s).calls[i].args,
        0 <= i < x.calls@.len() && extracted(s).calls[i].id is Some ==> x.calls@[i].id@ == extracted(
            s,
        ).calls[i].id->0,
        x.ranges@.len() == extracted(s).spans.len(),
        0 <= i < x.ranges@.len() ==> extracted(s).spans[i] == (
            x.ranges@[i].start as int,
            x.ranges@[i].end as int,
        ),
{
    if 0 <= i < x.ranges@.len() {
        assert(spans_view(x.ranges@)[i] == extracted(s).spans[i]);
    }
}

} // verus!
