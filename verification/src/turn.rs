//! One model turn: thought, answer and tool calls out of a chat completion.
//!
//! Calls come from the native `tool_calls` array and from blocks in the answer.
//! Where the array is empty, complete blocks in the thought count too.

use vstd::prelude::*;
use crate::fault::{Fault, FaultV};
use crate::json::{
    counts, entry_counts, fields_view, items_view, lemma_fields_counts, lemma_items_push,
    lemma_items_view, put, Json, JsonV,
};
use crate::outside::{json_text, parse_json, parsed_json, print_json, settled_json};
use crate::text::{chars_of, find, find_from, search, trim, trimmed};
use crate::think::{split_of, split_think, strip_think};
use crate::usage::{
    cached_tokens_of, completion_tokens_of, parse_cached_tokens, parse_completion_tokens,
    parse_decode_tok_s, parse_prompt_tokens, prompt_tokens_of, rate_of, Rate,
};
use crate::xml_tools::{
    before_first, calls_view, completed, drafts_view, extract_of, extract_xml_tools, spans_view,
    text_before_first, unpack, unpacked, with_ids, CallV, Draft, ToolCall, XmlExtract,
};

verus! {

// ---------------------------------------------------------------------------
// Leaked markup
// ---------------------------------------------------------------------------

/// A text in which a thought closes and a tool call opens after it.
pub open spec fn leak_text(s: Seq<char>) -> bool {
    match find(s, "</think>"@) {
        Some(i) => find_from(s, "<tool_call>"@, i + "</think>"@.len()) is Some,
        None => false,
    }
}

/// A value that holds such a text somewhere.
pub open spec fn leaks(v: JsonV) -> bool
    decreases v,
{
    match v {
        JsonV::Str(s) => leak_text(s),
        JsonV::Array(a) => exists|i: int| 0 <= i < a.len() && leaks(#[trigger] a[i]),
        JsonV::Object(m) => exists|k: Seq<char>| m.contains_key(k) && leaks(#[trigger] m[k]),
        _ => false,
    }
}

proof fn lemma_item_leaks(a: Seq<JsonV>, i: int)
    requires
        0 <= i < a.len(),
        leaks(a[i]),
    ensures
        leaks(JsonV::Array(a)),
{
    let v = JsonV::Array(a);
    assert(leaks(v->Array_0[i]));
}

proof fn lemma_field_leaks(m: Map<Seq<char>, JsonV>, k: Seq<char>)
    requires
        m.contains_key(k),
        leaks(m[k]),
    ensures
        leaks(JsonV::Object(m)),
{
    let v = JsonV::Object(m);
    assert(leaks(v->Object_0[k]));
}

fn is_leak_text(s: &str) -> (r: bool)
    ensures
        r == leak_text(s@),
{
    let cs = chars_of(s);
    let close = chars_of("</think>");
    match search(&cs, &close, 0) {
        Some(i) => search(&cs, &chars_of("<tool_call>"), i + close.len()).is_some(),
        None => false,
    }
}

fn value_leaks(v: &Json) -> (r: bool)
    ensures
        r == leaks(v@),
    decreases v,
{
    match v {
        Json::Str(s) => is_leak_text(s.as_str()),
        Json::Array(a) => {
            proof {
                lemma_items_view(a@);
            }
            let mut i: usize = 0;
            while i < a.len()
                invariant
                    i <= a@.len(),
                    decreases_to!(v => a),
                    v@ == JsonV::Array(items_view(a@)),
                    items_view(a@).len() == a@.len(),
                    forall|j: int| 0 <= j < a@.len() ==> #[trigger] items_view(a@)[j] == a@[j]@,
                    forall|j: int| 0 <= j < i ==> !leaks(#[trigger] items_view(a@)[j]),
                decreases a.len() - i,
            {
                if value_leaks(&a[i]) {
                    proof {
                        lemma_item_leaks(items_view(a@), i as int);
                    }
                    return true;
                }
                i = i + 1;
            }
            false
        },
        Json::Object(m) => {
            let ghost f = fields_view(m@);
            proof {
                lemma_fields_counts(m@);
            }
            let mut i: usize = 0;
            while i < m.len()
                invariant
                    i <= m@.len(),
                    decreases_to!(v => m),
                    f == fields_view(m@),
                    v@ == JsonV::Object(f),
                    forall|j: int| #[trigger]
                        counts(m@, j) ==> f.contains_key(m@[j].0@) && f[m@[j].0@] == m@[j].1@,
                    forall|j: int| 0 <= j < i && #[trigger] counts(m@, j) ==> !leaks(m@[j].1@),
                decreases m.len() - i,
            {
                if entry_counts(m, i) {
                    if value_leaks(&m[i].1) {
                        proof {
                            assert(counts(m@, i as int));
                            lemma_field_leaks(f, m@[i as int].0@);
                        }
                        return true;
                    }
                }
                i = i + 1;
            }
            assert forall|k: Seq<char>| f.contains_key(k) implies !leaks(#[trigger] f[k]) by {
                let j = choose|j: int| #[trigger] counts(m@, j) && m@[j].0@ == k;
                assert(counts(m@, j));
            }
            false
        },
        _ => false,
    }
}

/// Whether the arguments of a call swallowed the end of a thought and the call
/// after it.
pub open spec fn any_leak(calls: Seq<ToolCall>) -> bool {
    exists|i: int| 0 <= i < calls.len() && leaks((#[trigger] calls[i]).arguments@)
}

/// Whether the arguments of a call swallowed the end of a thought and the call
/// after it.
pub fn calls_leak_channel_markup(calls: &Vec<ToolCall>) -> (r: bool)
    ensures
        r == any_leak(calls@),
{
    let mut i: usize = 0;
    while i < calls.len()
        invariant
            i <= calls@.len(),
            forall|j: int| 0 <= j < i ==> !leaks((#[trigger] calls@[j]).arguments@),
        decreases calls.len() - i,
    {
        if value_leaks(&calls[i].arguments) {
            return true;
        }
        i = i + 1;
    }
    false
}

// ---------------------------------------------------------------------------
// Merging
// ---------------------------------------------------------------------------

pub open spec fn names_id(calls: Seq<CallV>, id: Option<Seq<char>>) -> bool {
    exists|i: int| 0 <= i < calls.len() && (#[trigger] calls[i]).id == id
}

/// The calls of `a`, then those of `b` whose identifier did not come before.
pub open spec fn merged(a: Seq<CallV>, b: Seq<CallV>) -> Seq<CallV>
    decreases b.len(),
{
    if b.len() == 0 {
        a
    } else {
        let m = merged(a, b.drop_last());
        if names_id(m, b.last().id) {
            m
        } else {
            m.push(b.last())
        }
    }
}

/// No two calls share an identifier.
pub open spec fn distinct_ids(calls: Seq<CallV>) -> bool {
    forall|i: int, j: int|
        0 <= i < j < calls.len() ==> (#[trigger] calls[i]).id != (#[trigger] calls[j]).id
}

fn has_id(calls: &Vec<ToolCall>, id: &String) -> (r: bool)
    ensures
        r == names_id(calls_view(calls@), Some(id@)),
{
    let mut i: usize = 0;
    while i < calls.len()
        invariant
            i <= calls@.len(),
            forall|j: int| 0 <= j < i ==> (#[trigger] calls_view(calls@)[j]).id != Some(id@),
        decreases calls.len() - i,
    {
        assert(calls_view(calls@)[i as int].id == Some(calls@[i as int].id@));
        if calls[i].id == *id {
            return true;
        }
        i = i + 1;
    }
    false
}

/// The calls of `first`, then those of `more` whose identifier did not come before.
pub fn merge_calls(first: Vec<ToolCall>, more: Vec<ToolCall>) -> (r: Vec<ToolCall>)
    ensures
        calls_view(r@) == merged(calls_view(first@), calls_view(more@)),
{
    let ghost a = calls_view(first@);
    let ghost b = calls_view(more@);
    let ghost all = more@;
    let mut out = first;
    let mut rest = more;
    let n: usize = rest.len();
    let mut i: usize = 0;
    assert(b.take(0) =~= Seq::empty());
    while i < n
        invariant
            i <= n == all.len(),
            b == calls_view(all),
            rest@ == all.skip(i as int),
            calls_view(out@) == merged(a, b.take(i as int)),
        decreases n - i,
    {
        let c = rest.remove(0);
        assert(c == all[i as int]);
        assert(rest@ =~= all.skip(i + 1));
        assert(b.take(i + 1).drop_last() =~= b.take(i as int));
        assert(b.take(i + 1).last() == c@);
        let ghost before = out@;
        if !has_id(&out, &c.id) {
            out.push(c);
            assert(calls_view(out@) =~= calls_view(before).push(c@));
        }
        i = i + 1;
    }
    assert(b.take(i as int) =~= b);
    out
}

/// Native calls come first and win over blocks of the same identifier; every
/// identifier is kept, and none comes twice where none did among the first.
pub proof fn law_merge_keeps_ids(a: Seq<CallV>, b: Seq<CallV>)
    ensures
        a.len() <= merged(a, b).len(),
        merged(a, b).take(a.len() as int) == a,
        forall|i: int| 0 <= i < b.len() ==> names_id(merged(a, b), (#[trigger] b[i]).id),
        distinct_ids(a) ==> distinct_ids(merged(a, b)),
    decreases b.len(),
{
    if b.len() == 0 {
        assert(a.take(a.len() as int) =~= a);
    } else {
        let w = b.drop_last();
        let m = merged(a, w);
        law_merge_keeps_ids(a, w);
        let r = merged(a, b);
        assert(r.take(a.len() as int) =~= m.take(a.len() as int));
        assert forall|i: int| 0 <= i < b.len() implies names_id(r, (#[trigger] b[i]).id) by {
            if i < w.len() {
                assert(w[i] == b[i]);
                assert(names_id(m, w[i].id));
                let k = choose|k: int| 0 <= k < m.len() && (#[trigger] m[k]).id == w[i].id;
                assert(r[k] == m[k]);
            } else if !names_id(m, b.last().id) {
                assert(r[r.len() - 1] == b.last());
            }
        }
        if distinct_ids(a) && !names_id(m, b.last().id) {
            assert forall|i: int, j: int| 0 <= i < j < r.len() implies (#[trigger] r[i]).id != (
            #[trigger] r[j]).id by {
                assert(r[i] == m[i]);
                if j < m.len() {
                    assert(r[j] == m[j]);
                }
            }
        }
    }
}

// ---------------------------------------------------------------------------
// Native calls
// ---------------------------------------------------------------------------

/// The call that one item of `tool_calls` writes. Arguments that are no JSON are
/// kept as text, unless the reply was cut off.
pub open spec fn native_call(v: JsonV, truncated: bool) -> Option<CallV> {
    let f = v.at("function"@);
    match f.at("name"@) {
        JsonV::Str(name) => if name.len() == 0 {
            None
        } else {
            match f.at("arguments"@) {
                JsonV::Str(s) => match parsed_json(s) {
                    Some(x) => Some(CallV { id: v.text_at("id"@), name, args: x }),
                    None => if truncated {
                        None
                    } else {
                        Some(CallV { id: v.text_at("id"@), name, args: JsonV::Str(s) })
                    },
                },
                other => Some(CallV { id: v.text_at("id"@), name, args: other }),
            }
        },
        _ => None,
    }
}

/// The calls that the items of `tool_calls` write.
pub open spec fn native_calls(items: Seq<JsonV>, truncated: bool) -> Seq<CallV>
    decreases items.len(),
{
    if items.len() == 0 {
        Seq::empty()
    } else {
        let before = native_calls(items.drop_last(), truncated);
        match native_call(items.last(), truncated) {
            Some(c) => before.push(c),
            None => before,
        }
    }
}

/// The call that one item of `tool_calls` writes.
pub fn parse_tool_call(v: &Json, truncated: bool) -> (r: Option<Draft>)
    ensures
        r is Some <==> native_call(v@, truncated) is Some,
        r matches Some(d) ==> native_call(v@, truncated) == Some(d@),
{
    let id: Option<String> = match v.text_at("id") {
        Some(s) => Some(s.to_owned()),
        None => None,
    };
    let f = match v.get("function") {
        Some(f) => f,
        None => {
            return None;
        },
    };
    let name: String = match f.text_at("name") {
        Some(s) => s.to_owned(),
        None => {
            return None;
        },
    };
    if name.as_str().is_empty() {
        return None;
    }
    let arguments: Json = match f.get("arguments") {
        Some(Json::Str(s)) => match parse_json(s.as_str()) {
            Some(x) => x,
            None => {
                if truncated {
                    return None;
                }
                Json::Str(s.clone())
            },
        },
        Some(other) => other.copy(),
        None => Json::Null,
    };
    Some(Draft { id, name, arguments })
}

fn parse_native(items: &Vec<Json>, truncated: bool) -> (r: Vec<Draft>)
    ensures
        drafts_view(r@) == native_calls(items_view(items@), truncated),
{
    proof {
        lemma_items_view(items@);
    }
    let ghost vals = items_view(items@);
    let mut out: Vec<Draft> = Vec::new();
    let mut i: usize = 0;
    assert(drafts_view(out@) =~= Seq::empty());
    assert(vals.take(0) =~= Seq::empty());
    while i < items.len()
        invariant
            i <= items@.len() == vals.len(),
            forall|j: int| 0 <= j < vals.len() ==> #[trigger] vals[j] == items@[j]@,
            drafts_view(out@) == native_calls(vals.take(i as int), truncated),
        decreases items.len() - i,
    {
        let ghost before = out@;
        assert(vals.take(i + 1).drop_last() =~= vals.take(i as int));
        assert(vals.take(i + 1).last() == items@[i as int]@);
        if let Some(d) = parse_tool_call(&items[i], truncated) {
            out.push(d);
            assert(drafts_view(out@) =~= drafts_view(before).push(d@));
        }
        i = i + 1;
    }
    assert(vals.take(i as int) =~= vals);
    out
}

// ---------------------------------------------------------------------------
// The two channels
// ---------------------------------------------------------------------------

/// The texts of the parts of a content, put together.
pub open spec fn parts_text(parts: Seq<JsonV>) -> Seq<char>
    decreases parts.len(),
{
    if parts.len() == 0 {
        Seq::empty()
    } else {
        parts_text(parts.drop_last()) + match parts.last().text_at("text"@) {
            Some(s) => s,
            None => Seq::empty(),
        }
    }
}

/// The content of a message: a text, or the texts of its parts.
pub open spec fn content_text(msg: JsonV) -> Seq<char> {
    match msg.at("content"@) {
        JsonV::Str(s) => s,
        JsonV::Array(parts) => parts_text(parts),
        _ => Seq::empty(),
    }
}

/// The content of a message.
pub fn message_text(msg: &Json) -> (r: String)
    ensures
        r@ == content_text(msg@),
{
    match msg.get("content") {
        Some(Json::Str(s)) => s.clone(),
        Some(Json::Array(parts)) => {
            proof {
                lemma_items_view(parts@);
            }
            let ghost vals = items_view(parts@);
            let mut out: String = String::new();
            let mut i: usize = 0;
            assert(vals.take(0) =~= Seq::empty());
            while i < parts.len()
                invariant
                    i <= parts@.len() == vals.len(),
                    forall|j: int| 0 <= j < vals.len() ==> #[trigger] vals[j] == parts@[j]@,
                    out@ == parts_text(vals.take(i as int)),
                decreases parts.len() - i,
            {
                assert(vals.take(i + 1).drop_last() =~= vals.take(i as int));
                assert(vals.take(i + 1).last() == parts@[i as int]@);
                if let Some(s) = parts[i].text_at("text") {
                    out.append(s);
                } else {
                    assert(out@ + Seq::<char>::empty() =~= out@);
                }
                i = i + 1;
            }
            assert(vals.take(i as int) =~= vals);
            out
        },
        _ => String::new(),
    }
}

/// The thinking channel of a message, under either of its names.
pub open spec fn thinking_text(msg: JsonV) -> Seq<char> {
    match msg.text_at("reasoning_content"@) {
        Some(s) => s,
        None => match msg.text_at("reasoning"@) {
            Some(s) => s,
            None => Seq::empty(),
        },
    }
}

/// The thinking channel of a message, under either of its names.
pub fn thinking(msg: &Json) -> (r: String)
    ensures
        r@ == thinking_text(msg@),
{
    match msg.text_at("reasoning_content") {
        Some(s) => s.to_owned(),
        None => match msg.text_at("reasoning") {
            Some(s) => s.to_owned(),
            None => String::new(),
        },
    }
}

/// Thought and answer of a message: by its thinking channel where that says
/// anything, else by the tags in its content.
pub open spec fn channels(msg: JsonV) -> (Seq<char>, Seq<char>) {
    let direct = trimmed(thinking_text(msg));
    let parts = split_of(content_text(msg), true);
    if direct.len() > 0 {
        (direct, parts.1)
    } else {
        parts
    }
}

fn split_channels(msg: &Json) -> (r: (String, String))
    ensures
        (r.0@, r.1@) == channels(msg@),
{
    let content = message_text(msg);
    let direct = trim(thinking(msg).as_str());
    if direct.as_str().is_empty() {
        split_think(content.as_str())
    } else {
        (direct, strip_think(content.as_str()))
    }
}

// ---------------------------------------------------------------------------
// Settling a turn
// ---------------------------------------------------------------------------

/// What was found in one channel.
pub ghost struct FoundV {
    pub calls: Seq<CallV>,
    pub unclosed: bool,
    pub malformed: bool,
    pub spans: Seq<(int, int)>,
}

pub open spec fn found(x: XmlExtract) -> FoundV {
    FoundV {
        calls: calls_view(x.calls@),
        unclosed: x.unclosed,
        malformed: x.malformed,
        spans: spans_view(x.ranges@),
    }
}

/// What a turn comes to.
pub ghost struct SettledV {
    pub content: Seq<char>,
    pub reasoning: Seq<char>,
    pub calls: Seq<CallV>,
    pub parse_fail: bool,
}

pub open spec fn calls_leak(calls: Seq<CallV>) -> bool {
    exists|i: int| 0 <= i < calls.len() && leaks((#[trigger] calls[i]).args)
}

/// What a turn comes to.
///
/// - Native calls and the blocks of the answer are merged. A broken block without
///   native calls is a failure with no calls; in a reply that was cut off an open
///   block is dropped.
/// - Without native calls, complete blocks in the thought are recovered, and clear a
///   failure.
/// - Calls whose arguments swallowed markup are a failure with no calls.
/// - Unless the turn failed, the answer is what stands before its first block.
pub open spec fn settle(
    content: Seq<char>,
    reasoning: Seq<char>,
    native: Seq<CallV>,
    xml: FoundV,
    think: FoundV,
    truncated: bool,
) -> SettledV {
    let broken = !truncated && (xml.unclosed || xml.malformed) && native.len() == 0;
    let shown = if broken {
        Seq::empty()
    } else if truncated && xml.unclosed {
        native
    } else {
        merged(native, xml.calls)
    };
    let recovered = native.len() == 0 && think.calls.len() > 0;
    let calls = if !recovered {
        shown
    } else if broken {
        think.calls
    } else {
        merged(think.calls, shown)
    };
    let leaked = !truncated && calls_leak(calls);
    let fail = (broken && !recovered) || leaked;
    SettledV {
        content: trimmed(
            if !fail && xml.spans.len() > 0 {
                before_first(content, xml.spans)
            } else {
                content
            },
        ),
        reasoning: if recovered {
            before_first(reasoning, think.spans)
        } else {
            reasoning
        },
        calls: if leaked {
            Seq::empty()
        } else {
            calls
        },
        parse_fail: fail,
    }
}

/// What a turn comes to.
#[derive(Debug, PartialEq, Eq)]
pub struct Settled {
    pub content: String,
    pub reasoning: String,
    pub tool_calls: Vec<ToolCall>,
    pub parse_fail: bool,
}

impl View for Settled {
    type V = SettledV;

    open spec fn view(&self) -> SettledV {
        SettledV {
            content: self.content@,
            reasoning: self.reasoning@,
            calls: calls_view(self.tool_calls@),
            parse_fail: self.parse_fail,
        }
    }
}

/// What a turn comes to, of its channels and what was found in them.
pub fn settle_turn(
    content: String,
    reasoning: String,
    native: Vec<ToolCall>,
    xml: XmlExtract,
    think: XmlExtract,
    truncated: bool,
) -> (r: Settled)
    ensures
        r@ == settle(
            content@,
            reasoning@,
            calls_view(native@),
            found(xml),
            found(think),
            truncated,
        ),
{
    let has_native: bool = native.len() > 0;
    let broken: bool = xml.parse_fail(truncated) && !has_native;
    let had_xml: bool = xml.had_tag();
    let ghost nv = calls_view(native@);
    let shown: Vec<ToolCall> = if broken {
        let none: Vec<ToolCall> = Vec::new();
        assert(calls_view(none@) =~= Seq::empty());
        none
    } else if truncated && xml.unclosed {
        native
    } else {
        merge_calls(native, xml.calls)
    };
    let recovered: bool = !has_native && think.calls.len() > 0;
    let mut reasoning = reasoning;
    if recovered {
        reasoning = text_before_first(reasoning.as_str(), &think.ranges);
    }
    let calls: Vec<ToolCall> = if !recovered {
        shown
    } else if broken {
        think.calls
    } else {
        merge_calls(think.calls, shown)
    };
    let leaked: bool = !truncated && calls_leak_channel_markup(&calls);
    proof {
        lemma_leak_views(calls@);
    }
    let fail: bool = (broken && !recovered) || leaked;
    let tool_calls: Vec<ToolCall> = if leaked {
        let none: Vec<ToolCall> = Vec::new();
        assert(calls_view(none@) =~= Seq::empty());
        none
    } else {
        calls
    };
    let shown_text: String = if !fail && had_xml {
        text_before_first(content.as_str(), &xml.ranges)
    } else {
        content
    };
    Settled { content: trim(shown_text.as_str()), reasoning, tool_calls, parse_fail: fail }
}

proof fn lemma_leak_views(calls: Seq<ToolCall>)
    ensures
        any_leak(calls) == calls_leak(calls_view(calls)),
{
    let vs = calls_view(calls);
    if any_leak(calls) {
        let i = choose|i: int| 0 <= i < calls.len() && leaks((#[trigger] calls[i]).arguments@);
        assert(leaks(vs[i].args));
    }
    if calls_leak(vs) {
        let i = choose|i: int| 0 <= i < vs.len() && leaks((#[trigger] vs[i]).args);
        assert(leaks(calls[i].arguments@));
    }
}

// ---------------------------------------------------------------------------
// A whole turn
// ---------------------------------------------------------------------------

/// A call as the wire format has it; arguments that are the text of a value are that
/// value.
pub open spec fn raw_call(c: CallV) -> JsonV {
    let none = JsonV::Object(Map::empty());
    put(
        put(
            put(
                none,
                "id"@,
                JsonV::Str(
                    match c.id {
                        Some(s) => s,
                        None => Seq::empty(),
                    },
                ),
            ),
            "type"@,
            JsonV::Str("function"@),
        ),
        "function"@,
        put(put(none, "name"@, JsonV::Str(c.name)), "arguments"@, unpacked(c.args)),
    )
}

/// The calls as the wire format has them.
pub open spec fn raw_calls(calls: Seq<CallV>) -> Seq<JsonV> {
    calls.map_values(|c: CallV| raw_call(c))
}

/// The calls as the wire format has them.
pub fn openai_tool_calls(calls: &Vec<ToolCall>) -> (r: Vec<Json>)
    ensures
        items_view(r@) == raw_calls(calls_view(calls@)),
{
    let ghost all = raw_calls(calls_view(calls@));
    let mut out: Vec<Json> = Vec::new();
    let mut i: usize = 0;
    assert(items_view(out@) =~= Seq::empty());
    while i < calls.len()
        invariant
            i <= calls@.len(),
            all == raw_calls(calls_view(calls@)),
            items_view(out@) =~= all.take(i as int),
        decreases calls.len() - i,
    {
        let c = &calls[i];
        let f = Json::object().with("name", Json::string(c.name.as_str())).with(
            "arguments",
            unpack(&c.arguments),
        );
        let j = Json::object().with("id", Json::string(c.id.as_str())).with(
            "type",
            Json::string("function"),
        ).with("function", f);
        proof {
            lemma_items_push(out@, j);
            assert(calls_view(calls@)[i as int] == c@);
            assert(all[i as int] == j@);
            assert(all.take(i + 1) =~= all.take(i as int).push(j@));
        }
        out.push(j);
        i = i + 1;
    }
    assert(all.take(i as int) =~= all);
    out
}

/// One turn of the model.
#[derive(Debug, PartialEq, Eq)]
pub struct ModelTurn {
    pub content: String,
    pub reasoning: String,
    pub tool_calls: Vec<ToolCall>,
    /// The calls as the wire format has them, where there are any.
    pub raw_tool_calls: Option<Vec<Json>>,
    pub prompt_tokens: u64,
    pub completion_tokens: u64,
    /// The thought ran into its cap and the reply was dropped.
    pub watchdog_hit: bool,
    /// The calls of the turn could not be read.
    pub parse_fail: bool,
    pub cached_tokens: Option<u64>,
    pub decode_tok_s: Option<Rate>,
}

impl ModelTurn {
    /// The turn of a thought that ran into its cap.
    pub fn watchdog() -> (r: ModelTurn)
        ensures
            r.content@.len() == 0,
            r.reasoning@.len() == 0,
            r.tool_calls@.len() == 0,
            r.raw_tool_calls is None,
            r.prompt_tokens == 0,
            r.completion_tokens == 0,
            r.watchdog_hit,
            !r.parse_fail,
            r.cached_tokens is None,
            r.decode_tok_s is None,
    {
        ModelTurn {
            content: String::new(),
            reasoning: String::new(),
            tool_calls: Vec::new(),
            raw_tool_calls: None,
            prompt_tokens: 0,
            completion_tokens: 0,
            watchdog_hit: true,
            parse_fail: false,
            cached_tokens: None,
            decode_tok_s: None,
        }
    }

    /// What the turn comes to.
    pub open spec fn settled(self) -> SettledV {
        SettledV {
            content: self.content@,
            reasoning: self.reasoning@,
            calls: calls_view(self.tool_calls@),
            parse_fail: self.parse_fail,
        }
    }

    /// The counts of the turn are those of the completion `v`.
    pub open spec fn counted(self, v: JsonV) -> bool {
        &&& self.prompt_tokens == prompt_tokens_of(v)
        &&& self.completion_tokens == completion_tokens_of(v)
        &&& self.cached_tokens is Some <==> cached_tokens_of(v) is Some
        &&& self.cached_tokens matches Some(n) ==> cached_tokens_of(v) == Some(n as nat)
        &&& self.decode_tok_s is Some <==> rate_of(v) is Some
        &&& self.decode_tok_s matches Some(x) ==> rate_of(v) == Some(x@)
        &&& !self.watchdog_hit
        &&& self.raw_tool_calls is Some <==> self.tool_calls@.len() > 0
        &&& self.raw_tool_calls matches Some(raws) ==> items_view(raws@) == raw_calls(
            calls_view(self.tool_calls@),
        )
    }
}

/// The message of a completion.
pub open spec fn message_of(v: JsonV) -> JsonV {
    v.at("choices"@).first().at("message"@)
}

/// The calls of the native array of a message.
pub open spec fn native_of(msg: JsonV, truncated: bool) -> Seq<CallV> {
    match msg.at("tool_calls"@) {
        JsonV::Array(items) => native_calls(items, truncated),
        _ => Seq::empty(),
    }
}

/// The turn that the completion `v` writes, for some choice of the identifiers that
/// were missing.
pub open spec fn turn_of(turn: ModelTurn, v: JsonV, truncated: bool) -> bool {
    let msg = message_of(v);
    let (reasoning, content) = channels(msg);
    turn.counted(v) && exists|native: Seq<ToolCall>, xml: XmlExtract, think: XmlExtract|
        {
            &&& #[trigger] completed(native, native_of(msg, truncated))
            &&& #[trigger] extract_of(xml, content)
            &&& #[trigger] extract_of(think, reasoning)
            &&& turn.settled() == settle(
                content,
                reasoning,
                calls_view(native),
                found(xml),
                found(think),
                truncated,
            )
        }
}

/// A turn and whether its calls could not be read.
#[derive(Debug, PartialEq, Eq)]
pub struct ParseOutcome {
    pub turn: ModelTurn,
    pub parse_fail: bool,
}

impl ParseOutcome {
    /// The turn, marked where its calls could not be read.
    pub fn into_turn(self) -> (r: ModelTurn)
        ensures
            r == (ModelTurn { parse_fail: self.parse_fail, ..self.turn }),
    {
        let mut turn = self.turn;
        turn.parse_fail = self.parse_fail;
        turn
    }
}

/// The turn of a completion, which may have been cut off. A completion without a
/// message is an error.
pub fn parse_turn_opts(v: &Json, truncated: bool) -> (r: Result<ParseOutcome, Fault>)
    ensures
        r is Err <==> message_of(v@) == JsonV::Null,
        r matches Err(e) ==> e@ == FaultV::Http("chat completion missing choices[0].message"@),
        r matches Ok(o) ==> turn_of(o.turn, v@, truncated) && o.parse_fail == o.turn.parse_fail,
{
    let missing = "chat completion missing choices[0].message";
    let msg = match v.get("choices") {
        Some(c) => match c.first() {
            Some(f) => match f.get("message") {
                Some(m) => m,
                None => {
                    return Err(Fault::http(missing));
                },
            },
            None => {
                return Err(Fault::http(missing));
            },
        },
        None => {
            return Err(Fault::http(missing));
        },
    };
    if msg.is_null() {
        return Err(Fault::http(missing));
    }
    assert(msg@ == message_of(v@));
    let (reasoning, content) = split_channels(msg);
    let drafts: Vec<Draft> = match msg.get("tool_calls") {
        Some(Json::Array(items)) => parse_native(items, truncated),
        _ => {
            let none: Vec<Draft> = Vec::new();
            assert(drafts_view(none@) =~= Seq::empty());
            none
        },
    };
    assert(drafts_view(drafts@) == native_of(msg@, truncated));
    let native = with_ids(drafts);
    let xml = extract_xml_tools(content.as_str());
    let think = extract_xml_tools(reasoning.as_str());
    let ghost n0 = native@;
    let ghost x0 = xml;
    let ghost t0 = think;
    let s = settle_turn(content, reasoning, native, xml, think, truncated);
    let raw_tool_calls: Option<Vec<Json>> = if s.tool_calls.len() == 0 {
        None
    } else {
        Some(openai_tool_calls(&s.tool_calls))
    };
    let parse_fail: bool = s.parse_fail;
    let turn = ModelTurn {
        content: s.content,
        reasoning: s.reasoning,
        tool_calls: s.tool_calls,
        raw_tool_calls,
        prompt_tokens: parse_prompt_tokens(v),
        completion_tokens: parse_completion_tokens(v),
        watchdog_hit: false,
        parse_fail,
        cached_tokens: parse_cached_tokens(v),
        decode_tok_s: parse_decode_tok_s(v),
    };
    proof {
        assert(completed(n0, native_of(msg@, truncated)));
        assert(extract_of(x0, channels(msg@).1));
        assert(extract_of(t0, channels(msg@).0));
        assert(turn.settled() == s@);
        assert(turn.counted(v@));
    }
    Ok(ParseOutcome { turn, parse_fail })
}

/// The turn of a whole completion.
pub fn parse_turn(v: &Json) -> (r: Result<ParseOutcome, Fault>)
    ensures
        r is Err <==> message_of(v@) == JsonV::Null,
        r matches Err(e) ==> e@ == FaultV::Http("chat completion missing choices[0].message"@),
        r matches Ok(o) ==> turn_of(o.turn, v@, false) && o.parse_fail == o.turn.parse_fail,
{
    parse_turn_opts(v, false)
}

/// The error that a body or an event reports.
pub open spec fn reported_error(v: JsonV) -> Option<Seq<char>> {
    match v.field("error"@) {
        Some(e) => Some(json_text(settled_json(e))),
        None => None,
    }
}

/// The error that a body or an event reports, as text.
pub fn error_of(v: &Json) -> (r: Option<String>)
    ensures
        r is Some <==> reported_error(v@) is Some,
        r matches Some(s) ==> reported_error(v@) == Some(s@),
{
    match v.get("error") {
        Some(e) => Some(print_json(e)),
        None => None,
    }
}

/// The turn of a completion, or the error that it reports.
pub fn turn_from_json(v: &Json, truncated: bool) -> (r: Result<ModelTurn, Fault>)
    ensures
        r is Err <==> reported_error(v@) is Some || message_of(v@) == JsonV::Null,
        r matches Err(e) ==> e@ == (match reported_error(v@) {
            Some(s) => FaultV::Http(s),
            None => FaultV::Http("chat completion missing choices[0].message"@),
        }),
        r matches Ok(t) ==> turn_of(t, v@, truncated),
{
    if let Some(s) = error_of(v) {
        return Err(Fault::Http(s));
    }
    match parse_turn_opts(v, truncated) {
        Ok(o) => Ok(o.into_turn()),
        Err(e) => Err(e),
    }
}

// ---------------------------------------------------------------------------
// Laws
// ---------------------------------------------------------------------------

/// A turn that could not be read runs nothing, and a reply that was cut off never
/// counts as unreadable.
pub proof fn law_failed_turn_runs_nothing(
    content: Seq<char>,
    reasoning: Seq<char>,
    native: Seq<CallV>,
    xml: FoundV,
    think: FoundV,
    truncated: bool,
)
    ensures
        settle(content, reasoning, native, xml, think, truncated).parse_fail ==> settle(
            content,
            reasoning,
            native,
            xml,
            think,
            truncated,
        ).calls.len() == 0,
        truncated ==> !settle(content, reasoning, native, xml, think, truncated).parse_fail,
{
}

/// Native calls leave the thought alone: nothing in it is run or cut.
pub proof fn law_native_calls_leave_thought(
    content: Seq<char>,
    reasoning: Seq<char>,
    native: Seq<CallV>,
    xml: FoundV,
    think: FoundV,
    other: FoundV,
    truncated: bool,
)
    requires
        native.len() > 0,
    ensures
        settle(content, reasoning, native, xml, think, truncated).reasoning == reasoning,
        settle(content, reasoning, native, xml, think, truncated) == settle(
            content,
            reasoning,
            native,
            xml,
            other,
            truncated,
        ),
{
}

/// The content of a turn is what the reply says, its thought what it thinks, and its calls
/// are the native ones, where no block is written anywhere.
pub proof fn law_a_plain_turn_is_taken_as_it_is(
    content: Seq<char>,
    reasoning: Seq<char>,
    native: Seq<CallV>,
    xml: FoundV,
    think: FoundV,
    truncated: bool,
)
    requires
        xml.calls.len() == 0 && xml.spans.len() == 0 && !xml.unclosed && !xml.malformed,
        think.calls.len() == 0,
        forall|i: int| 0 <= i < native.len() ==> !leaks((#[trigger] native[i]).args),
    ensures
        settle(content, reasoning, native, xml, think, truncated) == (SettledV {
            content: trimmed(content),
            reasoning,
            calls: native,
            parse_fail: false,
        }),
{
}

/// Blocks in the answer are its calls, behind the native ones, and the answer is what
/// stands before the first of them.
pub proof fn law_blocks_are_calls(
    content: Seq<char>,
    reasoning: Seq<char>,
    native: Seq<CallV>,
    xml: FoundV,
    think: FoundV,
    truncated: bool,
)
    requires
        !xml.unclosed && !xml.malformed,
        xml.spans.len() > 0 && 0 <= xml.spans[0].0 <= content.len(),
        think.calls.len() == 0,
        distinct_ids(native + xml.calls),
        forall|i: int| 0 <= i < native.len() ==> !leaks((#[trigger] native[i]).args),
        forall|i: int| 0 <= i < xml.calls.len() ==> !leaks((#[trigger] xml.calls[i]).args),
    ensures
        settle(content, reasoning, native, xml, think, truncated) == (SettledV {
            content: trimmed(trimmed(content.take(xml.spans[0].0))),
            reasoning,
            calls: native + xml.calls,
            parse_fail: false,
        }),
{
    lemma_merge_distinct(native, xml.calls);
    let all = native + xml.calls;
    assert(!calls_leak(all)) by {
        if calls_leak(all) {
            let i = choose|i: int| 0 <= i < all.len() && leaks((#[trigger] all[i]).args);
            if i < native.len() {
                assert(all[i] == native[i]);
            } else {
                assert(all[i] == xml.calls[i - native.len()]);
            }
        }
    }
}

proof fn lemma_merge_distinct(a: Seq<CallV>, b: Seq<CallV>)
    requires
        distinct_ids(a + b),
    ensures
        merged(a, b) == a + b,
    decreases b.len(),
{
    if b.len() == 0 {
        assert(a + b =~= a);
    } else {
        let w = b.drop_last();
        assert((a + w) =~= (a + b).drop_last());
        assert(distinct_ids(a + w)) by {
            assert forall|i: int, j: int| 0 <= i < j < (a + w).len() implies (#[trigger] (a
                + w)[i]).id != (#[trigger] (a + w)[j]).id by {
                assert((a + w)[i] == (a + b)[i] && (a + w)[j] == (a + b)[j]);
            }
        }
        lemma_merge_distinct(a, w);
        let all = a + b;
        let n = all.len() - 1;
        if names_id(a + w, b.last().id) {
            let i = choose|i: int| 0 <= i < (a + w).len() && (#[trigger] (a + w)[i]).id
                == b.last().id;
            assert(all[i] == (a + w)[i] && all[n] == b.last());
        }
        assert((a + w).push(b.last()) =~= a + b);
    }
}

/// A broken block without native calls makes the turn unreadable: it runs nothing and keeps
/// its content. With native calls it does no harm, and in a reply that was cut off an open
/// block is dropped.
pub proof fn law_a_broken_block_is_a_failure(
    content: Seq<char>,
    reasoning: Seq<char>,
    native: Seq<CallV>,
    xml: FoundV,
    think: FoundV,
)
    requires
        xml.unclosed || xml.malformed,
        think.calls.len() == 0,
    ensures
        native.len() == 0 ==> settle(content, reasoning, native, xml, think, false) == (SettledV {
            content: trimmed(content),
            reasoning,
            calls: Seq::empty(),
            parse_fail: true,
        }),
        native.len() > 0 && (forall|i: int|
            0 <= i < merged(native, xml.calls).len() ==> !leaks(
                (#[trigger] merged(native, xml.calls)[i]).args,
            )) ==> !settle(content, reasoning, native, xml, think, false).parse_fail && settle(
            content,
            reasoning,
            native,
            xml,
            think,
            false,
        ).calls == merged(native, xml.calls),
        xml.unclosed ==> settle(content, reasoning, native, xml, think, true).calls == native,
{
}

/// Without native calls, blocks that were written into the thought are run, clear a broken
/// block of the answer, and leave of the thought what stands before them.
pub proof fn law_calls_in_the_thought_are_recovered(
    content: Seq<char>,
    reasoning: Seq<char>,
    xml: FoundV,
    think: FoundV,
)
    requires
        think.calls.len() > 0,
        think.spans.len() > 0 && 0 <= think.spans[0].0 <= reasoning.len(),
        forall|i: int| 0 <= i < think.calls.len() ==> !leaks((#[trigger] think.calls[i]).args),
    ensures
        ({
            let t = settle(content, reasoning, Seq::empty(), xml, think, false);
            &&& t.reasoning == trimmed(reasoning.take(think.spans[0].0))
            &&& xml.unclosed || xml.malformed ==> t.calls == think.calls && !t.parse_fail
            &&& !xml.unclosed && !xml.malformed && xml.calls.len() == 0 ==> t.calls == think.calls
                && !t.parse_fail
        }),
{
}

/// A call whose arguments swallowed the end of a thought and the call behind it is not run,
/// nor is any other of that turn.
pub proof fn law_swallowed_markup_is_a_failure(
    content: Seq<char>,
    reasoning: Seq<char>,
    native: Seq<CallV>,
    xml: FoundV,
    think: FoundV,
    i: int,
)
    requires
        0 <= i < native.len(),
        leaks(native[i].args),
    ensures
        settle(content, reasoning, native, xml, think, false).parse_fail,
        settle(content, reasoning, native, xml, think, false).calls.len() == 0,
        settle(content, reasoning, native, xml, think, false).content == trimmed(content),
{
    law_merge_keeps_ids(native, xml.calls);
    let m = merged(native, xml.calls);
    assert(m.take(native.len() as int)[i] == m[i]);
    assert(leaks(m[i].args));
}

/// A text swallowed markup where a thought closes in it and a call opens behind that; so
/// did a value that holds such a text at any depth.
pub proof fn law_swallowed_markup_is_seen(
    a: Seq<char>,
    b: Seq<char>,
    c: Seq<char>,
    m: Map<Seq<char>, JsonV>,
    k: Seq<char>,
    items: Seq<JsonV>,
    i: int,
)
    ensures
        leaks(JsonV::Str(a + "</think>"@ + b + "<tool_call>"@ + c)),
        !crate::text::holds(a, "</think>"@) ==> !leaks(JsonV::Str(a)),
        m.contains_key(k) && leaks(m[k]) ==> leaks(JsonV::Object(m)),
        0 <= i < items.len() && leaks(items[i]) ==> leaks(JsonV::Array(items)),
{
    reveal_strlit("</think>");
    reveal_strlit("<tool_call>");
    let close = "</think>"@;
    let open = "<tool_call>"@;
    let s = a + close + b + open + c;
    crate::text::lemma_find_from(s, close, 0);
    let n = a.len() as int;
    assert(s.subrange(n, n + 8) =~= close);
    assert(crate::text::at(s, close, n));
    let first = find(s, close)->0;
    assert(first <= n);
    let p = n + 8 + b.len();
    assert(s.subrange(p as int, p + 11) =~= open);
    assert(crate::text::at(s, open, p as int));
    crate::text::lemma_find_from(s, open, first + 8);
    let v = JsonV::Str(s);
    assert(leaks(v));
    crate::text::lemma_find_from(a, close, 0);
    if m.contains_key(k) && leaks(m[k]) {
        let o = JsonV::Object(m);
        assert(leaks(o->Object_0[k]));
    }
    if 0 <= i < items.len() && leaks(items[i]) {
        let o = JsonV::Array(items);
        assert(leaks(o->Array_0[i]));
    }
}

/// A native call has the name, the identifier and the arguments of its item; arguments that
/// are the text of a value are that value, and any other text stays, unless the reply was
/// cut off. An item without a name makes no call.
pub proof fn law_a_native_call_is_read(v: JsonV, truncated: bool)
    ensures
        ({
            let f = v.at("function"@);
            let c = native_call(v, truncated);
            let named = f.text_at("name"@) is Some && f.text_at("name"@)->0.len() > 0;
            &&& !named ==> c is None
            &&& c is Some ==> c->0.id == v.text_at("id"@) && c->0.name == f.text_at("name"@)->0
            &&& named && !(f.at("arguments"@) is Str) ==> c is Some && c->0.args == f.at(
                "arguments"@,
            )
            &&& named && f.text_at("arguments"@) is Some ==> {
                let s = f.text_at("arguments"@)->0;
                &&& parsed_json(s) matches Some(x) ==> c is Some && c->0.args == x
                &&& parsed_json(s) is None && !truncated ==> c is Some && c->0.args == JsonV::Str(s)
                &&& parsed_json(s) is None && truncated ==> c is None
            }
        }),
{
}

/// The native calls of a message are those of its items, in order, and none but those that
/// cannot be read is left out.
pub proof fn law_native_calls_are_read_in_order(items: Seq<JsonV>, x: JsonV, truncated: bool)
    ensures
        native_calls(Seq::empty(), truncated).len() == 0,
        native_calls(items.push(x), truncated) == (match native_call(x, truncated) {
            Some(c) => native_calls(items, truncated).push(c),
            None => native_calls(items, truncated),
        }),
        (forall|i: int| 0 <= i < items.len() ==> native_call(#[trigger] items[i], truncated) is Some)
            ==> native_calls(items, truncated).len() == items.len(),
    decreases items.len(),
{
    assert(items.push(x).drop_last() =~= items);
    if items.len() > 0 {
        let rest = items.drop_last();
        law_native_calls_are_read_in_order(rest, items.last(), truncated);
        if forall|i: int|
            0 <= i < items.len() ==> native_call(#[trigger] items[i], truncated) is Some {
            assert forall|i: int| 0 <= i < rest.len() implies native_call(
                #[trigger] rest[i],
                truncated,
            ) is Some by {
                assert(rest[i] == items[i]);
            }
            assert(native_call(items[items.len() - 1], truncated) is Some);
        }
    }
}

/// The thought of a message is that of its thinking channel, under either name, where that
/// says anything; else it is taken out of the content. The answer is the content without
/// its thoughts either way.
pub proof fn law_the_channels_of_a_message(msg: JsonV)
    ensures
        ({
            let (thought, answer) = channels(msg);
            let told = match msg.text_at("reasoning_content"@) {
                Some(s) => s,
                None => match msg.text_at("reasoning"@) {
                    Some(s) => s,
                    None => Seq::empty(),
                },
            };
            let content = match msg.text_at("content"@) {
                Some(s) => s,
                None => Seq::empty(),
            };
            &&& trimmed(told).len() > 0 ==> thought == trimmed(told)
            &&& msg.text_at("content"@) is Some && trimmed(told).len() == 0 ==> thought == split_of(
                content,
                true,
            ).0
            &&& msg.text_at("content"@) is Some ==> answer == split_of(content, true).1
            &&& msg.text_at("content"@) is Some && !crate::text::holds(content, "<think>"@)
                ==> answer == content
        }),
{
    let content = match msg.text_at("content"@) {
        Some(s) => s,
        None => Seq::empty(),
    };
    if !crate::text::holds(content, "<think>"@) {
        crate::think::law_no_think_is_all_answer(content, true);
    }
}

/// A content in parts is the texts of its parts, one after the other.
pub proof fn law_parts_are_put_together(parts: Seq<JsonV>, x: JsonV, msg: JsonV)
    ensures
        parts_text(Seq::empty()).len() == 0,
        x.text_at("text"@) matches Some(s) ==> parts_text(parts.push(x)) == parts_text(parts) + s,
        x.text_at("text"@) is None ==> parts_text(parts.push(x)) == parts_text(parts),
        msg.at("content"@) == JsonV::Array(parts) ==> content_text(msg) == parts_text(parts),
        msg.at("content"@) is Null ==> content_text(msg).len() == 0,
{
    assert(parts.push(x).drop_last() =~= parts);
    assert(parts_text(parts) + Seq::<char>::empty() =~= parts_text(parts));
}

/// A call goes back to the model under its own identifier and name, with its arguments.
pub proof fn law_calls_go_back_as_they_came(c: CallV)
    ensures
        ({
            let w = raw_call(c);
            &&& c.id matches Some(s) ==> w.text_at("id"@) == Some(s)
            &&& w.text_at("type"@) == Some("function"@)
            &&& w.at("function"@).text_at("name"@) == Some(c.name)
            &&& !(c.args is Str) ==> w.at("function"@).at("arguments"@) == c.args
            &&& c.args matches JsonV::Str(s) ==> w.at("function"@).at("arguments"@) == (
            match parsed_json(s) {
                Some(x) => x,
                None => c.args,
            })
        }),
{
    reveal_strlit("id");
    reveal_strlit("type");
    reveal_strlit("function");
    reveal_strlit("name");
    reveal_strlit("arguments");
    assert("id"@.len() == 2 && "type"@.len() == 4 && "function"@.len() == 8);
    assert("name"@.len() == 4 && "arguments"@.len() == 9);
}

proof fn lemma_nothing_found(x: XmlExtract, s: Seq<char>)
    requires
        extract_of(x, s),
        !s.contains('<'),
    ensures
        found(x) == (FoundV {
            calls: Seq::empty(),
            unclosed: false,
            malformed: false,
            spans: Seq::empty(),
        }),
{
    reveal_strlit("<tool_call>");
    reveal_strlit("<tool_calls>");
    lemma_no_tag(s, "<tool_call>"@);
    lemma_no_tag(s, "<tool_calls>"@);
    crate::xml_tools::law_no_tag_no_block(s);
    assert(calls_view(x.calls@) =~= Seq::<CallV>::empty());
}

proof fn lemma_no_tag(s: Seq<char>, tag: Seq<char>)
    requires
        !s.contains('<'),
        tag.len() > 0,
        tag[0] == '<',
    ensures
        !crate::text::holds(s, tag),
{
    if crate::text::holds(s, tag) {
        let i = choose|i: int| crate::text::at(s, tag, i);
        assert(s.subrange(i, i + tag.len())[0] == s[i]);
        assert(s.contains(s[i]));
    }
}

proof fn lemma_trim_adds_nothing(s: Seq<char>, c: char)
    requires
        !s.contains(c),
    ensures
        !trimmed(s).contains(c),
{
    crate::text::lemma_trim_start(s);
    let a = crate::text::trim_start_of(s);
    crate::text::lemma_trim_end(a);
    let t = trimmed(s);
    if t.contains(c) {
        let i = choose|i: int| 0 <= i < t.len() && t[i] == c;
        assert(t[i] == a[i]);
        assert(a[i] == s[s.len() - a.len() + i]);
        assert(s.contains(c));
    }
}

proof fn lemma_plain_channels(msg: JsonV, content: Seq<char>, thought: Seq<char>)
    requires
        msg.at("content"@) == JsonV::Str(content),
        msg.text_at("reasoning_content"@) == Some(thought),
        !content.contains('<'),
        !thought.contains('<'),
    ensures
        channels(msg) == (trimmed(thought), content),
{
    reveal_strlit("<think>");
    lemma_no_tag(content, "<think>"@);
    crate::think::law_no_think_is_all_answer(content, true);
    if trimmed(thought).len() == 0 {
        assert(trimmed(thought) =~= Seq::<char>::empty());
    }
}

/// A completion without markup and without calls is a turn with its content and its thought,
/// and with no calls.
pub proof fn law_a_plain_completion_is_a_plain_turn(
    t: ModelTurn,
    v: JsonV,
    content: Seq<char>,
    thought: Seq<char>,
    truncated: bool,
)
    requires
        turn_of(t, v, truncated),
        v.at("choices"@).first().at("message"@).at("content"@) == JsonV::Str(content),
        v.at("choices"@).first().at("message"@).text_at("reasoning_content"@) == Some(thought),
        !(v.at("choices"@).first().at("message"@).at("tool_calls"@) is Array),
        !content.contains('<'),
        !thought.contains('<'),
    ensures
        t.content@ == trimmed(content),
        t.reasoning@ == trimmed(thought),
        t.tool_calls@.len() == 0,
        !t.parse_fail,
        !t.watchdog_hit,
        t.raw_tool_calls is None,
{
    let msg = message_of(v);
    lemma_plain_channels(msg, content, thought);
    lemma_trim_adds_nothing(thought, '<');
    let (native, xml, think) = choose|native: Seq<ToolCall>, xml: XmlExtract, think: XmlExtract|
        {
            &&& #[trigger] completed(native, native_of(msg, truncated))
            &&& #[trigger] extract_of(xml, content)
            &&& #[trigger] extract_of(think, trimmed(thought))
            &&& t.settled() == settle(
                content,
                trimmed(thought),
                calls_view(native),
                found(xml),
                found(think),
                truncated,
            )
        };
    lemma_nothing_found(xml, content);
    lemma_nothing_found(think, trimmed(thought));
    assert(calls_view(native) =~= Seq::<CallV>::empty());
    assert(t.settled().calls.len() == t.tool_calls@.len());
}

proof fn lemma_native_all(items: Seq<JsonV>, truncated: bool)
    requires
        forall|i: int| 0 <= i < items.len() ==> native_call(#[trigger] items[i], truncated) is Some,
    ensures
        native_calls(items, truncated).len() == items.len(),
        forall|i: int|
            0 <= i < items.len() ==> Some(#[trigger] native_calls(items, truncated)[i])
                == native_call(items[i], truncated),
    decreases items.len(),
{
    if items.len() > 0 {
        let rest = items.drop_last();
        assert forall|i: int| 0 <= i < rest.len() implies native_call(
            #[trigger] rest[i],
            truncated,
        ) is Some by {
            assert(rest[i] == items[i]);
        }
        lemma_native_all(rest, truncated);
        let n = items.len() - 1;
        assert(native_call(items[n], truncated) is Some);
        let all = native_calls(items, truncated);
        assert forall|i: int| 0 <= i < items.len() implies Some(#[trigger] all[i]) == native_call(
            items[i],
            truncated,
        ) by {
            if i < n {
                assert(all[i] == native_calls(rest, truncated)[i]);
                assert(rest[i] == items[i]);
            }
        }
    }
}

/// A completion with native calls is a turn with just these calls, in their order, each with
/// its name, its arguments and its identifier.
pub proof fn law_native_calls_are_the_turns_calls(
    t: ModelTurn,
    v: JsonV,
    content: Seq<char>,
    thought: Seq<char>,
    items: Seq<JsonV>,
)
    requires
        turn_of(t, v, false),
        v.at("choices"@).first().at("message"@).at("content"@) == JsonV::Str(content),
        v.at("choices"@).first().at("message"@).text_at("reasoning_content"@) == Some(thought),
        v.at("choices"@).first().at("message"@).at("tool_calls"@) == JsonV::Array(items),
        !content.contains('<'),
        !thought.contains('<'),
        items.len() > 0,
        forall|i: int|
            0 <= i < items.len() ==> {
                &&& (#[trigger] items[i]).at("function"@).text_at("name"@) is Some
                &&& items[i].at("function"@).text_at("name"@)->0.len() > 0
                &&& items[i].at("function"@).at("arguments"@) is Object
                &&& !leaks(items[i].at("function"@).at("arguments"@))
            },
    ensures
        !t.parse_fail,
        t.content@ == trimmed(content),
        t.reasoning@ == trimmed(thought),
        t.tool_calls@.len() == items.len(),
        forall|i: int|
            0 <= i < items.len() ==> {
                &&& (#[trigger] t.tool_calls@[i]).name@ == items[i].at("function"@).text_at(
                    "name"@,
                )->0
                &&& t.tool_calls@[i].arguments@ == items[i].at("function"@).at("arguments"@)
                &&& items[i].text_at("id"@) matches Some(id) ==> t.tool_calls@[i].id@ == id
            },
{
    let msg = message_of(v);
    lemma_plain_channels(msg, content, thought);
    lemma_trim_adds_nothing(thought, '<');
    let (native, xml, think) = choose|native: Seq<ToolCall>, xml: XmlExtract, think: XmlExtract|
        {
            &&& #[trigger] completed(native, native_of(msg, false))
            &&& #[trigger] extract_of(xml, content)
            &&& #[trigger] extract_of(think, trimmed(thought))
            &&& t.settled() == settle(
                content,
                trimmed(thought),
                calls_view(native),
                found(xml),
                found(think),
                false,
            )
        };
    lemma_nothing_found(xml, content);
    lemma_nothing_found(think, trimmed(thought));
    assert forall|i: int| 0 <= i < items.len() implies native_call(
        #[trigger] items[i],
        false,
    ) is Some by {}
    lemma_native_all(items, false);
    let ds = native_calls(items, false);
    let cs = calls_view(native);
    assert(native_of(msg, false) == ds);
    assert forall|i: int| 0 <= i < cs.len() implies !leaks((#[trigger] cs[i]).args) by {
        assert(native[i].arguments@ == ds[i].args);
        assert(Some(ds[i]) == native_call(items[i], false));
        assert(items[i].at("function"@).at("arguments"@) is Object);
    }
    law_a_plain_turn_is_taken_as_it_is(
        content,
        trimmed(thought),
        cs,
        found(xml),
        found(think),
        false,
    );
    let r = calls_view(t.tool_calls@);
    assert(r == cs);
    assert forall|i: int| 0 <= i < items.len() implies {
        &&& (#[trigger] t.tool_calls@[i]).name@ == items[i].at("function"@).text_at("name"@)->0
        &&& t.tool_calls@[i].arguments@ == items[i].at("function"@).at("arguments"@)
        &&& items[i].text_at("id"@) matches Some(id) ==> t.tool_calls@[i].id@ == id
    } by {
        assert(r[i] == t.tool_calls@[i]@);
        assert(cs[i] == native[i]@);
        assert(native[i].name@ == ds[i].name);
        assert(Some(ds[i]) == native_call(items[i], false));
        assert(items[i].at("function"@).at("arguments"@) is Object);
    }
}

/// Nothing is swallowed by a number, a truth value or nothing at all; nor by a list or an
/// object none of whose values swallowed anything.
pub proof fn law_what_swallows_nothing(
    i: int,
    b: bool,
    items: Seq<JsonV>,
    m: Map<Seq<char>, JsonV>,
)
    ensures
        !leaks(JsonV::Int(i)),
        !leaks(JsonV::Bool(b)),
        !leaks(JsonV::Null),
        (forall|j: int| 0 <= j < items.len() ==> !leaks(#[trigger] items[j])) ==> !leaks(
            JsonV::Array(items),
        ),
        (forall|k: Seq<char>| m.contains_key(k) ==> !leaks(#[trigger] m[k])) ==> !leaks(
            JsonV::Object(m),
        ),
{
    if forall|j: int| 0 <= j < items.len() ==> !leaks(#[trigger] items[j]) {
        let v = JsonV::Array(items);
        assert(v->Array_0 == items);
    }
    if forall|k: Seq<char>| m.contains_key(k) ==> !leaks(#[trigger] m[k]) {
        let v = JsonV::Object(m);
        assert(v->Object_0 == m);
    }
}

} // verus!
