//! The transcript: messages, what they cost, and which files they show.

use vstd::prelude::*;
use vstd::utf8::encode_utf8;
use crate::channel::envelope::{media_view, MediaKind, MediaPart, MediaV};
use crate::guard::{edited_path, fs_edit_path};
use crate::json::{items_view, lemma_items_push, lemma_items_view, opt_text, put, Json, JsonV};
use crate::outside::{json_text, print_json, settled_json};
use crate::table::{bound, Table};
use crate::text::{
    contains, has_prefix, holds, replace_char, same, starts_with, strip_trailing, texts, trim,
    trim_start_of, trimmed, with_char, without_trailing,
};
use crate::turn::{openai_tool_calls, raw_calls, ModelTurn};
use crate::xml_tools::{calls_view, unpack, unpacked};

verus! {

/// One message of the transcript.
#[derive(Debug, PartialEq, Eq)]
pub struct Message {
    pub role: String,
    pub content: Option<String>,
    pub reasoning_content: Option<String>,
    pub tool_calls: Option<Vec<Json>>,
    pub tool_call_id: Option<String>,
    pub parts: Vec<MediaPart>,
    /// Put there behind the user's back.
    pub hidden: bool,
}

pub ghost struct MessageV {
    pub role: Seq<char>,
    pub content: Option<Seq<char>>,
    pub reasoning: Option<Seq<char>>,
    pub tool_calls: Option<Seq<JsonV>>,
    pub tool_call_id: Option<Seq<char>>,
    pub parts: Seq<MediaV>,
    pub hidden: bool,
}

impl View for Message {
    type V = MessageV;

    open spec fn view(&self) -> MessageV {
        MessageV {
            role: self.role@,
            content: opt_text(self.content),
            reasoning: opt_text(self.reasoning_content),
            tool_calls: match self.tool_calls {
                Some(v) => Some(items_view(v@)),
                None => None,
            },
            tool_call_id: opt_text(self.tool_call_id),
            parts: media_view(self.parts@),
            hidden: self.hidden,
        }
    }
}

pub open spec fn messages_view(v: Seq<Message>) -> Seq<MessageV> {
    v.map_values(|m: Message| m@)
}

// ---------------------------------------------------------------------------
// The user's words
// ---------------------------------------------------------------------------

/// The last message that the user wrote, nothing where there is none.
pub open spec fn last_user(ms: Seq<MessageV>) -> Seq<char>
    decreases ms.len(),
{
    if ms.len() == 0 {
        Seq::empty()
    } else if ms.last().role == "user"@ && !ms.last().hidden {
        match ms.last().content {
            Some(s) => s,
            None => Seq::empty(),
        }
    } else {
        last_user(ms.drop_last())
    }
}

/// The last message that the user wrote.
pub fn last_real_user(messages: &Vec<Message>) -> (r: String)
    ensures
        r@ == last_user(messages_view(messages@)),
{
    let ghost ms = messages_view(messages@);
    let mut n: usize = messages.len();
    assert(ms.take(n as int) =~= ms);
    while n > 0
        invariant
            n <= messages@.len(),
            ms == messages_view(messages@),
            last_user(ms) == last_user(ms.take(n as int)),
        decreases n,
    {
        let m = &messages[n - 1];
        assert(ms.take(n as int).last() == m@);
        assert(ms.take(n as int).drop_last() =~= ms.take(n - 1));
        if same(m.role.as_str(), "user") && !m.hidden {
            return match &m.content {
                Some(s) => s.clone(),
                None => String::new(),
            };
        }
        n = n - 1;
    }
    String::new()
}

// ---------------------------------------------------------------------------
// Counting
// ---------------------------------------------------------------------------

/// How many results of tools there are.
pub open spec fn tool_messages(ms: Seq<MessageV>) -> nat
    decreases ms.len(),
{
    if ms.len() == 0 {
        0
    } else {
        tool_messages(ms.drop_last()) + if ms.last().role == "tool"@ {
            1nat
        } else {
            0nat
        }
    }
}

/// How many results of tools there are.
pub fn live_tool_count(messages: &Vec<Message>) -> (r: usize)
    ensures
        r == tool_messages(messages_view(messages@)),
{
    let ghost ms = messages_view(messages@);
    let mut n: usize = 0;
    let mut i: usize = 0;
    while i < messages.len()
        invariant
            i <= messages@.len(),
            ms == messages_view(messages@),
            n <= i,
            n == tool_messages(ms.take(i as int)),
        decreases messages.len() - i,
    {
        assert(ms.take(i + 1).drop_last() =~= ms.take(i as int));
        assert(ms.take(i + 1).last() == messages@[i as int]@);
        if same(messages[i].role.as_str(), "tool") {
            n = n + 1;
        }
        i = i + 1;
    }
    assert(ms.take(i as int) =~= ms);
    n
}

/// How many of the parts are pictures.
pub open spec fn images(ps: Seq<MediaV>) -> nat
    decreases ps.len(),
{
    if ps.len() == 0 {
        0
    } else {
        images(ps.drop_last()) + if ps.last().kind == MediaKind::Image {
            1nat
        } else {
            0nat
        }
    }
}

/// How many pictures there are.
pub open spec fn image_parts(ms: Seq<MessageV>) -> nat
    decreases ms.len(),
{
    if ms.len() == 0 {
        0
    } else {
        image_parts(ms.drop_last()) + images(ms.last().parts)
    }
}

pub open spec fn at_most(n: nat, max: nat) -> nat {
    if n > max {
        max
    } else {
        n
    }
}

fn plus(a: u64, b: u64) -> (r: u64)
    ensures
        r == at_most(a as nat + b as nat, u64::MAX as nat),
{
    if b > u64::MAX - a {
        u64::MAX
    } else {
        a + b
    }
}

fn count_images(parts: &Vec<MediaPart>) -> (r: usize)
    ensures
        r == images(media_view(parts@)),
{
    let ghost ps = media_view(parts@);
    let mut n: usize = 0;
    let mut i: usize = 0;
    while i < parts.len()
        invariant
            i <= parts@.len(),
            ps == media_view(parts@),
            n <= i,
            n == images(ps.take(i as int)),
        decreases parts.len() - i,
    {
        assert(ps.take(i + 1).drop_last() =~= ps.take(i as int));
        assert(ps.take(i + 1).last() == parts@[i as int]@);
        if parts[i].kind == MediaKind::Image {
            n = n + 1;
        }
        i = i + 1;
    }
    assert(ps.take(i as int) =~= ps);
    n
}

/// How many pictures there are.
pub fn live_image_count(messages: &Vec<Message>) -> (r: u64)
    ensures
        r == at_most(image_parts(messages_view(messages@)), u64::MAX as nat),
{
    let ghost ms = messages_view(messages@);
    let mut n: u64 = 0;
    let mut i: usize = 0;
    while i < messages.len()
        invariant
            i <= messages@.len(),
            ms == messages_view(messages@),
            n == at_most(image_parts(ms.take(i as int)), u64::MAX as nat),
        decreases messages.len() - i,
    {
        assert(ms.take(i + 1).drop_last() =~= ms.take(i as int));
        assert(ms.take(i + 1).last() == messages@[i as int]@);
        n = plus(n, count_images(&messages[i].parts) as u64);
        i = i + 1;
    }
    assert(ms.take(i as int) =~= ms);
    n
}

// ---------------------------------------------------------------------------
// A cheap estimate
// ---------------------------------------------------------------------------

pub open spec fn bytes_of(s: Seq<char>) -> nat {
    encode_utf8(s).len()
}

/// What a text is charged: its bytes, but embedded media by a flat rate.
pub open spec fn charge(s: Seq<char>) -> nat {
    if has_prefix(s, "data:"@) {
        1024
    } else if bytes_of(s) > 16384 && (holds(s, "data:image"@) || holds(s, ";base64,"@)) {
        2048
    } else {
        bytes_of(s)
    }
}

/// What a text is charged.
pub fn charged_text_len(s: &str) -> (r: usize)
    ensures
        r == charge(s@),
{
    if starts_with(s, "data:") {
        return 1024;
    }
    let n: usize = s.as_bytes().len();
    if n > 16384 && (contains(s, "data:image") || contains(s, ";base64,")) {
        2048
    } else {
        n
    }
}

pub open spec fn opt_charge(s: Option<Seq<char>>) -> nat {
    match s {
        Some(t) => charge(t),
        None => 0,
    }
}

/// What a value is charged: the bytes of its text.
pub open spec fn value_charge(v: JsonV) -> nat {
    bytes_of(json_text(settled_json(v)))
}

pub open spec fn values_charge(vs: Seq<JsonV>) -> nat
    decreases vs.len(),
{
    if vs.len() == 0 {
        0
    } else {
        values_charge(vs.drop_last()) + value_charge(vs.last())
    }
}

/// What a part is charged.
pub open spec fn part_charge(p: MediaV) -> nat {
    if has_prefix(p.url, "data:"@) {
        1024
    } else {
        at_most(bytes_of(p.url), 256)
    }
}

pub open spec fn parts_charge(ps: Seq<MediaV>) -> nat
    decreases ps.len(),
{
    if ps.len() == 0 {
        0
    } else {
        parts_charge(ps.drop_last()) + part_charge(ps.last())
    }
}

/// What a message is charged.
pub open spec fn message_charge(m: MessageV, keep_reasoning: bool) -> nat {
    opt_charge(m.content) + (if keep_reasoning {
        opt_charge(m.reasoning)
    } else {
        0
    }) + (match m.tool_calls {
        Some(cs) => values_charge(cs),
        None => 0,
    }) + parts_charge(m.parts)
}

pub open spec fn messages_charge(ms: Seq<MessageV>, keep_reasoning: bool) -> nat
    decreases ms.len(),
{
    if ms.len() == 0 {
        0
    } else {
        messages_charge(ms.drop_last(), keep_reasoning) + message_charge(
            ms.last(),
            keep_reasoning,
        )
    }
}

/// The estimate: a token for every four bytes.
pub open spec fn estimate(ms: Seq<MessageV>, tools: Seq<JsonV>, keep_reasoning: bool) -> nat {
    at_most(
        at_most(
            messages_charge(ms, keep_reasoning) + values_charge(tools),
            u64::MAX as nat,
        ) / 4,
        u32::MAX as nat,
    )
}

fn charge_values(vs: &Vec<Json>) -> (r: u64)
    ensures
        r == at_most(values_charge(items_view(vs@)), u64::MAX as nat),
{
    proof {
        lemma_items_view(vs@);
    }
    let ghost all = items_view(vs@);
    let mut n: u64 = 0;
    let mut i: usize = 0;
    assert(all.take(0) =~= Seq::empty());
    while i < vs.len()
        invariant
            i <= vs@.len() == all.len(),
            forall|j: int| 0 <= j < all.len() ==> #[trigger] all[j] == vs@[j]@,
            n == at_most(values_charge(all.take(i as int)), u64::MAX as nat),
        decreases vs.len() - i,
    {
        assert(all.take(i + 1).drop_last() =~= all.take(i as int));
        assert(all.take(i + 1).last() == vs@[i as int]@);
        let t = print_json(&vs[i]);
        n = plus(n, t.as_str().as_bytes().len() as u64);
        i = i + 1;
    }
    assert(all.take(i as int) =~= all);
    n
}

fn charge_parts(parts: &Vec<MediaPart>) -> (r: u64)
    ensures
        r == at_most(parts_charge(media_view(parts@)), u64::MAX as nat),
{
    let ghost ps = media_view(parts@);
    let mut n: u64 = 0;
    let mut i: usize = 0;
    assert(ps.take(0) =~= Seq::empty());
    while i < parts.len()
        invariant
            i <= parts@.len(),
            ps == media_view(parts@),
            n == at_most(parts_charge(ps.take(i as int)), u64::MAX as nat),
        decreases parts.len() - i,
    {
        assert(ps.take(i + 1).drop_last() =~= ps.take(i as int));
        assert(ps.take(i + 1).last() == parts@[i as int]@);
        let url = parts[i].url.as_str();
        let c: u64 = if starts_with(url, "data:") {
            1024
        } else {
            let len: usize = url.as_bytes().len();
            if len > 256 {
                256
            } else {
                len as u64
            }
        };
        n = plus(n, c);
        i = i + 1;
    }
    assert(ps.take(i as int) =~= ps);
    n
}

fn charge_text(s: &Option<String>) -> (r: u64)
    ensures
        r == opt_charge(opt_text(*s)),
{
    match s {
        Some(t) => charged_text_len(t.as_str()) as u64,
        None => 0,
    }
}

fn charge_message(m: &Message, keep_reasoning: bool) -> (r: u64)
    ensures
        r == at_most(message_charge(m@, keep_reasoning), u64::MAX as nat),
{
    let a: u64 = charge_text(&m.content);
    let b: u64 = if keep_reasoning {
        charge_text(&m.reasoning_content)
    } else {
        0
    };
    let c: u64 = match &m.tool_calls {
        Some(v) => charge_values(v),
        None => 0,
    };
    plus(plus(plus(a, b), c), charge_parts(&m.parts))
}

/// A cheap estimate of how many tokens a transcript has.
pub fn estimate_prefix_tokens(
    messages: &Vec<Message>,
    tools: &Vec<Json>,
    keep_reasoning: bool,
) -> (r: u32)
    ensures
        r == estimate(messages_view(messages@), items_view(tools@), keep_reasoning),
{
    let ghost ms = messages_view(messages@);
    let mut n: u64 = 0;
    let mut i: usize = 0;
    assert(ms.take(0) =~= Seq::empty());
    while i < messages.len()
        invariant
            i <= messages@.len(),
            ms == messages_view(messages@),
            n == at_most(messages_charge(ms.take(i as int), keep_reasoning), u64::MAX as nat),
        decreases messages.len() - i,
    {
        assert(ms.take(i + 1).drop_last() =~= ms.take(i as int));
        assert(ms.take(i + 1).last() == messages@[i as int]@);
        n = plus(n, charge_message(&messages[i], keep_reasoning));
        i = i + 1;
    }
    assert(ms.take(i as int) =~= ms);
    let tokens: u64 = plus(n, charge_values(tools)) / 4;
    if tokens > u32::MAX as u64 {
        u32::MAX
    } else {
        tokens as u32
    }
}

// ---------------------------------------------------------------------------
// A reply as a message
// ---------------------------------------------------------------------------

/// A text without the space around it, where anything is left.
pub open spec fn some_text(s: Seq<char>) -> Option<Seq<char>> {
    if trimmed(s).len() == 0 {
        None
    } else {
        Some(trimmed(s))
    }
}

/// A text without the space around it, where anything is left.
pub fn empty_to_none(s: &str) -> (r: Option<String>)
    ensures
        opt_text(r) == some_text(s@),
{
    let t = trim(s);
    if t.as_str().is_empty() {
        None
    } else {
        Some(t)
    }
}

/// A call as it is kept: arguments given as the text of a value are that value.
pub open spec fn normalized_call(v: JsonV) -> JsonV {
    match v.field2("function"@, "arguments"@) {
        Some(a) => put(v, "function"@, put(v.at("function"@), "arguments"@, unpacked(a))),
        None => v,
    }
}

/// A call as it is kept.
pub fn normalize_one_tool_call(v: &Json) -> (r: Json)
    ensures
        r@ == normalized_call(v@),
{
    match v.get("function") {
        Some(f) => match f.get("arguments") {
            Some(a) => {
                let g = f.copy().with("arguments", unpack(a));
                v.copy().with("function", g)
            },
            None => v.copy(),
        },
        None => v.copy(),
    }
}

/// The calls as they are kept.
pub fn normalize_tool_calls(calls: &Vec<Json>) -> (r: Vec<Json>)
    ensures
        items_view(r@) == items_view(calls@).map_values(|v: JsonV| normalized_call(v)),
{
    proof {
        lemma_items_view(calls@);
    }
    let ghost all = items_view(calls@).map_values(|v: JsonV| normalized_call(v));
    let mut out: Vec<Json> = Vec::new();
    let mut i: usize = 0;
    assert(items_view(out@) =~= Seq::empty());
    while i < calls.len()
        invariant
            i <= calls@.len() == all.len(),
            forall|j: int| 0 <= j < calls@.len() ==> #[trigger] items_view(calls@)[j] == calls@[j]@,
            all == items_view(calls@).map_values(|v: JsonV| normalized_call(v)),
            items_view(calls@).len() == calls@.len(),
            items_view(out@) =~= all.take(i as int),
        decreases calls.len() - i,
    {
        let j = normalize_one_tool_call(&calls[i]);
        proof {
            lemma_items_push(out@, j);
            assert(items_view(calls@)[i as int] == calls@[i as int]@);
            assert(all[i as int] == j@);
            assert(all.take(i + 1) =~= all.take(i as int).push(j@));
        }
        out.push(j);
        i = i + 1;
    }
    assert(all.take(i as int) =~= all);
    out
}

/// The calls that a reply is kept with.
pub open spec fn kept_calls(t: ModelTurn) -> Option<Seq<JsonV>> {
    if t.tool_calls@.len() == 0 {
        None
    } else {
        Some(
            match t.raw_tool_calls {
                Some(raw) => items_view(raw@).map_values(|v: JsonV| normalized_call(v)),
                None => raw_calls(calls_view(t.tool_calls@)),
            },
        )
    }
}

/// A reply as a message: beside calls a blank content is left out.
pub open spec fn assistant_of(t: ModelTurn) -> MessageV {
    MessageV {
        role: "assistant"@,
        content: if t.tool_calls@.len() == 0 {
            Some(t.content@)
        } else {
            some_text(t.content@)
        },
        reasoning: some_text(t.reasoning@),
        tool_calls: kept_calls(t),
        tool_call_id: None,
        parts: Seq::empty(),
        hidden: false,
    }
}

/// A reply as a message.
pub fn assistant_message(turn: &ModelTurn) -> (r: Message)
    ensures
        r@ == assistant_of(*turn),
{
    let quiet: bool = turn.tool_calls.len() == 0;
    let tool_calls: Option<Vec<Json>> = if quiet {
        None
    } else {
        match &turn.raw_tool_calls {
            Some(raw) => Some(normalize_tool_calls(raw)),
            None => Some(openai_tool_calls(&turn.tool_calls)),
        }
    };
    let content: Option<String> = if quiet {
        Some(turn.content.clone())
    } else {
        empty_to_none(turn.content.as_str())
    };
    let parts: Vec<MediaPart> = Vec::new();
    assert(media_view(parts@) =~= Seq::empty());
    Message {
        role: "assistant".to_owned(),
        content,
        reasoning_content: empty_to_none(turn.reasoning.as_str()),
        tool_calls,
        tool_call_id: None,
        parts,
        hidden: false,
    }
}

// ---------------------------------------------------------------------------
// Which files the transcript shows
// ---------------------------------------------------------------------------

/// A path as it is compared: forward slashes, none at its end.
pub open spec fn canonical(p: Seq<char>) -> Seq<char> {
    without_trailing(with_char(p, '\\', '/'), '/')
}

/// A path as it is compared.
pub fn canon_read_path(path: &str) -> (r: String)
    ensures
        r@ == canonical(path@),
{
    strip_trailing(replace_char(path, '\\', '/').as_str(), '/')
}

/// A path as it is compared: as the workspace resolves it, else as it was given.
pub fn canon_ws_path(resolved: Option<&str>, path: &str) -> (r: String)
    ensures
        r@ == canonical(
            match resolved {
                Some(p) => p@,
                None => path@,
            },
        ),
{
    match resolved {
        Some(p) => canon_read_path(p),
        None => canon_read_path(path),
    }
}

/// A tool's result that says it failed.
pub open spec fn failed_text(text: Seq<char>) -> bool {
    let t = trim_start_of(text);
    ||| has_prefix(t, "Error:"@)
    ||| has_prefix(t, "plan mode:"@)
    ||| has_prefix(t, "User denied"@)
    ||| has_prefix(t, "tool task aborted"@)
    ||| trimmed(text) == "cancelled"@
    ||| trimmed(text) == "timeout"@
}

fn trim_start(s: &str) -> (r: String)
    ensures
        r@ == trim_start_of(s@),
{
    let cs = crate::text::chars_of(s);
    let mut i: usize = 0;
    assert(cs@.skip(0) =~= s@);
    while i < cs.len() && crate::text::is_white(cs[i])
        invariant
            i <= cs@.len(),
            trim_start_of(s@) == trim_start_of(cs@.skip(i as int)),
        decreases cs.len() - i,
    {
        assert(cs@.skip(i as int).skip(1) =~= cs@.skip(i + 1));
        i = i + 1;
    }
    let t = crate::text::string_of(&cs, i, cs.len());
    assert(t@ =~= cs@.skip(i as int));
    t
}

/// Whether a tool's result says it failed.
pub fn tool_text_failed(text: &str) -> (r: bool)
    ensures
        r == failed_text(text@),
{
    let s = trim_start(text);
    let t = s.as_str();
    if starts_with(t, "Error:") || starts_with(t, "plan mode:") || starts_with(t, "User denied")
        || starts_with(t, "tool task aborted") {
        return true;
    }
    let whole = trim(text);
    same(whole.as_str(), "cancelled") || same(whole.as_str(), "timeout")
}

/// Whether the last result for a call, among the messages, says that it went well.
pub open spec fn call_ok(ms: Seq<MessageV>, id: Seq<char>) -> bool
    decreases ms.len(),
{
    if ms.len() == 0 {
        false
    } else if ms.last().role == "tool"@ && ms.last().tool_call_id == Some(id) {
        !failed_text(
            match ms.last().content {
                Some(s) => s,
                None => Seq::empty(),
            },
        )
    } else {
        call_ok(ms.drop_last(), id)
    }
}

fn is_call_ok(messages: &Vec<Message>, id: &str) -> (r: bool)
    ensures
        r == call_ok(messages_view(messages@), id@),
{
    let ghost ms = messages_view(messages@);
    let mut n: usize = messages.len();
    assert(ms.take(n as int) =~= ms);
    while n > 0
        invariant
            n <= messages@.len(),
            ms == messages_view(messages@),
            call_ok(ms, id@) == call_ok(ms.take(n as int), id@),
        decreases n,
    {
        let m = &messages[n - 1];
        assert(ms.take(n as int).last() == m@);
        assert(ms.take(n as int).drop_last() =~= ms.take(n - 1));
        if same(m.role.as_str(), "tool") {
            if let Some(t) = &m.tool_call_id {
                if same(t.as_str(), id) {
                    return match &m.content {
                        Some(s) => !tool_text_failed(s.as_str()),
                        None => !tool_text_failed(String::new().as_str()),
                    };
                }
            }
        }
        n = n - 1;
    }
    false
}

/// A tool that shows or writes a file.
pub open spec fn shows_file(name: Seq<char>) -> bool {
    name == "read"@ || name == "view"@ || name == "write"@ || name == "edit"@
}

/// The file that a call shows, where its result says that it went well.
pub open spec fn shown_by(ms: Seq<MessageV>, c: JsonV) -> Option<Seq<char>> {
    let f = c.at("function"@);
    let id = match c.text_at("id"@) {
        Some(s) => s,
        None => Seq::empty(),
    };
    match f.text_at("name"@) {
        Some(name) => if shows_file(name) && call_ok(ms, id) {
            edited_path(unpacked(f.at("arguments"@)))
        } else {
            None
        },
        None => None,
    }
}

/// The files that a list of calls shows.
pub open spec fn shown_by_calls(ms: Seq<MessageV>, cs: Seq<JsonV>) -> Seq<Seq<char>>
    decreases cs.len(),
{
    if cs.len() == 0 {
        Seq::empty()
    } else {
        let before = shown_by_calls(ms, cs.drop_last());
        match shown_by(ms, cs.last()) {
            Some(p) => before.push(p),
            None => before,
        }
    }
}

/// The files that the first `n` messages show by calls whose results went well.
pub open spec fn shown_paths(ms: Seq<MessageV>, n: nat) -> Seq<Seq<char>>
    decreases n,
{
    if n == 0 || n > ms.len() {
        Seq::empty()
    } else {
        let before = shown_paths(ms, (n - 1) as nat);
        let m = ms[n - 1];
        match m.tool_calls {
            Some(cs) => if m.role == "assistant"@ {
                before + shown_by_calls(ms, cs)
            } else {
                before
            },
            None => before,
        }
    }
}

fn path_shown_by(messages: &Vec<Message>, c: &Json) -> (r: Option<String>)
    ensures
        opt_text(r) == shown_by(messages_view(messages@), c@),
{
    let f = match c.get("function") {
        Some(f) => f,
        None => {
            return None;
        },
    };
    let name: String = match f.text_at("name") {
        Some(s) => s.to_owned(),
        None => {
            return None;
        },
    };
    let n = name.as_str();
    if !(same(n, "read") || same(n, "view") || same(n, "write") || same(n, "edit")) {
        return None;
    }
    let id: String = match c.text_at("id") {
        Some(s) => s.to_owned(),
        None => String::new(),
    };
    if !is_call_ok(messages, id.as_str()) {
        return None;
    }
    let args: Json = match f.get("arguments") {
        Some(a) => unpack(a),
        None => Json::Null,
    };
    fs_edit_path(&args)
}

/// The files whose content the transcript shows, as the calls name them.
pub fn shown_in_messages(messages: &Vec<Message>) -> (r: Vec<String>)
    ensures
        texts(r@) == shown_paths(messages_view(messages@), messages@.len()),
{
    let ghost ms = messages_view(messages@);
    let mut out: Vec<String> = Vec::new();
    let mut i: usize = 0;
    assert(texts(out@) =~= Seq::empty());
    while i < messages.len()
        invariant
            i <= messages@.len(),
            ms == messages_view(messages@),
            texts(out@) == shown_paths(ms, i as nat),
        decreases messages.len() - i,
    {
        let m = &messages[i];
        assert(ms[i as int] == m@);
        if same(m.role.as_str(), "assistant") {
            if let Some(calls) = &m.tool_calls {
                let ghost before = texts(out@);
                let ghost cs = items_view(calls@);
                proof {
                    lemma_items_view(calls@);
                    assert(cs.take(0) =~= Seq::empty());
                    assert(before + shown_by_calls(ms, cs.take(0)) =~= before);
                }
                let mut k: usize = 0;
                while k < calls.len()
                    invariant
                        k <= calls@.len() == cs.len(),
                        ms == messages_view(messages@),
                        forall|j: int| 0 <= j < cs.len() ==> #[trigger] cs[j] == calls@[j]@,
                        texts(out@) == before + shown_by_calls(ms, cs.take(k as int)),
                    decreases calls.len() - k,
                {
                    assert(cs.take(k + 1).drop_last() =~= cs.take(k as int));
                    assert(cs.take(k + 1).last() == calls@[k as int]@);
                    if let Some(p) = path_shown_by(messages, &calls[k]) {
                        let ghost had = out@;
                        out.push(p);
                        proof {
                            assert(texts(out@) =~= texts(had).push(p@));
                            let s = shown_by_calls(ms, cs.take(k as int));
                            assert((before + s).push(p@) =~= before + s.push(p@));
                        }
                    }
                    k = k + 1;
                }
                assert(cs.take(k as int) =~= cs);
            }
        }
        i = i + 1;
    }
    out
}

/// The key of a path as a call names it: the canonical form of what the workspace
/// resolves it to, or of the path itself where it resolves it to nothing.
pub open spec fn key_in(resolved: Map<Seq<char>, Seq<char>>, path: Seq<char>) -> Seq<char> {
    canonical(
        match bound(resolved, path) {
            Some(p) => p,
            None => path,
        },
    )
}

/// The keys of the files whose content a transcript shows.
pub open spec fn shown_keys(ms: Seq<MessageV>, resolved: Map<Seq<char>, Seq<char>>) -> Seq<
    Seq<char>,
> {
    shown_paths(ms, ms.len()).map_values(|p: Seq<char>| key_in(resolved, p))
}

/// The keys of the files whose content the transcript shows. `resolved` binds a path,
/// as a call names it, to what the workspace resolves it to.
pub fn observed_from_messages(messages: &Vec<Message>, resolved: &Table) -> (r: Vec<String>)
    ensures
        texts(r@) == shown_keys(messages_view(messages@), resolved@),
{
    let ghost shown = shown_paths(messages_view(messages@), messages@.len());
    let paths = shown_in_messages(messages);
    assert(texts(paths@).len() == paths@.len());
    let mut out: Vec<String> = Vec::new();
    let mut i: usize = 0;
    while i < paths.len()
        invariant
            i <= paths@.len() == shown.len(),
            texts(paths@) == shown,
            out@.len() == i,
            forall|j: int| 0 <= j < i ==> (#[trigger] out@[j])@ == key_in(resolved@, shown[j]),
        decreases paths.len() - i,
    {
        let p = paths[i].as_str();
        assert(shown[i as int] == p@);
        let key = match resolved.get(p) {
            Some(full) => canon_ws_path(Some(full.as_str()), p),
            None => canon_ws_path(None, p),
        };
        out.push(key);
        i = i + 1;
    }
    assert(texts(out@) =~= shown.map_values(|p: Seq<char>| key_in(resolved@, p)));
    out
}

/// The file that a call shows is among those that its list shows.
proof fn lemma_call_shows(ms: Seq<MessageV>, cs: Seq<JsonV>, k: int)
    requires
        0 <= k < cs.len(),
        shown_by(ms, cs[k]) is Some,
    ensures
        shown_by_calls(ms, cs).contains(shown_by(ms, cs[k])->0),
    decreases cs.len(),
{
    let p = shown_by(ms, cs[k])->0;
    let before = shown_by_calls(ms, cs.drop_last());
    let all = shown_by_calls(ms, cs);
    if k == cs.len() - 1 {
        assert(all[all.len() - 1] == p);
    } else {
        assert(cs.drop_last()[k] == cs[k]);
        lemma_call_shows(ms, cs.drop_last(), k);
        let j = choose|j: int| 0 <= j < before.len() && before[j] == p;
        assert(all[j] == p);
    }
}

/// The file that a call shows is among those that the first `n` messages show.
proof fn lemma_message_shows(ms: Seq<MessageV>, n: nat, i: int, k: int)
    requires
        0 <= i < n <= ms.len(),
        ms[i].role == "assistant"@,
        ms[i].tool_calls is Some,
        0 <= k < ms[i].tool_calls->0.len(),
        shown_by(ms, ms[i].tool_calls->0[k]) is Some,
    ensures
        shown_paths(ms, n).contains(shown_by(ms, ms[i].tool_calls->0[k])->0),
    decreases n,
{
    let p = shown_by(ms, ms[i].tool_calls->0[k])->0;
    let before = shown_paths(ms, (n - 1) as nat);
    let all = shown_paths(ms, n);
    if i == n - 1 {
        let cs = ms[i].tool_calls->0;
        lemma_call_shows(ms, cs, k);
        let j = choose|j: int|
            0 <= j < shown_by_calls(ms, cs).len() && shown_by_calls(ms, cs)[j] == p;
        assert(all[before.len() + j] == p);
    } else {
        lemma_message_shows(ms, (n - 1) as nat, i, k);
        let j = choose|j: int| 0 <= j < before.len() && before[j] == p;
        assert(all[j] == p);
    }
}

/// A file that a call of the transcript shows, by a result that went well, is among
/// the observed ones under its key.
pub proof fn law_what_a_call_shows_is_observed(
    ms: Seq<MessageV>,
    resolved: Map<Seq<char>, Seq<char>>,
    i: int,
    k: int,
)
    requires
        0 <= i < ms.len(),
        ms[i].role == "assistant"@,
        ms[i].tool_calls is Some,
        0 <= k < ms[i].tool_calls->0.len(),
        shown_by(ms, ms[i].tool_calls->0[k]) is Some,
    ensures
        shown_keys(ms, resolved).contains(
            key_in(resolved, shown_by(ms, ms[i].tool_calls->0[k])->0),
        ),
{
    let p = shown_by(ms, ms[i].tool_calls->0[k])->0;
    lemma_message_shows(ms, ms.len(), i, k);
    let all = shown_paths(ms, ms.len());
    let j = choose|j: int| 0 <= j < all.len() && all[j] == p;
    assert(shown_keys(ms, resolved)[j] == key_in(resolved, p));
}

// ---------------------------------------------------------------------------
// Results of tools
// ---------------------------------------------------------------------------

/// What a tool's result leaves: a message, and what the log keeps of a long text.
#[derive(Debug, PartialEq, Eq)]
pub struct Committed {
    pub message: Message,
    /// Where the whole text is kept.
    pub blob: Option<String>,
    /// How long the whole text is, where it is kept.
    pub original_chars: Option<u64>,
}

/// What a tool's result leaves.
pub fn commit_tool(
    id: &str,
    text: &str,
    media: Vec<MediaPart>,
    blob: Option<String>,
    original_chars: u64,
) -> (r: Committed)
    ensures
        r.message@ == (MessageV {
            role: "tool"@,
            content: Some(text@),
            reasoning: None,
            tool_calls: None,
            tool_call_id: Some(id@),
            parts: media_view(media@),
            hidden: false,
        }),
        opt_text(r.blob) == opt_text(blob),
        r.original_chars == (if blob is Some {
            Some(original_chars)
        } else {
            None
        }),
{
    let kept: Option<u64> = if blob.is_some() {
        Some(original_chars)
    } else {
        None
    };
    let message = Message {
        role: "tool".to_owned(),
        content: Some(text.to_owned()),
        reasoning_content: None,
        tool_calls: None,
        tool_call_id: Some(id.to_owned()),
        parts: media,
        hidden: false,
    };
    Committed { message, blob, original_chars: kept }
}

// ---------------------------------------------------------------------------
// Laws
// ---------------------------------------------------------------------------

/// Embedded media cost a flat rate, however large they are.
pub proof fn law_embedded_media_cost_little(s: Seq<char>)
    requires
        has_prefix(s, "data:"@) || holds(s, "data:image"@) || holds(s, ";base64,"@),
    ensures
        charge(s) <= 16384,
{
}

proof fn lemma_shown_by_calls(ms: Seq<MessageV>, cs: Seq<JsonV>, p: Seq<char>)
    requires
        shown_by_calls(ms, cs).contains(p),
    ensures
        exists|i: int| 0 <= i < cs.len() && shown_by(ms, #[trigger] cs[i]) == Some(p),
    decreases cs.len(),
{
    if cs.len() > 0 {
        let before = shown_by_calls(ms, cs.drop_last());
        if shown_by(ms, cs.last()) == Some(p) {
            assert(cs[cs.len() - 1] == cs.last());
        } else {
            let all = shown_by_calls(ms, cs);
            let k = choose|k: int| 0 <= k < all.len() && all[k] == p;
            assert(before.contains(p)) by {
                assert(k < before.len());
                assert(before[k] == p);
            }
            lemma_shown_by_calls(ms, cs.drop_last(), p);
            let i = choose|i: int|
                0 <= i < cs.drop_last().len() && shown_by(ms, #[trigger] cs.drop_last()[i]) == Some(
                    p,
                );
            assert(cs[i] == cs.drop_last()[i]);
        }
    }
}

/// A file counts as shown only where some call named it and its last result says that
/// it went well: what was denied, cut off or failed shows nothing.
pub proof fn law_failed_calls_show_nothing(ms: Seq<MessageV>, n: nat, p: Seq<char>)
    requires
        shown_paths(ms, n).contains(p),
    ensures
        exists|k: int, i: int|
            #![trigger ms[k].tool_calls->0[i]]
            0 <= k < n <= ms.len() && ms[k].role == "assistant"@ && ms[k].tool_calls is Some && 0
                <= i < ms[k].tool_calls->0.len() && shown_by(ms, ms[k].tool_calls->0[i]) == Some(p),
    decreases n,
{
    if n > 0 && n <= ms.len() {
        let before = shown_paths(ms, (n - 1) as nat);
        let m = ms[n - 1];
        if before.contains(p) {
            law_failed_calls_show_nothing(ms, (n - 1) as nat, p);
        } else {
            let cs = m.tool_calls->0;
            let here = shown_by_calls(ms, cs);
            let all = shown_paths(ms, n);
            let k = choose|k: int| 0 <= k < all.len() && all[k] == p;
            if k < before.len() {
                assert(before[k] == p);
            }
            assert(here[k - before.len()] == p);
            lemma_shown_by_calls(ms, cs, p);
            let i = choose|i: int| 0 <= i < cs.len() && shown_by(ms, #[trigger] cs[i]) == Some(p);
            assert(ms[n - 1].tool_calls->0[i] == cs[i]);
        }
    }
}

/// The last thing that the user wrote: what is hidden, and what others say after it, does
/// not count.
pub proof fn law_the_last_words_of_the_user(ms: Seq<MessageV>, m: MessageV)
    ensures
        m.role == "user"@ && !m.hidden && m.content is Some ==> last_user(ms.push(m))
            == m.content->0,
        m.role != "user"@ || m.hidden ==> last_user(ms.push(m)) == last_user(ms),
        last_user(Seq::empty()).len() == 0,
{
    assert(ms.push(m).drop_last() =~= ms);
}

/// A call went well by the last result under its identifier; other messages say nothing
/// of it.
pub proof fn law_the_last_result_counts(ms: Seq<MessageV>, m: MessageV, id: Seq<char>)
    ensures
        !call_ok(Seq::empty(), id),
        m.role == "tool"@ && m.tool_call_id == Some(id) && m.content is Some ==> call_ok(
            ms.push(m),
            id,
        ) == !failed_text(m.content->0),
        m.role != "tool"@ || m.tool_call_id != Some(id) ==> call_ok(ms.push(m), id) == call_ok(
            ms,
            id,
        ),
{
    assert(ms.push(m).drop_last() =~= ms);
}

/// A result says that it failed by how it begins, or by being nothing but a word for that,
/// with white space around it or not.
pub proof fn law_how_a_failure_reads(a: Seq<char>, x: Seq<char>, b: Seq<char>)
    requires
        forall|i: int| 0 <= i < a.len() ==> crate::text::white(#[trigger] a[i]),
        forall|i: int| 0 <= i < b.len() ==> crate::text::white(#[trigger] b[i]),
    ensures
        failed_text(a + "Error:"@ + x),
        failed_text(a + "plan mode:"@ + x),
        failed_text(a + "User denied"@ + x),
        failed_text(a + "tool task aborted"@ + x),
        failed_text(a + "cancelled"@ + b),
        failed_text(a + "timeout"@ + b),
        !failed_text(a + "Wrote "@ + x),
        !failed_text(Seq::empty()),
{
    reveal_strlit("Error:");
    reveal_strlit("plan mode:");
    reveal_strlit("User denied");
    reveal_strlit("tool task aborted");
    reveal_strlit("cancelled");
    reveal_strlit("timeout");
    reveal_strlit("Wrote ");
    lemma_starts_behind(a, "Error:"@, x);
    lemma_starts_behind(a, "plan mode:"@, x);
    lemma_starts_behind(a, "User denied"@, x);
    lemma_starts_behind(a, "tool task aborted"@, x);
    lemma_starts_behind(a, "Wrote "@, x);
    crate::text::law_trimming_takes_the_ends(a, "cancelled"@, b);
    crate::text::law_trimming_takes_the_ends(a, "timeout"@, b);
    let t = a + "Wrote "@ + x;
    let u = trim_start_of(t);
    assert(u[0] == 'W');
    assert("Error:"@[0] == 'E' && "plan mode:"@[0] == 'p' && "User denied"@[0] == 'U'
        && "tool task aborted"@[0] == 't' && "cancelled"@[0] == 'c' && "timeout"@[0] == 't');
    lemma_first_char(u, "Error:"@);
    lemma_first_char(u, "plan mode:"@);
    lemma_first_char(u, "User denied"@);
    lemma_first_char(u, "tool task aborted"@);
    crate::text::lemma_trim_end(u);
    crate::text::lemma_blank(t);
    assert(t[a.len() as int] == 'W');
    assert(trimmed(t).len() > 0);
    assert(trimmed(t)[0] == 'W');
    let e = Seq::<char>::empty();
    assert(trim_start_of(e) =~= e);
    assert(trimmed(e) =~= e);
}

proof fn lemma_first_char(s: Seq<char>, pat: Seq<char>)
    requires
        s.len() > 0,
        pat.len() > 0,
        s[0] != pat[0],
    ensures
        !has_prefix(s, pat),
{
    if has_prefix(s, pat) {
        assert(s.subrange(0, pat.len() as int)[0] == s[0]);
    }
}

proof fn lemma_starts_behind(a: Seq<char>, mark: Seq<char>, x: Seq<char>)
    requires
        forall|i: int| 0 <= i < a.len() ==> crate::text::white(#[trigger] a[i]),
        mark.len() > 0,
        !crate::text::white(mark[0]),
    ensures
        trim_start_of(a + mark + x) == mark + x,
        has_prefix(trim_start_of(a + mark + x), mark),
{
    let t = a + mark + x;
    crate::text::lemma_trim_start(t);
    let u = trim_start_of(t);
    let i = t.len() - u.len();
    assert(t[a.len() as int] == mark[0]);
    if i < a.len() {
        assert(u[0] == t[i] && t[i] == a[i]);
    }
    if i > a.len() {
        assert(crate::text::white(t[a.len() as int]));
    }
    assert(u =~= mark + x);
    assert(u.subrange(0, mark.len() as int) =~= mark);
}

/// A call shows the file that it names, where it reads, views, writes or edits and its
/// result went well; no other call shows any.
pub proof fn law_which_calls_show_files(ms: Seq<MessageV>, c: JsonV, id: Seq<char>, name: Seq<char>)
    requires
        c.text_at("id"@) == Some(id),
        c.at("function"@).text_at("name"@) == Some(name),
    ensures
        ({
            let args = c.at("function"@).at("arguments"@);
            let shows = name == "read"@ || name == "view"@ || name == "write"@ || name == "edit"@;
            &&& !shows || !call_ok(ms, id) ==> shown_by(ms, c) is None
            &&& shows && call_ok(ms, id) && args is Object && args.text_at("path"@) is Some
                ==> shown_by(ms, c) == args.text_at("path"@)
            &&& shows && call_ok(ms, id) && args is Object && args.text_at("path"@) is None
                ==> shown_by(ms, c) == args.text_at("file_path"@)
        }),
{
}

/// A reply is kept as a message of the assistant: its content and its thought without the
/// space around them, and its calls, each under its identifier and name.
pub proof fn law_a_reply_is_kept(t: ModelTurn)
    ensures
        ({
            let m = assistant_of(t);
            &&& m.role == "assistant"@ && !m.hidden && m.tool_call_id is None && m.parts.len() == 0
            &&& t.tool_calls@.len() == 0 ==> m.content == Some(t.content@) && m.tool_calls is None
            &&& t.tool_calls@.len() > 0 && trimmed(t.content@).len() > 0 ==> m.content == Some(
                trimmed(t.content@),
            )
            &&& t.tool_calls@.len() > 0 && trimmed(t.content@).len() == 0 ==> m.content is None
            &&& trimmed(t.reasoning@).len() > 0 ==> m.reasoning == Some(trimmed(t.reasoning@))
            &&& trimmed(t.reasoning@).len() == 0 ==> m.reasoning is None
            &&& t.tool_calls@.len() > 0 ==> m.tool_calls is Some
            &&& t.tool_calls@.len() > 0 && t.raw_tool_calls is None ==> m.tool_calls->0.len()
                == t.tool_calls@.len()
            &&& t.tool_calls@.len() > 0 && t.raw_tool_calls is Some ==> m.tool_calls->0.len()
                == items_view(t.raw_tool_calls->0@).len()
        }),
{
}

/// A stored call keeps everything but arguments that are the text of a value: those become
/// the value.
pub proof fn law_a_stored_call_is_unpacked(v: JsonV)
    ensures
        ({
            let n = normalized_call(v);
            let a = v.at("function"@).at("arguments"@);
            &&& n.text_at("id"@) == v.text_at("id"@)
            &&& n.at("function"@).text_at("name"@) == v.at("function"@).text_at("name"@)
            &&& a is Object ==> n.at("function"@).at("arguments"@) == a
            &&& a is Str ==> n.at("function"@).at("arguments"@) == (
            match crate::outside::parsed_json(a->Str_0) {
                Some(x) => x,
                None => a,
            })
        }),
{
    reveal_strlit("id");
    reveal_strlit("function");
    reveal_strlit("name");
    reveal_strlit("arguments");
    assert("id"@.len() == 2 && "function"@.len() == 8 && "name"@.len() == 4 && "arguments"@.len()
        == 9);
}

/// What a transcript costs is the sum of what its messages cost, a token for every four
/// bytes, and what each costs is the sum of its parts.
pub proof fn law_costs_add_up(ms: Seq<MessageV>, m: MessageV, tools: Seq<JsonV>, keep: bool)
    ensures
        messages_charge(Seq::empty(), keep) == 0,
        messages_charge(ms.push(m), keep) == messages_charge(ms, keep) + message_charge(m, keep),
        values_charge(Seq::empty()) == 0,
        m.parts.len() == 0 && m.tool_calls is None && m.reasoning is None && m.content is None
            ==> message_charge(m, keep) == 0,
        m.parts.len() == 0 && m.tool_calls is None && m.reasoning is None && m.content is Some
            ==> message_charge(m, keep) == charge(m.content->0),
        m.parts.len() == 0 && m.tool_calls is None && m.content is None && m.reasoning is Some
            ==> message_charge(m, keep) == (if keep {
            charge(m.reasoning->0)
        } else {
            0
        }),
        messages_charge(ms, keep) + values_charge(tools) <= u32::MAX ==> estimate(ms, tools, keep)
            == (messages_charge(ms, keep) + values_charge(tools)) / 4,
{
    assert(ms.push(m).drop_last() =~= ms);
}

/// A text costs its bytes, unless it is media or holds it and is long.
pub proof fn law_plain_text_costs_its_bytes(s: Seq<char>)
    ensures
        !has_prefix(s, "data:"@) && !holds(s, "data:image"@) && !holds(s, ";base64,"@) ==> charge(s)
            == encode_utf8(s).len(),
        !has_prefix(s, "data:"@) && encode_utf8(s).len() <= 16384 ==> charge(s) == encode_utf8(
            s,
        ).len(),
        has_prefix(s, "data:"@) ==> charge(s) == 1024,
{
}

/// Two names of a file that differ in the way their slashes lean, or in slashes at the end,
/// are compared as one.
pub proof fn law_slashes_make_no_difference(p: Seq<char>)
    ensures
        canonical(p.push('/')) == canonical(p),
        canonical(with_char(p, '/', '\\')) == canonical(p),
        canonical(p).len() > 0 ==> canonical(p).last() != '/',
        !p.contains('\\') && (p.len() == 0 || p.last() != '/') ==> canonical(p) == p,
{
    let w = with_char(p, '\\', '/');
    assert(with_char(p.push('/'), '\\', '/') =~= w.push('/'));
    assert(w.push('/').drop_last() =~= w);
    assert(with_char(with_char(p, '/', '\\'), '\\', '/') =~= w);
    lemma_without_trailing(w, '/');
    if !p.contains('\\') {
        assert forall|i: int| 0 <= i < p.len() implies p[i] != '\\' by {
            assert(p.contains(p[i]));
        }
        assert(w =~= p);
    }
}

proof fn lemma_without_trailing(s: Seq<char>, c: char)
    ensures
        without_trailing(s, c).len() > 0 ==> without_trailing(s, c).last() != c,
    decreases s.len(),
{
    if s.len() > 0 && s.last() == c {
        lemma_without_trailing(s.drop_last(), c);
    }
}

/// Results of tools and pictures are counted one by one.
pub proof fn law_what_is_counted(ms: Seq<MessageV>, m: MessageV, ps: Seq<MediaV>, p: MediaV)
    ensures
        tool_messages(Seq::empty()) == 0,
        tool_messages(ms.push(m)) == tool_messages(ms) + (if m.role == "tool"@ {
            1nat
        } else {
            0nat
        }),
        images(Seq::empty()) == 0,
        images(ps.push(p)) == images(ps) + (if p.kind == MediaKind::Image {
            1nat
        } else {
            0nat
        }),
        image_parts(Seq::empty()) == 0,
        image_parts(ms.push(m)) == image_parts(ms) + images(m.parts),
{
    assert(ms.push(m).drop_last() =~= ms);
    assert(ps.push(p).drop_last() =~= ps);
}

/// What a part and a value cost: media a flat rate, an address its bytes up to a bound, a
/// value the bytes of its text.
pub proof fn law_what_parts_cost(ps: Seq<MediaV>, p: MediaV, vs: Seq<JsonV>, v: JsonV)
    ensures
        parts_charge(Seq::empty()) == 0,
        has_prefix(p.url, "data:"@) ==> parts_charge(ps.push(p)) == parts_charge(ps) + 1024,
        !has_prefix(p.url, "data:"@) && encode_utf8(p.url).len() <= 256 ==> parts_charge(ps.push(p))
            == parts_charge(ps) + encode_utf8(p.url).len(),
        !has_prefix(p.url, "data:"@) && encode_utf8(p.url).len() > 256 ==> parts_charge(ps.push(p))
            == parts_charge(ps) + 256,
        values_charge(vs.push(v)) == values_charge(vs) + encode_utf8(json_text(settled_json(v))).len(),
{
    assert(ps.push(p).drop_last() =~= ps);
    assert(vs.push(v).drop_last() =~= vs);
}

} // verus!
