//! A reply that arrives in pieces: server-sent events out of bytes, and one
//! completion out of events.

use vstd::prelude::*;
use vstd::utf8::{encode_utf8, valid_utf8};
use crate::fault::{Fault, FaultV};
use crate::json::{items_view, lemma_items_push, lemma_items_view, opt_json, put, Json, JsonV};
use crate::outside::{parse_json, parsed_json, read_utf8};
use crate::text::{
    at, blank, chars_of, find, has_prefix, is_blank, lemma_find_from, lines, lines_of, same, search,
    stands_at, string_of, texts,
};
use crate::turn::{
    content_text, error_of, message_of, message_text, reported_error, thinking, thinking_text,
    turn_from_json, turn_of, ModelTurn,
};
use crate::usage::{
    cached_tokens_of, completion_tokens_of, parse_cached_tokens, parse_completion_tokens,
    parse_prompt_tokens, prompt_tokens_of,
};

verus! {

// ---------------------------------------------------------------------------
// Tool calls in pieces
// ---------------------------------------------------------------------------

/// A function without a name and without arguments.
pub open spec fn blank_function() -> JsonV {
    put(
        put(JsonV::Object(Map::empty()), "name"@, JsonV::Str(""@)),
        "arguments"@,
        JsonV::Str(""@),
    )
}

/// A call of which nothing has arrived.
pub open spec fn blank_call() -> JsonV {
    put(
        put(JsonV::Object(Map::empty()), "type"@, JsonV::Str("function"@)),
        "function"@,
        blank_function(),
    )
}

pub open spec fn put_text(v: JsonV, k: Seq<char>, t: Option<Seq<char>>) -> JsonV {
    match t {
        Some(s) => put(v, k, JsonV::Str(s)),
        None => v,
    }
}

/// A function with a piece added: the name replaced, argument texts put together.
pub open spec fn grown_function(f: JsonV, piece: JsonV) -> JsonV {
    let named = match piece.text_at("name"@) {
        Some(n) => if n.len() > 0 {
            put(f, "name"@, JsonV::Str(n))
        } else {
            f
        },
        None => f,
    };
    match piece.at("arguments"@) {
        JsonV::Str(s) => put(
            named,
            "arguments"@,
            JsonV::Str(
                match named.text_at("arguments"@) {
                    Some(c) => c,
                    None => Seq::empty(),
                } + s,
            ),
        ),
        JsonV::Null => named,
        other => put(named, "arguments"@, other),
    }
}

/// A call with a piece added.
pub open spec fn grown_call(call: JsonV, piece: JsonV) -> JsonV {
    let d = put_text(
        put_text(call, "id"@, piece.text_at("id"@)),
        "type"@,
        piece.text_at("type"@),
    );
    let f = piece.at("function"@);
    if f == JsonV::Null {
        d
    } else {
        let whole = match d.field("function"@) {
            Some(x) => x,
            None => blank_function(),
        };
        put(d, "function"@, grown_function(whole, f))
    }
}

fn new_function() -> (r: Json)
    ensures
        r@ == blank_function(),
{
    Json::object().with("name", Json::string("")).with("arguments", Json::string(""))
}

fn new_call() -> (r: Json)
    ensures
        r@ == blank_call(),
{
    Json::object().with("type", Json::string("function")).with("function", new_function())
}

fn grow_function(f: &Json, piece: &Json) -> (r: Json)
    ensures
        r@ == grown_function(f@, piece@),
{
    let mut out: Json = f.copy();
    if let Some(n) = piece.text_at("name") {
        if !n.is_empty() {
            out.set("name", Json::string(n));
        }
    }
    match piece.get("arguments") {
        Some(Json::Str(s)) => {
            let mut all: String = match out.text_at("arguments") {
                Some(c) => c.to_owned(),
                None => String::new(),
            };
            all.append(s.as_str());
            out.set("arguments", Json::Str(all));
        },
        Some(Json::Null) => {},
        Some(other) => {
            out.set("arguments", other.copy());
        },
        None => {},
    }
    out
}

/// Adds a piece to a call.
pub fn merge_tool_delta(dst: &mut Json, src: &Json)
    ensures
        final(dst)@ == grown_call(old(dst)@, src@),
{
    if let Some(id) = src.text_at("id") {
        dst.set("id", Json::string(id));
    }
    if let Some(t) = src.text_at("type") {
        dst.set("type", Json::string(t));
    }
    match src.get("function") {
        Some(f) => {
            if !f.is_null() {
                let whole: Json = match dst.get("function") {
                    Some(x) => grow_function(x, f),
                    None => grow_function(&new_function(), f),
                };
                dst.set("function", whole);
            }
        },
        None => {},
    }
}

// ---------------------------------------------------------------------------
// A completion in pieces
// ---------------------------------------------------------------------------

/// What has arrived of a completion.
pub ghost struct AccV {
    pub content: Seq<char>,
    pub reasoning: Seq<char>,
    pub calls: Seq<JsonV>,
    pub prompt: nat,
    pub completion: nat,
    pub cached: Option<nat>,
    pub timings: Option<JsonV>,
}

/// The place of a call in the list: its `index`, the first where it has none.
pub open spec fn call_index(piece: JsonV) -> nat {
    match piece.at("index"@) {
        JsonV::Int(n) => if 0 <= n <= u64::MAX {
            n as nat
        } else {
            0
        },
        _ => 0,
    }
}

/// `calls` with blank calls behind it until it has `n`.
pub open spec fn padded(calls: Seq<JsonV>, n: nat) -> Seq<JsonV> {
    if calls.len() >= n {
        calls
    } else {
        calls + Seq::new((n - calls.len()) as nat, |i: int| blank_call())
    }
}

/// The calls with one piece added at its place. A place beyond any list is passed over.
pub open spec fn placed(calls: Seq<JsonV>, piece: JsonV) -> Seq<JsonV> {
    let i = call_index(piece);
    if i >= usize::MAX {
        calls
    } else {
        let all = padded(calls, i + 1);
        all.update(i as int, grown_call(all[i as int], piece))
    }
}

/// The calls with the pieces added in order.
pub open spec fn all_placed(calls: Seq<JsonV>, pieces: Seq<JsonV>) -> Seq<JsonV>
    decreases pieces.len(),
{
    if pieces.len() == 0 {
        calls
    } else {
        placed(all_placed(calls, pieces.drop_last()), pieces.last())
    }
}

/// The counts of a chunk, where it has any, take the place of those before.
pub open spec fn recounted(a: AccV, chunk: JsonV) -> AccV {
    AccV {
        cached: if cached_tokens_of(chunk) is Some {
            cached_tokens_of(chunk)
        } else {
            a.cached
        },
        timings: if chunk.field("timings"@) is Some {
            chunk.field("timings"@)
        } else {
            a.timings
        },
        prompt: if prompt_tokens_of(chunk) > 0 {
            prompt_tokens_of(chunk)
        } else {
            a.prompt
        },
        completion: if completion_tokens_of(chunk) > 0 {
            completion_tokens_of(chunk)
        } else {
            a.completion
        },
        ..a
    }
}

pub open spec fn text_or(t: Option<Seq<char>>) -> Seq<char> {
    match t {
        Some(s) => s,
        None => Seq::empty(),
    }
}

/// What has arrived after one more chunk: a delta is added, a whole message takes
/// the place of what was there.
pub open spec fn applied(a: AccV, chunk: JsonV) -> AccV {
    let b = recounted(a, chunk);
    let choice = chunk.at("choices"@).first();
    let msg = choice.at("message"@);
    let delta = choice.at("delta"@);
    if choice == JsonV::Null {
        b
    } else if choice.field("delta"@) is None && msg is Object {
        AccV {
            content: content_text(msg),
            reasoning: thinking_text(msg),
            calls: match msg.at("tool_calls"@) {
                JsonV::Array(items) => items,
                _ => b.calls,
            },
            ..b
        }
    } else {
        AccV {
            content: b.content + text_or(delta.text_at("content"@)),
            reasoning: b.reasoning + thinking_text(delta),
            calls: match delta.at("tool_calls"@) {
                JsonV::Array(pieces) => all_placed(b.calls, pieces),
                _ => b.calls,
            },
            ..b
        }
    }
}

/// The completion that what has arrived amounts to.
pub open spec fn as_completion(a: AccV) -> JsonV {
    let none = JsonV::Object(Map::empty());
    let usage = put(
        put(none, "prompt_tokens"@, JsonV::Int(a.prompt as int)),
        "completion_tokens"@,
        JsonV::Int(a.completion as int),
    );
    let counted = match a.cached {
        Some(c) => put(
            put(
                usage,
                "prompt_tokens_details"@,
                put(none, "cached_tokens"@, JsonV::Int(c as int)),
            ),
            "cache_n"@,
            JsonV::Int(c as int),
        ),
        None => usage,
    };
    let message = put(
        put(
            put(none, "content"@, JsonV::Str(a.content)),
            "reasoning_content"@,
            JsonV::Str(a.reasoning),
        ),
        "tool_calls"@,
        if a.calls.len() == 0 {
            JsonV::Null
        } else {
            JsonV::Array(a.calls)
        },
    );
    let root = put(
        put(none, "choices"@, JsonV::Array(seq![put(none, "message"@, message)])),
        "usage"@,
        counted,
    );
    match a.timings {
        Some(t) => put(root, "timings"@, t),
        None => root,
    }
}

/// What has arrived of a completion.
#[derive(Debug, PartialEq, Eq)]
pub struct StreamAcc {
    pub content: String,
    pub reasoning: String,
    pub tool_calls: Vec<Json>,
    pub prompt_tokens: u64,
    pub completion_tokens: u64,
    pub cached_tokens: Option<u64>,
    pub timings: Option<Json>,
}

pub open spec fn opt_nat(n: Option<u64>) -> Option<nat> {
    match n {
        Some(k) => Some(k as nat),
        None => None,
    }
}

impl View for StreamAcc {
    type V = AccV;

    open spec fn view(&self) -> AccV {
        AccV {
            content: self.content@,
            reasoning: self.reasoning@,
            calls: items_view(self.tool_calls@),
            prompt: self.prompt_tokens as nat,
            completion: self.completion_tokens as nat,
            cached: opt_nat(self.cached_tokens),
            timings: opt_json(self.timings),
        }
    }
}

fn copy_items(v: &Vec<Json>) -> (r: Vec<Json>)
    ensures
        items_view(r@) == items_view(v@),
{
    let mut out: Vec<Json> = Vec::new();
    let mut i: usize = 0;
    assert(v@.take(0) =~= Seq::empty());
    while i < v.len()
        invariant
            i <= v@.len(),
            items_view(out@) == items_view(v@.take(i as int)),
        decreases v.len() - i,
    {
        let ghost before = out@;
        let x = v[i].copy();
        out.push(x);
        proof {
            lemma_items_push(before, x);
            lemma_items_push(v@.take(i as int), v@[i as int]);
            assert(v@.take(i + 1) =~= v@.take(i as int).push(v@[i as int]));
        }
        i = i + 1;
    }
    assert(v@.take(i as int) =~= v@);
    out
}

proof fn lemma_items_update(v: Seq<Json>, i: int, x: Json)
    requires
        0 <= i < v.len(),
    ensures
        items_view(v.update(i, x)) == items_view(v).update(i, x@),
{
    lemma_items_view(v);
    lemma_items_view(v.update(i, x));
    assert(items_view(v.update(i, x)) =~= items_view(v).update(i, x@));
}

/// Adds a piece to the call at its place.
fn place(calls: &mut Vec<Json>, piece: &Json)
    ensures
        items_view(final(calls)@) == placed(items_view(old(calls)@), piece@),
{
    let index: u64 = match piece.get("index") {
        Some(n) => match n.as_u64() {
            Some(k) => k,
            None => 0,
        },
        None => 0,
    };
    assert(index == call_index(piece@));
    if index >= usize::MAX as u64 {
        return;
    }
    let i: usize = index as usize;
    let ghost first = items_view(calls@);
    proof {
        lemma_items_view(calls@);
    }
    assert(first =~= padded(first, calls@.len()));
    while calls.len() <= i
        invariant
            i < usize::MAX,
            calls.len() <= i || first.len() == calls@.len() || calls.len() == i + 1,
            first.len() <= calls@.len(),
            items_view(calls@).len() == calls@.len(),
            items_view(calls@) == padded(first, calls@.len()),
        decreases i + 1 - calls.len(),
    {
        let c = new_call();
        let ghost before = calls@;
        calls.push(c);
        proof {
            lemma_items_push(before, c);
            lemma_items_view(calls@);
            assert(items_view(calls@) =~= padded(first, calls@.len()));
        }
    }
    let ghost all = calls@;
    proof {
        lemma_items_view(all);
        assert(items_view(all) =~= padded(first, (i + 1) as nat));
    }
    let mut call: Json = calls[i].copy();
    assert(call@ == items_view(all)[i as int]);
    merge_tool_delta(&mut call, piece);
    calls.set(i, call);
    proof {
        lemma_items_update(all, i as int, call);
        assert(calls@ =~= all.update(i as int, call));
    }
}

fn place_all(calls: &mut Vec<Json>, pieces: &Vec<Json>)
    ensures
        items_view(final(calls)@) == all_placed(items_view(old(calls)@), items_view(pieces@)),
{
    proof {
        lemma_items_view(pieces@);
    }
    let ghost first = items_view(calls@);
    let ghost ps = items_view(pieces@);
    assert(ps.take(0) =~= Seq::empty());
    let mut i: usize = 0;
    while i < pieces.len()
        invariant
            i <= pieces@.len() == ps.len(),
            forall|j: int| 0 <= j < ps.len() ==> #[trigger] ps[j] == pieces@[j]@,
            items_view(calls@) == all_placed(first, ps.take(i as int)),
        decreases pieces.len() - i,
    {
        assert(ps.take(i + 1).drop_last() =~= ps.take(i as int));
        assert(ps.take(i + 1).last() == pieces@[i as int]@);
        place(calls, &pieces[i]);
        i = i + 1;
    }
    assert(ps.take(i as int) =~= ps);
}

impl StreamAcc {
    /// Nothing has arrived.
    pub fn new() -> (r: StreamAcc)
        ensures
            r@ == (AccV {
                content: Seq::empty(),
                reasoning: Seq::empty(),
                calls: Seq::empty(),
                prompt: 0,
                completion: 0,
                cached: None,
                timings: None,
            }),
    {
        let tool_calls: Vec<Json> = Vec::new();
        assert(items_view(tool_calls@) =~= Seq::empty());
        StreamAcc {
            content: String::new(),
            reasoning: String::new(),
            tool_calls,
            prompt_tokens: 0,
            completion_tokens: 0,
            cached_tokens: None,
            timings: None,
        }
    }

    fn recount(&mut self, chunk: &Json)
        ensures
            final(self)@ == recounted(old(self)@, chunk@),
    {
        if let Some(n) = parse_cached_tokens(chunk) {
            self.cached_tokens = Some(n);
        }
        if let Some(t) = chunk.get("timings") {
            self.timings = Some(t.copy());
        }
        let prompt: u64 = parse_prompt_tokens(chunk);
        if prompt > 0 {
            self.prompt_tokens = prompt;
        }
        let completion: u64 = parse_completion_tokens(chunk);
        if completion > 0 {
            self.completion_tokens = completion;
        }
    }

    /// Takes in one more chunk.
    pub fn apply(&mut self, chunk: &Json)
        ensures
            final(self)@ == applied(old(self)@, chunk@),
    {
        self.recount(chunk);
        let choice = match chunk.get("choices") {
            Some(c) => match c.first() {
                Some(x) => x,
                None => {
                    return;
                },
            },
            None => {
                return;
            },
        };
        assert(choice@ == chunk@.at("choices"@).first());
        if choice.is_null() {
            return;
        }
        let delta = match choice.get("delta") {
            Some(d) => d,
            None => {
                if let Some(msg) = choice.get("message") {
                    if msg.is_object() {
                        self.content = message_text(msg);
                        self.reasoning = thinking(msg);
                        if let Some(Json::Array(items)) = msg.get("tool_calls") {
                            self.tool_calls = copy_items(items);
                        }
                        return;
                    }
                }
                assert(self@.content + Seq::<char>::empty() =~= self@.content);
                assert(self@.reasoning + Seq::<char>::empty() =~= self@.reasoning);
                return;
            },
        };
        let ghost b = self@;
        if let Some(s) = delta.text_at("content") {
            self.content.append(s);
        }
        assert(self.content@ =~= b.content + text_or(delta@.text_at("content"@)));
        let more = thinking(delta);
        self.reasoning.append(more.as_str());
        if let Some(Json::Array(pieces)) = delta.get("tool_calls") {
            place_all(&mut self.tool_calls, pieces);
        }
    }

    /// The completion that what has arrived amounts to.
    pub fn into_message_json(self) -> (r: Json)
        ensures
            r@ == as_completion(self@),
    {
        proof {
            lemma_items_view(self.tool_calls@);
        }
        let calls: Json = if self.tool_calls.len() == 0 {
            Json::Null
        } else {
            Json::Array(self.tool_calls)
        };
        let mut usage: Json = Json::object().with(
            "prompt_tokens",
            Json::Uint(self.prompt_tokens),
        ).with("completion_tokens", Json::Uint(self.completion_tokens));
        if let Some(c) = self.cached_tokens {
            usage.set(
                "prompt_tokens_details",
                Json::object().with("cached_tokens", Json::Uint(c)),
            );
            usage.set("cache_n", Json::Uint(c));
        }
        let message: Json = Json::object().with("content", Json::Str(self.content)).with(
            "reasoning_content",
            Json::Str(self.reasoning),
        ).with("tool_calls", calls);
        let mut root: Json = Json::object().with(
            "choices",
            Json::list_of(Json::object().with("message", message)),
        ).with("usage", usage);
        if let Some(t) = self.timings {
            root.set("timings", t);
        }
        root
    }
}

/// What arrived in pieces reads back whole: the completion reports no error, has a
/// message, and its content, its thought and its calls are those that arrived.
pub proof fn law_completion_carries_stream(a: AccV)
    ensures
        reported_error(as_completion(a)) is None,
        message_of(as_completion(a)) != JsonV::Null,
        content_text(message_of(as_completion(a))) == a.content,
        thinking_text(message_of(as_completion(a))) == a.reasoning,
        a.calls.len() > 0 ==> message_of(as_completion(a)).at("tool_calls"@) == JsonV::Array(
            a.calls,
        ),
{
    reveal_strlit("content");
    reveal_strlit("reasoning_content");
    reveal_strlit("tool_calls");
    reveal_strlit("choices");
    reveal_strlit("usage");
    reveal_strlit("timings");
    reveal_strlit("error");
    assert("content"@.len() == 7 && "reasoning_content"@.len() == 17 && "tool_calls"@.len() == 10);
    assert("choices"@.len() == 7 && "usage"@.len() == 5 && "timings"@.len() == 7
        && "error"@.len() == 5);
    assert("choices"@[0] == 'c' && "timings"@[0] == 't' && "usage"@[0] == 'u' && "error"@[0]
        == 'e');
}

// ---------------------------------------------------------------------------
// Server-sent events
// ---------------------------------------------------------------------------

/// Where the first event of a text ends.
pub open spec fn event_break(s: Seq<char>) -> Option<int> {
    match (find(s, "\r\n\r\n"@), find(s, "\n\n"@)) {
        (Some(a), Some(b)) => Some(
            if a <= b {
                a
            } else {
                b
            },
        ),
        (Some(a), None) => Some(a),
        (None, b) => b,
    }
}

/// Where the event after the one that ends at `i` begins.
pub open spec fn after_break(s: Seq<char>, i: int) -> int {
    if at(s, "\r\n\r\n"@, i) {
        i + 4
    } else {
        i + 2
    }
}

pub proof fn lemma_event_break(s: Seq<char>)
    ensures
        "\r\n\r\n"@ == seq!['\r', '\n', '\r', '\n'],
        "\n\n"@ == seq!['\n', '\n'],
        event_break(s) matches Some(i) ==> {
            &&& 0 <= i
            &&& i < after_break(s, i) <= s.len()
            &&& at(s, "\r\n\r\n"@, i) || at(s, "\n\n"@, i)
            &&& forall|j: int| 0 <= j < i ==> !at(s, "\r\n\r\n"@, j) && !at(s, "\n\n"@, j)
        },
        event_break(s) is None ==> forall|j: int|
            !at(s, "\r\n\r\n"@, j) && !at(s, "\n\n"@, j),
{
    reveal_strlit("\r\n\r\n");
    reveal_strlit("\n\n");
    assert("\r\n\r\n"@ =~= seq!['\r', '\n', '\r', '\n']);
    assert("\n\n"@ =~= seq!['\n', '\n']);
    lemma_find_from(s, "\r\n\r\n"@, 0);
    lemma_find_from(s, "\n\n"@, 0);
}

/// The text without the carriage returns at its end.
pub open spec fn without_crs(s: Seq<char>) -> Seq<char>
    decreases s.len(),
{
    if s.len() > 0 && s.last() == '\r' {
        without_crs(s.drop_last())
    } else {
        s
    }
}

/// What a line of an event carries, where it is a data line. One space after the
/// colon does not count.
pub open spec fn data_line(line: Seq<char>) -> Option<Seq<char>> {
    let l = without_crs(line);
    if has_prefix(l, "data:"@) {
        let rest = l.skip("data:"@.len() as int);
        Some(
            if rest.len() > 0 && rest[0] == ' ' {
                rest.skip(1)
            } else {
                rest
            },
        )
    } else {
        None
    }
}

/// The data of the first `n` lines, `None` where one of them ends the stream.
pub open spec fn event_data(lines: Seq<Seq<char>>, n: nat) -> Option<Seq<char>>
    decreases n,
{
    if n == 0 || n > lines.len() {
        Some(Seq::empty())
    } else {
        match event_data(lines, (n - 1) as nat) {
            None => None,
            Some(before) => match data_line(lines[n - 1]) {
                None => Some(before),
                Some(d) => if d == "[DONE]"@ {
                    None
                } else if before.len() > 0 {
                    Some(before.push('\n') + d)
                } else {
                    Some(before + d)
                },
            },
        }
    }
}

/// The value that an event carries: its data lines, put together, read as JSON.
pub open spec fn event_value(raw: Seq<char>) -> Option<JsonV> {
    let ls = lines_of(raw);
    match event_data(ls, ls.len()) {
        Some(d) => if d.len() > 0 {
            parsed_json(d)
        } else {
            None
        },
        None => None,
    }
}

pub open spec fn opt_seq(v: Option<JsonV>) -> Seq<JsonV> {
    match v {
        Some(x) => seq![x],
        None => Seq::empty(),
    }
}

/// The values of the complete events of a text, and the text after them.
pub open spec fn sse_events(s: Seq<char>) -> (Seq<JsonV>, Seq<char>)
    decreases s.len(),
{
    proof {
        lemma_event_break(s);
    }
    match event_break(s) {
        None => (Seq::empty(), s),
        Some(i) => {
            let later = sse_events(s.skip(after_break(s, i)));
            (opt_seq(event_value(s.take(i))) + later.0, later.1)
        },
    }
}

fn data_of_line(line: &str) -> (r: Option<String>)
    ensures
        r is Some <==> data_line(line@) is Some,
        r matches Some(d) ==> data_line(line@) == Some(d@),
{
    let cs = chars_of(line);
    let mut n: usize = cs.len();
    assert(cs@.take(n as int) =~= line@);
    while n > 0 && cs[n - 1] == '\r'
        invariant
            n <= cs@.len(),
            without_crs(line@) == without_crs(cs@.take(n as int)),
        decreases n,
    {
        assert(cs@.take(n as int).drop_last() =~= cs@.take(n - 1));
        n = n - 1;
    }
    let l = string_of(&cs, 0, n);
    assert(l@ =~= cs@.take(n as int));
    assert(l@ == without_crs(line@));
    let ls = chars_of(l.as_str());
    let tag = chars_of("data:");
    if !stands_at(&ls, &tag, 0) {
        return None;
    }
    let from: usize = tag.len();
    let ghost rest = l@.skip(from as int);
    if from < ls.len() && ls[from] == ' ' {
        let d = string_of(&ls, from + 1, ls.len());
        assert(d@ =~= rest.skip(1));
        Some(d)
    } else {
        let d = string_of(&ls, from, ls.len());
        assert(d@ =~= rest);
        Some(d)
    }
}

/// The value that an event carries.
pub fn parse_sse_event(raw: &str) -> (r: Option<Json>)
    ensures
        r is Some <==> event_value(raw@) is Some,
        r matches Some(j) ==> event_value(raw@) == Some(j@),
{
    let ls = lines(raw);
    let ghost lv = lines_of(raw@);
    let mut data: String = String::new();
    let mut i: usize = 0;
    while i < ls.len()
        invariant
            i <= ls@.len(),
            texts(ls@) == lv,
            lv == lines_of(raw@),
            event_data(lv, i as nat) == Some(data@),
        decreases ls.len() - i,
    {
        assert(lv[i as int] == ls@[i as int]@);
        if let Some(d) = data_of_line(ls[i].as_str()) {
            if same(d.as_str(), "[DONE]") {
                proof {
                    lemma_done_stays(lv, (i + 1) as nat);
                }
                return None;
            }
            if !data.as_str().is_empty() {
                data.push('\n');
            }
            data.append(d.as_str());
        }
        i = i + 1;
    }
    if data.as_str().is_empty() {
        return None;
    }
    parse_json(data.as_str())
}

proof fn lemma_done_stays(lines: Seq<Seq<char>>, n: nat)
    requires
        n <= lines.len(),
        event_data(lines, n) is None,
    ensures
        event_data(lines, lines.len()) is None,
    decreases lines.len() - n,
{
    if n < lines.len() {
        lemma_done_stays(lines, n + 1);
    }
}

/// Where the first event of a text ends.
pub fn find_event_break(s: &Vec<char>) -> (r: Option<usize>)
    ensures
        r is Some <==> event_break(s@) is Some,
        r matches Some(i) ==> event_break(s@) == Some(i as int),
{
    match (search(s, &chars_of("\r\n\r\n"), 0), search(s, &chars_of("\n\n"), 0)) {
        (Some(a), Some(b)) => if a <= b {
            Some(a)
        } else {
            Some(b)
        },
        (Some(a), None) => Some(a),
        (None, b) => b,
    }
}

/// The part of a stream of events that is no whole event yet.
#[derive(Debug, PartialEq, Eq)]
pub struct SseBuf {
    pub leftover: String,
}

impl SseBuf {
    pub fn new() -> (r: SseBuf)
        ensures
            r.leftover@ == Seq::<char>::empty(),
    {
        SseBuf { leftover: String::new() }
    }

    /// Takes in more text and gives out the events that are whole now.
    pub fn push(&mut self, chunk: &str) -> (r: Vec<Json>)
        ensures
            items_view(r@) == sse_events(old(self).leftover@ + chunk@).0,
            final(self).leftover@ == sse_events(old(self).leftover@ + chunk@).1,
    {
        let mut all: String = self.leftover.clone();
        all.append(chunk);
        let ghost whole = all@;
        let mut rest: Vec<char> = chars_of(all.as_str());
        let mut out: Vec<Json> = Vec::new();
        assert(items_view(out@) =~= Seq::empty());
        assert(Seq::<JsonV>::empty() + sse_events(whole).0 =~= sse_events(whole).0);
        loop
            invariant
                whole == old(self).leftover@ + chunk@,
                sse_events(whole) == (
                    items_view(out@) + sse_events(rest@).0,
                    sse_events(rest@).1,
                ),
            decreases rest.len(),
        {
            proof {
                lemma_event_break(rest@);
            }
            let i: usize = match find_event_break(&rest) {
                Some(i) => i,
                None => {
                    self.leftover = string_of(&rest, 0, rest.len());
                    assert(rest@.subrange(0, rest@.len() as int) =~= rest@);
                    assert(items_view(out@) + Seq::<JsonV>::empty() =~= items_view(out@));
                    return out;
                },
            };
            let next: usize = if stands_at(&rest, &chars_of("\r\n\r\n"), i) {
                i + 4
            } else {
                i + 2
            };
            let raw = string_of(&rest, 0, i);
            assert(raw@ =~= rest@.take(i as int));
            let tail = string_of(&rest, next, rest.len());
            assert(tail@ =~= rest@.skip(next as int));
            let ghost before = out@;
            if let Some(v) = parse_sse_event(raw.as_str()) {
                proof {
                    lemma_items_push(before, v);
                }
                out.push(v);
            }
            assert(items_view(out@) =~= items_view(before) + opt_seq(event_value(raw@)));
            assert(items_view(before) + (opt_seq(event_value(raw@)) + sse_events(tail@).0)
                =~= items_view(out@) + sse_events(tail@).0);
            rest = chars_of(tail.as_str());
        }
    }

    /// At the end of the stream, what is left counts as an event.
    pub fn flush(&mut self) -> (r: Vec<Json>)
        ensures
            items_view(r@) == (if blank(old(self).leftover@) {
                Seq::empty()
            } else {
                opt_seq(event_value(old(self).leftover@))
            }),
            final(self).leftover@ == (if blank(old(self).leftover@) {
                old(self).leftover@
            } else {
                Seq::empty()
            }),
    {
        let mut out: Vec<Json> = Vec::new();
        assert(items_view(out@) =~= Seq::empty());
        if is_blank(self.leftover.as_str()) {
            return out;
        }
        if let Some(v) = parse_sse_event(self.leftover.as_str()) {
            proof {
                lemma_items_push(out@, v);
            }
            out.push(v);
            assert(items_view(out@) =~= seq![v@]);
        }
        self.leftover = String::new();
        out
    }
}

/// It does not matter where a stream is cut: the events of a text come out the same
/// whether it arrives in one piece or in two.
pub proof fn law_chunks_do_not_matter(s: Seq<char>, more: Seq<char>)
    ensures
        sse_events(s + more) == (
            sse_events(s).0 + sse_events(sse_events(s).1 + more).0,
            sse_events(sse_events(s).1 + more).1,
        ),
    decreases s.len(),
{
    lemma_event_break(s);
    match event_break(s) {
        None => {
            let t = s + more;
            assert(Seq::<JsonV>::empty() + sse_events(t).0 =~= sse_events(t).0);
        },
        Some(i) => {
            let t = s + more;
            lemma_break_stays(s, more);
            let k = after_break(s, i);
            law_chunks_do_not_matter(s.skip(k), more);
            assert(t.skip(k) =~= s.skip(k) + more);
            assert(t.take(i) =~= s.take(i));
            let first = opt_seq(event_value(s.take(i)));
            let rest = sse_events(s.skip(k));
            let later = sse_events(rest.1 + more);
            assert(first + (rest.0 + later.0) =~= (first + rest.0) + later.0);
        },
    }
}

proof fn lemma_at_grows(s: Seq<char>, more: Seq<char>, p: Seq<char>, j: int)
    requires
        0 <= j,
        j + p.len() <= s.len(),
    ensures
        at(s + more, p, j) == at(s, p, j),
{
    assert((s + more).subrange(j, j + p.len()) =~= s.subrange(j, j + p.len()));
}

proof fn lemma_break_stays(s: Seq<char>, more: Seq<char>)
    requires
        event_break(s) is Some,
    ensures
        event_break(s + more) == event_break(s),
        after_break(s + more, event_break(s)->0) == after_break(s, event_break(s)->0),
{
    let t = s + more;
    let a = "\r\n\r\n"@;
    let b = "\n\n"@;
    let i = event_break(s)->0;
    lemma_event_break(s);
    lemma_event_break(t);
    assert forall|j: int| 0 <= j < i implies !at(t, a, j) && !at(t, b, j) by {
        lemma_at_grows(s, more, b, j);
        if j + 4 <= s.len() {
            lemma_at_grows(s, more, a, j);
        } else if at(t, a, j) {
            assert(j == i - 1);
            assert(t.subrange(j, j + 4)[2] == '\r');
            assert(t[i + 1] == '\r');
            if at(s, b, i) {
                assert(s.subrange(i, i + 2)[1] == '\n');
                assert(s[i + 1] == t[i + 1]);
            }
        }
    }
    if at(s, b, i) {
        lemma_at_grows(s, more, b, i);
        assert(s.subrange(i, i + 2)[0] == '\n');
        assert(s[i] == '\n' && t[i] == '\n');
        if at(t, a, i) {
            assert(t.subrange(i, i + 4)[0] == '\r');
        }
        if at(s, a, i) {
            assert(s.subrange(i, i + 4)[0] == '\r');
        }
    } else {
        lemma_at_grows(s, more, a, i);
    }
    let x = event_break(t);
    assert(x is Some);
    assert(x->0 >= i);
    if x->0 > i {
        assert(!at(t, a, i) && !at(t, b, i));
    }
}

// ---------------------------------------------------------------------------
// Bytes
// ---------------------------------------------------------------------------

/// A reply that is being read: bytes that are no whole characters yet, text that is
/// no whole event yet, and what the events amount to.
#[derive(Debug, PartialEq, Eq)]
pub struct SseReader {
    pub pending: Vec<u8>,
    pub sse: SseBuf,
    pub acc: StreamAcc,
}

/// The text that can be read off the front of `bytes`: as much as is UTF-8.
pub open spec fn readable(bytes: Seq<u8>, text: Seq<char>, rest: Seq<u8>) -> bool {
    &&& bytes == encode_utf8(text) + rest
    &&& forall|k: int|
        encode_utf8(text).len() < k <= bytes.len() ==> !valid_utf8(#[trigger] bytes.take(k))
}

/// Splits off the text at the front of `bytes`.
pub fn take_text(bytes: &Vec<u8>) -> (r: (String, Vec<u8>))
    ensures
        readable(bytes@, r.0@, r.1@),
{
    match read_utf8(bytes.as_slice()) {
        Ok(s) => {
            let rest: Vec<u8> = Vec::new();
            assert(encode_utf8(s@) + rest@ =~= bytes@);
            (s, rest)
        },
        Err(n) => {
            let mut head: Vec<u8> = Vec::new();
            let mut rest: Vec<u8> = Vec::new();
            let mut i: usize = 0;
            while i < bytes.len()
                invariant
                    i <= bytes@.len(),
                    n <= bytes@.len(),
                    i <= n ==> head@ == bytes@.take(i as int) && rest@ == Seq::<u8>::empty(),
                    i > n ==> head@ == bytes@.take(n as int) && rest@ == bytes@.subrange(
                        n as int,
                        i as int,
                    ),
                decreases bytes.len() - i,
            {
                if i < n {
                    head.push(bytes[i]);
                    assert(head@ =~= bytes@.take(i + 1));
                } else {
                    rest.push(bytes[i]);
                    assert(rest@ =~= bytes@.subrange(n as int, i + 1));
                }
                i = i + 1;
            }
            assert(head@ =~= bytes@.take(n as int));
            match read_utf8(head.as_slice()) {
                Ok(s) => {
                    assert(encode_utf8(s@) + rest@ =~= bytes@);
                    (s, rest)
                },
                Err(_) => {
                    assert(false);
                    (String::new(), rest)
                },
            }
        },
    }
}

impl SseReader {
    pub fn new() -> (r: SseReader)
        ensures
            r.pending@.len() == 0,
            r.sse.leftover@.len() == 0,
            r.acc@ == (AccV {
                content: Seq::empty(),
                reasoning: Seq::empty(),
                calls: Seq::empty(),
                prompt: 0,
                completion: 0,
                cached: None,
                timings: None,
            }),
    {
        SseReader { pending: Vec::new(), sse: SseBuf::new(), acc: StreamAcc::new() }
    }

    /// Takes in bytes as they come and gives out the events that are whole now.
    pub fn feed(&mut self, chunk: &Vec<u8>) -> (r: Vec<Json>)
        ensures
            final(self).acc == old(self).acc,
            exists|text: Seq<char>|
                {
                    &&& #[trigger] readable(
                        old(self).pending@ + chunk@,
                        text,
                        final(self).pending@,
                    )
                    &&& items_view(r@) == sse_events(old(self).sse.leftover@ + text).0
                    &&& final(self).sse.leftover@ == sse_events(old(self).sse.leftover@ + text).1
                },
    {
        let ghost before = self.pending@;
        self.pending.extend_from_slice(chunk.as_slice());
        assert(self.pending@ =~= before + chunk@);
        let (text, rest) = take_text(&self.pending);
        let events = self.sse.push(text.as_str());
        self.pending = rest;
        assert(readable(before + chunk@, text@, self.pending@));
        events
    }

    /// Takes in one event. An event that reports an error ends the reply.
    pub fn accept(&mut self, event: &Json) -> (r: Result<(), Fault>)
        ensures
            final(self).pending == old(self).pending,
            final(self).sse == old(self).sse,
            r is Err <==> reported_error(event@) is Some,
            r matches Err(e) ==> e@ == FaultV::Http(reported_error(event@)->0) && final(self).acc
                == old(self).acc,
            r is Ok ==> final(self).acc@ == applied(old(self).acc@, event@),
    {
        if let Some(s) = error_of(event) {
            return Err(Fault::Http(s));
        }
        self.acc.apply(event);
        Ok(())
    }

    /// The turn that the reply amounts to.
    pub fn finish(self) -> (r: Result<ModelTurn, Fault>)
        ensures
            r is Ok,
            r matches Ok(t) ==> turn_of(t, as_completion(self.acc@), false),
    {
        proof {
            law_completion_carries_stream(self.acc@);
        }
        let v = self.acc.into_message_json();
        turn_from_json(&v, false)
    }
}

// ---------------------------------------------------------------------------
// Laws
// ---------------------------------------------------------------------------

proof fn lemma_call_keys()
    ensures
        "id"@ != "type"@ && "id"@ != "function"@ && "type"@ != "function"@,
        "name"@ != "arguments"@,
{
    reveal_strlit("id");
    reveal_strlit("type");
    reveal_strlit("function");
    reveal_strlit("name");
    reveal_strlit("arguments");
    assert("id"@.len() == 2 && "type"@.len() == 4 && "function"@.len() == 8);
    assert("name"@.len() == 4 && "arguments"@.len() == 9);
}

/// A piece of a call goes to the place that its index names, the first where it names
/// none: every other call stays as it was, and the list is as long as it has to be.
pub proof fn law_a_piece_goes_to_its_place(calls: Seq<JsonV>, piece: JsonV, i: int)
    requires
        0 <= i < usize::MAX,
        piece.at("index"@) == JsonV::Int(i) || (i == 0 && !(piece.at("index"@) is Int)),
    ensures
        placed(calls, piece).len() == (if calls.len() > i {
            calls.len() as int
        } else {
            i + 1
        }),
        forall|j: int|
            0 <= j < calls.len() && j != i ==> #[trigger] placed(calls, piece)[j] == calls[j],
        forall|j: int|
            calls.len() <= j < i ==> (#[trigger] placed(calls, piece)[j]).text_at("id"@) is None
                && placed(calls, piece)[j].at("function"@).text_at("name"@) == Some(
                Seq::<char>::empty(),
            ),
        i < calls.len() && piece.field("function"@) is None && piece.text_at("id"@) is None
            && piece.text_at("type"@) is None ==> placed(calls, piece)[i] == calls[i],
{
    lemma_call_keys();
    reveal_strlit("");
    assert(""@ =~= Seq::<char>::empty());
    let r = placed(calls, piece);
    assert forall|j: int| calls.len() <= j < i implies (#[trigger] r[j]).text_at("id"@) is None
        && r[j].at("function"@).text_at("name"@) == Some(Seq::<char>::empty()) by {
        assert(r[j] == blank_call());
    }
}

/// What a piece brings to the call at its place: its identifier, its name, and the rest of
/// its arguments behind those that are there already. What it does not bring stays.
pub proof fn law_a_piece_adds_to_its_call(calls: Seq<JsonV>, piece: JsonV, i: int)
    requires
        0 <= i < calls.len(),
        i < usize::MAX,
        piece.at("index"@) == JsonV::Int(i),
        calls[i].at("function"@) is Object,
    ensures
        ({
            let old = calls[i];
            let new = placed(calls, piece)[i];
            let f = piece.at("function"@);
            &&& new.text_at("id"@) == (match piece.text_at("id"@) {
                Some(s) => Some(s),
                None => old.text_at("id"@),
            })
            &&& new.at("function"@).text_at("name"@) == (match f.text_at("name"@) {
                Some(s) => if s.len() > 0 {
                    Some(s)
                } else {
                    old.at("function"@).text_at("name"@)
                },
                None => old.at("function"@).text_at("name"@),
            })
            &&& f.at("arguments"@) matches JsonV::Str(s) ==> new.at("function"@).text_at(
                "arguments"@,
            ) == Some(
                match old.at("function"@).text_at("arguments"@) {
                    Some(c) => c,
                    None => Seq::empty(),
                } + s,
            )
            &&& f.at("arguments"@) is Null ==> new.at("function"@).at("arguments"@) == old.at(
                "function"@,
            ).at("arguments"@)
            &&& f.at("arguments"@) is Object ==> new.at("function"@).at("arguments"@) == f.at(
                "arguments"@,
            )
        }),
{
    lemma_call_keys();
}

/// Calls that come one after another, each whole in a piece of its own under its index,
/// are all there afterwards, each with its own identifier, name and arguments.
pub proof fn law_parallel_calls_stay_apart(pieces: Seq<JsonV>)
    requires
        pieces.len() < usize::MAX,
        forall|k: int|
            0 <= k < pieces.len() ==> {
                &&& (#[trigger] pieces[k]).at("index"@) == JsonV::Int(k)
                &&& pieces[k].text_at("id"@) is Some
                &&& pieces[k].at("function"@).text_at("name"@) is Some
                &&& pieces[k].at("function"@).text_at("name"@)->0.len() > 0
                &&& pieces[k].at("function"@).text_at("arguments"@) is Some
            },
    ensures
        all_placed(Seq::empty(), pieces).len() == pieces.len(),
        forall|k: int|
            0 <= k < pieces.len() ==> {
                let c = #[trigger] all_placed(Seq::empty(), pieces)[k];
                &&& c.text_at("id"@) == pieces[k].text_at("id"@)
                &&& c.at("function"@).text_at("name"@) == pieces[k].at("function"@).text_at(
                    "name"@,
                )
                &&& c.at("function"@).text_at("arguments"@) == pieces[k].at("function"@).text_at(
                    "arguments"@,
                )
            },
    decreases pieces.len(),
{
    if pieces.len() > 0 {
        let n = pieces.len() - 1;
        let rest = pieces.drop_last();
        assert forall|k: int| 0 <= k < rest.len() implies {
            &&& (#[trigger] rest[k]).at("index"@) == JsonV::Int(k)
            &&& rest[k].text_at("id"@) is Some
            &&& rest[k].at("function"@).text_at("name"@) is Some
            &&& rest[k].at("function"@).text_at("name"@)->0.len() > 0
            &&& rest[k].at("function"@).text_at("arguments"@) is Some
        } by {
            assert(rest[k] == pieces[k]);
        }
        law_parallel_calls_stay_apart(rest);
        let before = all_placed(Seq::empty(), rest);
        let p = pieces[n];
        assert(p.at("index"@) == JsonV::Int(n));
        law_a_piece_goes_to_its_place(before, p, n);
        let all = placed(before, p);
        assert(all == all_placed(Seq::empty(), pieces));
        lemma_call_keys();
        reveal_strlit("");
        assert(""@ =~= Seq::<char>::empty());
        assert(padded(before, (n + 1) as nat)[n] == blank_call());
        assert(all[n] == grown_call(blank_call(), p));
        let a = p.at("function"@).text_at("arguments"@)->0;
        assert(Seq::<char>::empty() + a =~= a);
        assert forall|k: int| 0 <= k < pieces.len() implies {
            let c = #[trigger] all[k];
            &&& c.text_at("id"@) == pieces[k].text_at("id"@)
            &&& c.at("function"@).text_at("name"@) == pieces[k].at("function"@).text_at("name"@)
            &&& c.at("function"@).text_at("arguments"@) == pieces[k].at("function"@).text_at(
                "arguments"@,
            )
        } by {
            if k < n {
                assert(all[k] == before[k]);
                assert(rest[k] == pieces[k]);
            }
        }
    }
}

/// What comes of a chunk: the content and the thought of its delta are added behind what
/// is there, and the pieces of its calls go to their places.
pub proof fn law_a_delta_is_added(a: AccV, chunk: JsonV)
    requires
        chunk.at("choices"@).first().field("delta"@) is Some,
    ensures
        ({
            let delta = chunk.at("choices"@).first().at("delta"@);
            let b = applied(a, chunk);
            &&& delta.text_at("content"@) matches Some(s) ==> b.content == a.content + s
            &&& delta.text_at("content"@) is None ==> b.content == a.content
            &&& delta.text_at("reasoning_content"@) matches Some(s) ==> b.reasoning == a.reasoning
                + s
            &&& delta.text_at("reasoning_content"@) is None && delta.text_at("reasoning"@) is Some
                ==> b.reasoning == a.reasoning + delta.text_at("reasoning"@)->0
            &&& delta.text_at("reasoning_content"@) is None && delta.text_at("reasoning"@) is None
                ==> b.reasoning == a.reasoning
            &&& delta.at("tool_calls"@) matches JsonV::Array(pieces) ==> b.calls == all_placed(
                a.calls,
                pieces,
            )
            &&& !(delta.at("tool_calls"@) is Array) ==> b.calls == a.calls
        }),
{
    assert(a.content + Seq::<char>::empty() =~= a.content);
    assert(a.reasoning + Seq::<char>::empty() =~= a.reasoning);
}

/// The pieces of a chunk are taken in their order, one after the other.
pub proof fn law_pieces_are_taken_in_order(
    calls: Seq<JsonV>,
    p: Seq<JsonV>,
    q: Seq<JsonV>,
    x: JsonV,
)
    ensures
        all_placed(calls, Seq::empty()) == calls,
        all_placed(calls, seq![x]) == placed(calls, x),
        all_placed(calls, p + q) == all_placed(all_placed(calls, p), q),
    decreases q.len(),
{
    assert(seq![x].drop_last() =~= Seq::<JsonV>::empty());
    if q.len() == 0 {
        assert(p + q =~= p);
    } else {
        law_pieces_are_taken_in_order(calls, p, q.drop_last(), x);
        assert((p + q).drop_last() =~= p + q.drop_last());
    }
}

/// A whole message takes the place of what came before it.
pub proof fn law_a_whole_message_replaces(a: AccV, chunk: JsonV)
    requires
        chunk.at("choices"@).first().field("delta"@) is None,
        chunk.at("choices"@).first().at("message"@) is Object,
    ensures
        ({
            let m = chunk.at("choices"@).first().at("message"@);
            let b = applied(a, chunk);
            &&& m.text_at("content"@) matches Some(s) ==> b.content == s
            &&& m.text_at("reasoning_content"@) matches Some(s) ==> b.reasoning == s
            &&& m.at("tool_calls"@) matches JsonV::Array(items) ==> b.calls == items
            &&& !(m.at("tool_calls"@) is Array) ==> b.calls == a.calls
        }),
{
}

/// A chunk without a choice adds nothing to the message. Counts that a chunk has take the
/// place of those before, and without any those before stay.
pub proof fn law_counts_are_the_last_ones(a: AccV, chunk: JsonV)
    ensures
        ({
            let b = applied(a, chunk);
            let p = prompt_tokens_of(chunk);
            let c = completion_tokens_of(chunk);
            &&& b.prompt == (if p > 0 {
                p
            } else {
                a.prompt
            })
            &&& b.completion == (if c > 0 {
                c
            } else {
                a.completion
            })
            &&& cached_tokens_of(chunk) is Some ==> b.cached == cached_tokens_of(chunk)
            &&& cached_tokens_of(chunk) is None ==> b.cached == a.cached
            &&& chunk.field("timings"@) is Some ==> b.timings == chunk.field("timings"@)
            &&& chunk.field("timings"@) is None ==> b.timings == a.timings
            &&& chunk.at("choices"@).first() is Null ==> b.content == a.content && b.reasoning
                == a.reasoning && b.calls == a.calls
        }),
{
}

/// The counts of what arrived in pieces read back from the completion.
pub proof fn law_completion_carries_counts(a: AccV)
    requires
        a.prompt <= u64::MAX,
        a.completion <= u64::MAX,
        a.timings is None,
    ensures
        a.prompt > 0 ==> prompt_tokens_of(as_completion(a)) == a.prompt,
        completion_tokens_of(as_completion(a)) == a.completion,
        a.calls.len() == 0 ==> message_of(as_completion(a)).at("tool_calls"@) is Null,
{
    reveal_strlit("content");
    reveal_strlit("reasoning_content");
    reveal_strlit("tool_calls");
    reveal_strlit("choices");
    reveal_strlit("usage");
    reveal_strlit("prompt_tokens");
    reveal_strlit("completion_tokens");
    reveal_strlit("prompt_tokens_details");
    reveal_strlit("cache_n");
    assert("prompt_tokens"@.len() == 13 && "completion_tokens"@.len() == 17
        && "prompt_tokens_details"@.len() == 21 && "cache_n"@.len() == 7);
    assert("choices"@.len() == 7 && "usage"@.len() == 5);
}

/// An event of one data line carries the value that the line writes; the mark of the end
/// of the stream and a comment carry none.
pub proof fn law_a_data_line_is_read(d: Seq<char>)
    requires
        !d.contains('\n'),
        d.len() > 0,
        d.last() != '\r',
        d != "[DONE]"@,
    ensures
        event_value("data: "@ + d) == parsed_json(d),
        d[0] != ' ' ==> event_value("data:"@ + d) == parsed_json(d),
        event_value("data: [DONE]"@) is None,
        event_value(": "@ + d) is None,
{
    reveal_strlit("data: ");
    reveal_strlit("data:");
    reveal_strlit(": ");
    reveal_strlit("[DONE]");
    reveal_strlit("data: [DONE]");
    let a = "data: "@ + d;
    let b = "data:"@ + d;
    let c = ": "@ + d;
    let e = "data: [DONE]"@;
    lemma_no_feed("data: "@, d);
    lemma_no_feed("data:"@, d);
    lemma_no_feed(": "@, d);
    crate::text::law_lines_end_at_line_feeds(a, Seq::empty());
    crate::text::law_lines_end_at_line_feeds(b, Seq::empty());
    crate::text::law_lines_end_at_line_feeds(c, Seq::empty());
    crate::text::law_lines_end_at_line_feeds(e, Seq::empty());
    lemma_data_line(d);
    lemma_one_line(a, Some(d));
    if d[0] != ' ' {
        lemma_one_line(b, Some(d));
    }
    lemma_one_line(c, None);
    assert(e =~= "data: "@ + "[DONE]"@);
    lemma_data_line("[DONE]"@);
    reveal_with_fuel(event_data, 2);
    assert(event_data(lines_of(e), 1) is None);
}

proof fn lemma_no_feed(a: Seq<char>, d: Seq<char>)
    requires
        !a.contains('\n'),
        !d.contains('\n'),
    ensures
        !(a + d).contains('\n'),
{
    let s = a + d;
    assert forall|i: int| 0 <= i < s.len() implies s[i] != '\n' by {
        if i < a.len() {
            assert(a.contains(a[i]));
        } else {
            assert(d.contains(d[i - a.len()]));
        }
    }
}

proof fn lemma_data_line(d: Seq<char>)
    requires
        d.len() > 0,
        d.last() != '\r',
    ensures
        data_line("data: "@ + d) == Some(d),
        d[0] != ' ' ==> data_line("data:"@ + d) == Some(d),
        data_line(": "@ + d) is None,
{
    reveal_strlit("data: ");
    reveal_strlit("data:");
    reveal_strlit(": ");
    let a = "data: "@ + d;
    let b = "data:"@ + d;
    let c = ": "@ + d;
    assert(a.last() == d.last() && b.last() == d.last() && c.last() == d.last());
    assert(a.subrange(0, 5) =~= "data:"@);
    assert(b.subrange(0, 5) =~= "data:"@);
    assert(a.skip(5).skip(1) =~= d);
    assert(b.skip(5) =~= d);
    if has_prefix(c, "data:"@) {
        assert(c.subrange(0, 5)[0] == c[0]);
    }
}

proof fn lemma_one_line(line: Seq<char>, d: Option<Seq<char>>)
    requires
        lines_of(line) == seq![line],
        data_line(line) == d,
        d matches Some(x) ==> x.len() > 0 && x != "[DONE]"@,
    ensures
        event_value(line) == (match d {
            Some(x) => parsed_json(x),
            None => None,
        }),
{
    reveal_with_fuel(event_data, 2);
    if let Some(x) = d {
        assert(Seq::<char>::empty() + x =~= x);
    }
}

/// Events come out in their order: what stands before the first blank line is the first
/// event, whatever follows it, and a text without a blank line waits for more.
pub proof fn law_events_end_at_blank_lines(first: Seq<char>, rest: Seq<char>)
    requires
        !first.contains('\n'),
        first.len() > 0,
        first.last() != '\r',
    ensures
        sse_events(first) == (Seq::<JsonV>::empty(), first),
        sse_events(first + "\n\n"@ + rest).0 == opt_seq(event_value(first)) + sse_events(rest).0,
        sse_events(first + "\n\n"@ + rest).1 == sse_events(rest).1,
        sse_events(first + "\r\n\r\n"@ + rest).0 == opt_seq(event_value(first)) + sse_events(rest).0,
{
    reveal_strlit("\n\n");
    reveal_strlit("\r\n\r\n");
    let a = "\r\n\r\n"@;
    let b = "\n\n"@;
    let n = first.len() as int;
    lemma_event_break(first);
    if let Some(i) = event_break(first) {
        if at(first, b, i) {
            assert(first.subrange(i, i + 2)[0] == first[i]);
            assert(first.contains(first[i]));
        } else {
            assert(first.subrange(i, i + 4)[1] == first[i + 1]);
            assert(first.contains(first[i + 1]));
        }
    }
    lemma_first_event(first, b, rest);
    lemma_first_event(first, a, rest);
}

proof fn lemma_first_event(first: Seq<char>, gap: Seq<char>, rest: Seq<char>)
    requires
        !first.contains('\n'),
        first.len() > 0,
        first.last() != '\r',
        gap == "\n\n"@ || gap == "\r\n\r\n"@,
    ensures
        sse_events(first + gap + rest).0 == opt_seq(event_value(first)) + sse_events(rest).0,
        sse_events(first + gap + rest).1 == sse_events(rest).1,
{
    let a = "\r\n\r\n"@;
    let b = "\n\n"@;
    let n = first.len() as int;
    let s = first + gap + rest;
    lemma_event_break(s);
    assert(s =~= first + (gap + rest));
    assert(s.subrange(n, n + gap.len()) =~= gap);
    assert(at(s, gap, n));
    lemma_no_break_in(first, gap + rest, n);
    assert(event_break(s) is Some);
    assert(event_break(s)->0 == n);
    if gap == b {
        if at(s, a, n) {
            assert(s.subrange(n, n + 4)[0] == s[n]);
            assert(s[n] == gap[0]);
        }
    }
    assert(after_break(s, n) == n + gap.len());
    assert(s.take(n) =~= first);
    assert(s.skip(n + gap.len()) =~= rest);
}

proof fn lemma_no_break_in(first: Seq<char>, more: Seq<char>, n: int)
    requires
        n == first.len(),
        n > 0,
        !first.contains('\n'),
        first.last() != '\r',
    ensures
        forall|j: int|
            0 <= j < n ==> !at(first + more, "\r\n\r\n"@, j) && !at(first + more, "\n\n"@, j),
{
    reveal_strlit("\n\n");
    reveal_strlit("\r\n\r\n");
    let s = first + more;
    assert forall|j: int| 0 <= j < n implies !at(s, "\r\n\r\n"@, j) && !at(s, "\n\n"@, j) by {
        assert(s[j] == first[j]);
        assert(first.contains(first[j]));
        if at(s, "\n\n"@, j) {
            assert(s.subrange(j, j + 2)[0] == s[j]);
        }
        if at(s, "\r\n\r\n"@, j) {
            assert(s.subrange(j, j + 4)[0] == s[j]);
            assert(s.subrange(j, j + 4)[1] == s[j + 1]);
            if j + 1 < n {
                assert(s[j + 1] == first[j + 1]);
                assert(first.contains(first[j + 1]));
            }
        }
    }
}

/// An event of two data lines carries the value that they write together, with a line feed
/// between them.
pub proof fn law_data_lines_are_put_together(a: Seq<char>, b: Seq<char>)
    requires
        !a.contains('\n') && !b.contains('\n'),
        a.len() > 0 && b.len() > 0,
        a.last() != '\r' && b.last() != '\r',
        a != "[DONE]"@ && b != "[DONE]"@,
    ensures
        event_value(("data: "@ + a).push('\n') + ("data: "@ + b)) == parsed_json(a.push('\n') + b),
{
    reveal_strlit("data: ");
    let x = "data: "@ + a;
    let y = "data: "@ + b;
    lemma_no_feed("data: "@, a);
    lemma_no_feed("data: "@, b);
    crate::text::law_lines_end_at_line_feeds(x, y);
    crate::text::law_lines_end_at_line_feeds(y, Seq::empty());
    lemma_data_line(a);
    lemma_data_line(b);
    let s = x.push('\n') + y;
    assert(x.last() == a.last());
    assert(lines_of(s) =~= seq![x, y]);
    reveal_with_fuel(event_data, 3);
    assert(Seq::<char>::empty() + a =~= a);
    assert(event_data(lines_of(s), 1) == Some(a));
    assert(event_data(lines_of(s), 2) == Some(a.push('\n') + b));
}

} // verus!
