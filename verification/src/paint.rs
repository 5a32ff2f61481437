//! Live painting of a growing reply: what of the thought and of the answer may be
//! shown, and what is new since the last look. Tool calls are never shown as
//! answer text.

use vstd::prelude::*;
use vstd::utf8::{decode_utf8, encode_utf8, is_char_boundary};
use crate::text::{
    at, chars_of, find, has_prefix, holds, lemma_encode_concat, lemma_find_from, search, stands_at,
    string_of,
};
use crate::think::{split_of, split_think_live};

verus! {

/// The tags whose beginnings are held back.
pub open spec fn tags() -> Seq<Seq<char>> {
    seq!["<think>"@, "</think>"@, "<tool_call>"@]
}

/// A beginning of a tag that is not yet the whole tag.
pub open spec fn tag_start(t: Seq<char>) -> bool {
    t.len() > 0 && exists|i: int|
        0 <= i < 3 && t.len() < tags()[i].len() && has_prefix(#[trigger] tags()[i], t)
}

/// The first index, not below `i`, from which the rest of `s` is the beginning of a tag.
pub open spec fn held_from(s: Seq<char>, i: int) -> int
    decreases s.len() - i,
{
    if i < 0 || i >= s.len() {
        s.len() as int
    } else if tag_start(s.skip(i)) {
        i
    } else {
        held_from(s, i + 1)
    }
}

/// What of a growing text can be shown: all but a beginning of a tag at its end.
pub open spec fn settled(s: Seq<char>) -> Seq<char> {
    s.take(held_from(s, 0))
}

proof fn lemma_tag_lens()
    ensures
        "<think>"@.len() == 7,
        "</think>"@.len() == 8,
        "<tool_call>"@.len() == 11,
{
    reveal_strlit("<think>");
    reveal_strlit("</think>");
    reveal_strlit("<tool_call>");
}

proof fn lemma_held_late(s: Seq<char>, i: int)
    requires
        0 <= i <= s.len(),
    ensures
        i + 10 < s.len() ==> held_from(s, i) == held_from(s, i + 1),
        i <= held_from(s, i) <= s.len(),
        held_from(s, i) < s.len() ==> tag_start(s.skip(held_from(s, i))),
    decreases s.len() - i,
{
    lemma_tag_lens();
    if i < s.len() {
        lemma_held_late(s, i + 1);
        if tag_start(s.skip(i)) {
            let k = choose|k: int|
                0 <= k < 3 && s.skip(i).len() < tags()[k].len() && has_prefix(
                    #[trigger] tags()[k],
                    s.skip(i),
                );
            assert(tags()[k].len() <= 11);
        }
    }
}

proof fn lemma_held_skip(s: Seq<char>, i: int)
    requires
        0 <= i,
        i + 10 <= s.len() || i == 0,
    ensures
        held_from(s, 0) == held_from(s, i),
    decreases i,
{
    if i > 0 {
        lemma_held_skip(s, i - 1);
        lemma_held_late(s, i - 1);
    }
}

fn is_tag_start(t: &Vec<char>) -> (r: bool)
    ensures
        r == tag_start(t@),
{
    let a = chars_of("<think>");
    let b = chars_of("</think>");
    let c = chars_of("<tool_call>");
    let r: bool = t.len() > 0 && ((t.len() < a.len() && stands_at(&a, t, 0)) || (t.len() < b.len()
        && stands_at(&b, t, 0)) || (t.len() < c.len() && stands_at(&c, t, 0)));
    assert(tags()[0] == a@ && tags()[1] == b@ && tags()[2] == c@);
    r
}

/// Cuts off a beginning of a tag at the end of a growing text.
pub fn hold_back_tag_prefix(s: &str) -> (r: (String, String))
    ensures
        r.0@ == settled(s@),
        r.0@ + r.1@ == s@,
        r.1@.len() > 0 ==> tag_start(r.1@),
{
    let cs = chars_of(s);
    let n: usize = cs.len();
    let mut i: usize = if n > 10 {
        n - 10
    } else {
        0
    };
    proof {
        lemma_held_skip(s@, i as int);
        lemma_held_late(s@, 0);
    }
    while i < n
        invariant
            i <= n == cs@.len(),
            cs@ == s@,
            held_from(s@, 0) == held_from(s@, i as int),
            0 <= held_from(s@, 0) <= s@.len(),
            held_from(s@, 0) < s@.len() ==> tag_start(s@.skip(held_from(s@, 0))),
        decreases n - i,
    {
        let rest = string_of(&cs, i, n);
        assert(rest@ =~= s@.skip(i as int));
        if is_tag_start(&chars_of(rest.as_str())) {
            let head = string_of(&cs, 0, i);
            assert(head@ =~= settled(s@));
            assert(head@ + rest@ =~= s@);
            return (head, rest);
        }
        i = i + 1;
    }
    assert(settled(s@) =~= s@);
    assert(s@ + Seq::<char>::empty() =~= s@);
    (s.to_owned(), String::new())
}

/// What stands before the first tool call.
pub open spec fn before_tool_of(s: Seq<char>) -> Seq<char> {
    match find(s, "<tool_call>"@) {
        Some(i) => s.take(i),
        None => s,
    }
}

/// What stands before the first tool call.
pub fn before_tool(s: &str) -> (r: String)
    ensures
        r@ == before_tool_of(s@),
{
    let cs = chars_of(s);
    match search(&cs, &chars_of("<tool_call>"), 0) {
        Some(i) => {
            assert(cs@.subrange(0, i as int) =~= s@.take(i as int));
            string_of(&cs, 0, i)
        },
        None => s.to_owned(),
    }
}

/// The thought and the answer that may be shown of a growing reply.
pub open spec fn visible(reasoning: Seq<char>, content: Seq<char>) -> (Seq<char>, Seq<char>) {
    let parts = split_of(settled(content), false);
    (
        if reasoning.len() > 0 {
            before_tool_of(settled(reasoning))
        } else {
            before_tool_of(parts.0)
        },
        before_tool_of(parts.1),
    )
}

/// The thought and the answer that may be shown of a growing reply.
pub fn visible_raw(reasoning: &str, content: &str) -> (r: (String, String))
    ensures
        (r.0@, r.1@) == visible(reasoning@, content@),
{
    let c = hold_back_tag_prefix(content).0;
    let (tag_think, answer) = split_think_live(c.as_str());
    let think: String = if !reasoning.is_empty() {
        let shown = hold_back_tag_prefix(reasoning).0;
        before_tool(shown.as_str())
    } else {
        before_tool(tag_think.as_str())
    };
    (think, before_tool(answer.as_str()))
}

// ---------------------------------------------------------------------------
// What is new
// ---------------------------------------------------------------------------

/// The part of `full` after its first `n` bytes, where they end a character and
/// something follows.
pub open spec fn new_part(n: nat, full: Seq<char>) -> Option<Seq<char>> {
    let bytes = encode_utf8(full);
    if n < bytes.len() && is_char_boundary(bytes, n as int) {
        Some(decode_utf8(bytes.skip(n as int)))
    } else {
        None
    }
}

/// The part of `full` after its first `emitted` bytes, and how many bytes it has in all.
pub fn emit_suffix(emitted: usize, full: &str) -> (r: (usize, Option<String>))
    ensures
        r.0 == encode_utf8(full@).len(),
        r.1 is Some <==> new_part(emitted as nat, full@) is Some,
        r.1 matches Some(t) ==> new_part(emitted as nat, full@) == Some(t@),
{
    let len: usize = full.as_bytes().len();
    if emitted < len && full.is_char_boundary(emitted) {
        let (_, rest) = full.split_at(emitted);
        proof {
            assert(encode_utf8(full@).skip(emitted as int) =~= encode_utf8(full@).subrange(
                emitted as int,
                encode_utf8(full@).len() as int,
            ));
            vstd::utf8::encode_utf8_decode_utf8(rest@);
        }
        (len, Some(rest.to_owned()))
    } else {
        (len, None)
    }
}

/// Something to paint.
#[derive(Debug, PartialEq, Eq)]
pub enum PaintEvent {
    /// A new reply begins.
    Reset,
    Reasoning(String),
    Content(String),
}

pub ghost enum PaintV {
    Reset,
    Reasoning(Seq<char>),
    Content(Seq<char>),
}

impl View for PaintEvent {
    type V = PaintV;

    open spec fn view(&self) -> PaintV {
        match self {
            PaintEvent::Reset => PaintV::Reset,
            PaintEvent::Reasoning(s) => PaintV::Reasoning(s@),
            PaintEvent::Content(s) => PaintV::Content(s@),
        }
    }
}

pub open spec fn paints(v: Seq<PaintEvent>) -> Seq<PaintV> {
    v.map_values(|e: PaintEvent| e@)
}

/// How much of a reply has been painted.
#[derive(Debug, Clone, Copy, PartialEq, Eq)]
pub struct StreamPaint {
    pub think_n: usize,
    pub text_n: usize,
    pub hide_text: bool,
    pub started: bool,
}

pub open spec fn reset_part(p: StreamPaint) -> Seq<PaintV> {
    if p.started {
        Seq::empty()
    } else {
        seq![PaintV::Reset]
    }
}

pub open spec fn think_part(p: StreamPaint, think: Seq<char>) -> Seq<PaintV> {
    match new_part(p.think_n as nat, think) {
        Some(t) => seq![PaintV::Reasoning(t)],
        None => Seq::empty(),
    }
}

pub open spec fn text_part(p: StreamPaint, text: Seq<char>) -> Seq<PaintV> {
    match new_part(p.text_n as nat, text) {
        Some(t) => seq![PaintV::Content(t)],
        None => Seq::empty(),
    }
}

impl StreamPaint {
    pub fn new() -> (r: StreamPaint)
        ensures
            r.think_n == 0,
            r.text_n == 0,
            !r.hide_text,
            !r.started,
    {
        StreamPaint { think_n: 0, text_n: 0, hide_text: false, started: false }
    }

    fn start(&mut self, out: &mut Vec<PaintEvent>)
        ensures
            final(self).started,
            final(self).think_n == old(self).think_n,
            final(self).text_n == old(self).text_n,
            final(self).hide_text == old(self).hide_text,
            paints(final(out)@) == paints(old(out)@) + reset_part(*old(self)),
    {
        let ghost before = out@;
        if !self.started {
            out.push(PaintEvent::Reset);
            self.started = true;
        }
        assert(paints(out@) =~= paints(before) + reset_part(*old(self)));
    }

    fn emit_think(&mut self, full: &str, out: &mut Vec<PaintEvent>)
        ensures
            final(self).think_n == encode_utf8(full@).len(),
            final(self).started == old(self).started,
            final(self).text_n == old(self).text_n,
            final(self).hide_text == old(self).hide_text,
            paints(final(out)@) == paints(old(out)@) + think_part(*old(self), full@),
    {
        let ghost before = out@;
        let (n, part) = emit_suffix(self.think_n, full);
        self.think_n = n;
        if let Some(t) = part {
            out.push(PaintEvent::Reasoning(t));
        }
        assert(paints(out@) =~= paints(before) + think_part(*old(self), full@));
    }

    fn emit_text(&mut self, full: &str, out: &mut Vec<PaintEvent>)
        ensures
            final(self).text_n == encode_utf8(full@).len(),
            final(self).started == old(self).started,
            final(self).think_n == old(self).think_n,
            final(self).hide_text == old(self).hide_text,
            paints(final(out)@) == paints(old(out)@) + text_part(*old(self), full@),
    {
        let ghost before = out@;
        let (n, part) = emit_suffix(self.text_n, full);
        self.text_n = n;
        if let Some(t) = part {
            out.push(PaintEvent::Content(t));
        }
        assert(paints(out@) =~= paints(before) + text_part(*old(self), full@));
    }

    /// The reply so far, as it came in. Thoughts in the content are split off, and
    /// once there are tool calls no more answer is shown.
    pub fn push_raw(&mut self, reasoning: &str, content: &str, has_tools: bool) -> (r: Vec<
        PaintEvent,
    >)
        ensures
            final(self).started,
            final(self).hide_text == (old(self).hide_text || has_tools),
            final(self).think_n == encode_utf8(visible(reasoning@, content@).0).len(),
            final(self).hide_text ==> final(self).text_n == old(self).text_n,
            !final(self).hide_text ==> final(self).text_n == encode_utf8(
                visible(reasoning@, content@).1,
            ).len(),
            paints(r@) == reset_part(*old(self)) + think_part(
                *old(self),
                visible(reasoning@, content@).0,
            ) + (if final(self).hide_text {
                Seq::empty()
            } else {
                text_part(*old(self), visible(reasoning@, content@).1)
            }),
    {
        let mut out: Vec<PaintEvent> = Vec::new();
        assert(paints(out@) =~= Seq::empty());
        self.start(&mut out);
        if has_tools {
            self.hide_text = true;
        }
        let (think, text) = visible_raw(reasoning, content);
        self.emit_think(think.as_str(), &mut out);
        if !self.hide_text {
            self.emit_text(text.as_str(), &mut out);
        }
        assert(Seq::<PaintV>::empty() + reset_part(*old(self)) =~= reset_part(*old(self)));
        assert(paints(out@) + Seq::<PaintV>::empty() =~= paints(out@));
        out
    }

    /// A reply that was already taken apart.
    pub fn push_clean(&mut self, reasoning: &str, content: &str) -> (r: Vec<PaintEvent>)
        ensures
            final(self).started,
            final(self).hide_text == old(self).hide_text,
            final(self).think_n == encode_utf8(reasoning@).len(),
            final(self).text_n == encode_utf8(content@).len(),
            paints(r@) == reset_part(*old(self)) + think_part(*old(self), reasoning@) + text_part(
                *old(self),
                content@,
            ),
    {
        let mut out: Vec<PaintEvent> = Vec::new();
        assert(paints(out@) =~= Seq::empty());
        self.start(&mut out);
        self.emit_think(reasoning, &mut out);
        self.emit_text(content, &mut out);
        assert(Seq::<PaintV>::empty() + reset_part(*old(self)) =~= reset_part(*old(self)));
        out
    }
}

/// The paint of a finished turn: nothing where the thought ran into its cap or
/// nothing was said.
pub fn paint_clean(reasoning: &str, content: &str, watchdog: bool) -> (r: Vec<PaintEvent>)
    ensures
        paints(r@) == (if watchdog || (reasoning@.len() == 0 && content@.len() == 0) {
            Seq::empty()
        } else {
            let fresh = StreamPaint { think_n: 0, text_n: 0, hide_text: false, started: false };
            seq![PaintV::Reset] + think_part(fresh, reasoning@) + text_part(fresh, content@)
        }),
{
    if watchdog || (reasoning.is_empty() && content.is_empty()) {
        let out: Vec<PaintEvent> = Vec::new();
        assert(paints(out@) =~= Seq::empty());
        return out;
    }
    let mut p = StreamPaint::new();
    p.push_clean(reasoning, content)
}

// ---------------------------------------------------------------------------
// On a terminal
// ---------------------------------------------------------------------------

/// What has been written to a terminal.
#[derive(Debug, Clone, Copy, PartialEq, Eq)]
pub struct StdioState {
    pub think_streamed: bool,
    pub text_streamed: bool,
    pub think_open: bool,
}

/// A piece of terminal output.
#[derive(Debug, PartialEq, Eq)]
pub enum StdioWrite {
    Stdout(String),
    Stderr(String),
}

/// What to write for one paint event.
pub open spec fn stdio_writes(s: StdioState, e: PaintV) -> Seq<(bool, Seq<char>)> {
    let close = if s.think_open {
        seq![(false, seq!['\n'])]
    } else {
        Seq::empty()
    };
    match e {
        PaintV::Reset => close,
        PaintV::Reasoning(t) => if t.len() == 0 {
            Seq::empty()
        } else if s.think_open {
            seq![(false, t)]
        } else {
            seq![(false, "[think]\n"@), (false, t)]
        },
        PaintV::Content(t) => if t.len() == 0 {
            Seq::empty()
        } else {
            close.push((true, t))
        },
    }
}

/// The terminal after one paint event.
pub open spec fn stdio_after(s: StdioState, e: PaintV) -> StdioState {
    match e {
        PaintV::Reset => StdioState { think_open: false, ..s },
        PaintV::Reasoning(t) => if t.len() == 0 {
            s
        } else {
            StdioState { think_open: true, think_streamed: true, ..s }
        },
        PaintV::Content(t) => if t.len() == 0 {
            s
        } else {
            StdioState { think_open: false, text_streamed: true, ..s }
        },
    }
}

pub open spec fn writes_view(v: Seq<StdioWrite>) -> Seq<(bool, Seq<char>)> {
    v.map_values(
        |w: StdioWrite|
            match w {
                StdioWrite::Stdout(s) => (true, s@),
                StdioWrite::Stderr(s) => (false, s@),
            },
    )
}

impl StdioState {
    pub fn new() -> (r: StdioState)
        ensures
            !r.think_streamed,
            !r.text_streamed,
            !r.think_open,
    {
        StdioState { think_streamed: false, text_streamed: false, think_open: false }
    }

    /// What to write for one paint event: thoughts to standard error under a
    /// heading, the answer to standard output.
    pub fn write(&mut self, e: &PaintEvent) -> (r: Vec<StdioWrite>)
        ensures
            writes_view(r@) == stdio_writes(*old(self), e@),
            *final(self) == stdio_after(*old(self), e@),
    {
        let ghost s0 = *self;
        let mut out: Vec<StdioWrite> = Vec::new();
        match e {
            PaintEvent::Reset => {
                if self.think_open {
                    let mut nl: String = String::new();
                    nl.push('\n');
                    assert(nl@ =~= seq!['\n']);
                    out.push(StdioWrite::Stderr(nl));
                }
                self.think_open = false;
            },
            PaintEvent::Reasoning(t) => {
                if !t.as_str().is_empty() {
                    if !self.think_open {
                        out.push(StdioWrite::Stderr("[think]\n".to_owned()));
                    }
                    out.push(StdioWrite::Stderr(t.clone()));
                    self.think_open = true;
                    self.think_streamed = true;
                }
            },
            PaintEvent::Content(t) => {
                if !t.as_str().is_empty() {
                    if self.think_open {
                        let mut nl: String = String::new();
                        nl.push('\n');
                        assert(nl@ =~= seq!['\n']);
                        out.push(StdioWrite::Stderr(nl));
                    }
                    out.push(StdioWrite::Stdout(t.clone()));
                    self.think_open = false;
                    self.text_streamed = true;
                }
            },
        }
        assert(writes_view(out@) =~= stdio_writes(s0, e@));
        out
    }
}

// ---------------------------------------------------------------------------
// Where chunks go
// ---------------------------------------------------------------------------

/// Who takes the chunks of a reply: those who follow the session's events, or a
/// terminal.
#[derive(Debug, Clone, Copy, PartialEq, Eq)]
pub enum TokenSinkKind {
    Events,
    Stdio(StdioState),
}

/// Where the chunks of a reply go.
#[derive(Debug, Clone, Copy, PartialEq, Eq)]
pub struct TokenSink {
    pub kind: TokenSinkKind,
}

/// What a sink puts out.
#[derive(Debug, PartialEq, Eq)]
pub enum SinkWrite {
    Event(PaintEvent),
    Terminal(StdioWrite),
}

pub ghost enum SinkWriteV {
    Event(PaintV),
    Terminal(bool, Seq<char>),
}

impl View for SinkWrite {
    type V = SinkWriteV;

    open spec fn view(&self) -> SinkWriteV {
        match self {
            SinkWrite::Event(e) => SinkWriteV::Event(e@),
            SinkWrite::Terminal(StdioWrite::Stdout(s)) => SinkWriteV::Terminal(true, s@),
            SinkWrite::Terminal(StdioWrite::Stderr(s)) => SinkWriteV::Terminal(false, s@),
        }
    }
}

pub open spec fn sink_view(v: Seq<SinkWrite>) -> Seq<SinkWriteV> {
    v.map_values(|w: SinkWrite| w@)
}

/// Nothing to show.
pub open spec fn nothing(e: PaintV) -> bool {
    match e {
        PaintV::Reset => false,
        PaintV::Reasoning(t) => t.len() == 0,
        PaintV::Content(t) => t.len() == 0,
    }
}

/// What a sink puts out for one paint event.
pub open spec fn sent(k: TokenSinkKind, e: PaintV) -> Seq<SinkWriteV> {
    match k {
        TokenSinkKind::Events => if nothing(e) {
            Seq::empty()
        } else {
            seq![SinkWriteV::Event(e)]
        },
        TokenSinkKind::Stdio(s) => stdio_writes(s, e).map_values(
            |w: (bool, Seq<char>)| SinkWriteV::Terminal(w.0, w.1),
        ),
    }
}

/// The sink after one paint event.
pub open spec fn sink_after(k: TokenSinkKind, e: PaintV) -> TokenSinkKind {
    match k {
        TokenSinkKind::Events => k,
        TokenSinkKind::Stdio(s) => TokenSinkKind::Stdio(stdio_after(s, e)),
    }
}

impl TokenSink {
    /// A sink for those who follow the session's events.
    pub fn events() -> (r: TokenSink)
        ensures
            r.kind == TokenSinkKind::Events,
    {
        TokenSink { kind: TokenSinkKind::Events }
    }

    /// A sink for a terminal.
    pub fn stdio(state: StdioState) -> (r: TokenSink)
        ensures
            r.kind == TokenSinkKind::Stdio(state),
    {
        TokenSink { kind: TokenSinkKind::Stdio(state) }
    }

    /// Puts out one paint event.
    pub fn send(&mut self, e: PaintEvent) -> (r: Vec<SinkWrite>)
        ensures
            sink_view(r@) == sent(old(self).kind, e@),
            final(self).kind == sink_after(old(self).kind, e@),
    {
        let ghost k0 = self.kind;
        let ghost ev = e@;
        let mut out: Vec<SinkWrite> = Vec::new();
        match self.kind {
            TokenSinkKind::Events => {
                let empty: bool = match &e {
                    PaintEvent::Reset => false,
                    PaintEvent::Reasoning(t) => t.as_str().is_empty(),
                    PaintEvent::Content(t) => t.as_str().is_empty(),
                };
                if !empty {
                    out.push(SinkWrite::Event(e));
                }
                assert(sink_view(out@) =~= sent(k0, ev));
            },
            TokenSinkKind::Stdio(state) => {
                let mut s = state;
                let mut writes = s.write(&e);
                let ghost all = writes@;
                let ghost want = sent(k0, ev);
                assert(writes_view(all) == stdio_writes(state, ev));
                assert(want.len() == all.len());
                assert(sink_view(out@) =~= want.skip(all.len() as int));
                while writes.len() > 0
                    invariant
                        writes@ == all.take(writes@.len() as int),
                        writes@.len() <= all.len(),
                        want.len() == all.len(),
                        writes_view(all) == stdio_writes(state, ev),
                        want == stdio_writes(state, ev).map_values(
                            |w: (bool, Seq<char>)| SinkWriteV::Terminal(w.0, w.1),
                        ),
                        sink_view(out@) == want.skip(writes@.len() as int),
                    decreases writes@.len(),
                {
                    let ghost n = writes@.len() - 1;
                    let w = writes.pop();
                    if let Some(x) = w {
                        let ghost before = out@;
                        assert(x == all[n]);
                        assert(writes_view(all)[n] == stdio_writes(state, ev)[n]);
                        out.insert(0, SinkWrite::Terminal(x));
                        assert(sink_view(out@) =~= want.skip(n)) by {
                            assert(out@[0]@ == want[n]);
                            assert(sink_view(out@).skip(1) =~= sink_view(before));
                            assert(want.skip(n).skip(1) =~= want.skip(n + 1));
                            assert forall|i: int| 0 <= i < out@.len() implies sink_view(out@)[i]
                                == want.skip(n)[i] by {
                                if i > 0 {
                                    assert(sink_view(before)[i - 1] == want.skip(n + 1)[i - 1]);
                                }
                            }
                        }
                        assert(writes@ =~= all.take(n));
                    }
                }
                assert(want.skip(0) =~= want);
                self.kind = TokenSinkKind::Stdio(s);
            },
        }
        out
    }

    /// A new reply begins.
    pub fn reset(&mut self) -> (r: Vec<SinkWrite>)
        ensures
            sink_view(r@) == sent(old(self).kind, PaintV::Reset),
            final(self).kind == sink_after(old(self).kind, PaintV::Reset),
    {
        self.send(PaintEvent::Reset)
    }

    /// A chunk of a thought.
    pub fn reasoning(&mut self, text: &str) -> (r: Vec<SinkWrite>)
        ensures
            sink_view(r@) == sent(old(self).kind, PaintV::Reasoning(text@)),
            final(self).kind == sink_after(old(self).kind, PaintV::Reasoning(text@)),
    {
        self.send(PaintEvent::Reasoning(text.to_owned()))
    }

    /// A chunk of the answer.
    pub fn content(&mut self, text: &str) -> (r: Vec<SinkWrite>)
        ensures
            sink_view(r@) == sent(old(self).kind, PaintV::Content(text@)),
            final(self).kind == sink_after(old(self).kind, PaintV::Content(text@)),
    {
        self.send(PaintEvent::Content(text.to_owned()))
    }
}

/// The sink of a session: its events where they are followed, else the terminal of a
/// single prompt.
pub fn live_sink(followed: bool, print: bool, state: StdioState) -> (r: Option<TokenSink>)
    ensures
        r is Some <==> followed || print,
        r matches Some(k) ==> k.kind == (if followed {
            TokenSinkKind::Events
        } else {
            TokenSinkKind::Stdio(state)
        }),
{
    if followed {
        Some(TokenSink::events())
    } else if print {
        Some(TokenSink::stdio(state))
    } else {
        None
    }
}

// ---------------------------------------------------------------------------
// Laws
// ---------------------------------------------------------------------------

/// What stands before the first tool call holds no tool call.
pub proof fn law_before_tool_has_none(s: Seq<char>)
    ensures
        !holds(before_tool_of(s), "<tool_call>"@),
{
    lemma_find_from(s, "<tool_call>"@, 0);
    let t = before_tool_of(s);
    let tag = "<tool_call>"@;
    if holds(t, tag) {
        let j = choose|j: int| at(t, tag, j);
        if let Some(i) = find(s, tag) {
            assert(t.subrange(j, j + tag.len()) =~= s.subrange(j, j + tag.len()));
            assert(at(s, tag, j));
            reveal_strlit("<tool_call>");
        }
    }
}

/// A tool call is never shown, neither as thought nor as answer.
pub proof fn law_tool_calls_are_never_shown(reasoning: Seq<char>, content: Seq<char>)
    ensures
        !holds(visible(reasoning, content).0, "<tool_call>"@),
        !holds(visible(reasoning, content).1, "<tool_call>"@),
{
    law_before_tool_has_none(settled(reasoning));
    law_before_tool_has_none(split_of(settled(content), false).0);
    law_before_tool_has_none(split_of(settled(content), false).1);
}

/// A text that grew by `more` has exactly `more` that is new: what was painted
/// before, followed by what is painted now, is the text.
pub proof fn law_growth_is_painted_once(shown: Seq<char>, more: Seq<char>)
    ensures
        new_part(encode_utf8(shown).len(), shown + more) == (if more.len() == 0 {
            None::<Seq<char>>
        } else {
            Some(more)
        }),
{
    lemma_encode_concat(shown, more);
    let whole = encode_utf8(shown + more);
    let n = encode_utf8(shown).len() as int;
    assert(whole.skip(n) =~= encode_utf8(more));
    vstd::utf8::encode_utf8_decode_utf8(more);
    vstd::utf8::encode_utf8_valid_utf8(shown);
    vstd::utf8::encode_utf8_valid_utf8(more);
    vstd::utf8::encode_utf8_valid_utf8(shown + more);
    if more.len() == 0 {
        assert(shown + more =~= shown);
    } else {
        lemma_boundary_after(shown, more);
        vstd::utf8::encode_utf8_first_scalar(more);
        assert(encode_utf8(more).len() > 0);
    }
}

proof fn lemma_boundary_after(a: Seq<char>, b: Seq<char>)
    ensures
        is_char_boundary(encode_utf8(a + b), encode_utf8(a).len() as int),
    decreases a.len(),
{
    lemma_encode_concat(a, b);
    let bytes = encode_utf8(a + b);
    vstd::utf8::encode_utf8_valid_utf8(a + b);
    if a.len() == 0 {
        vstd::utf8::is_char_boundary_start_end_of_seq(bytes);
    } else {
        let rest = a.drop_first();
        lemma_boundary_after(rest, b);
        assert((a + b).drop_first() =~= rest + b);
        vstd::utf8::encode_utf8_first_scalar(a + b);
        assert(vstd::utf8::pop_first_scalar(bytes) =~= encode_utf8(rest + b));
    }
}

/// A text without a tag is shown as it is, and the beginning of a tag at its end is held
/// back until it is known what it is.
pub proof fn law_the_beginning_of_a_tag_is_held_back(s: Seq<char>, t: Seq<char>, i: int)
    requires
        !s.contains('<'),
        0 <= i < 3,
        0 < t.len() < tags()[i].len(),
        has_prefix(tags()[i], t),
    ensures
        settled(s) == s,
        settled(s + t) == s,
        tags() == seq!["<think>"@, "</think>"@, "<tool_call>"@],
{
    reveal_strlit("<think>");
    reveal_strlit("</think>");
    reveal_strlit("<tool_call>");
    let tag = tags()[i];
    assert(tag[0] == '<');
    assert(tag.subrange(0, t.len() as int)[0] == t[0]);
    lemma_held_past(s, Seq::empty(), 0);
    assert(s + Seq::<char>::empty() =~= s);
    assert(s.take(s.len() as int) =~= s);
    let u = s + t;
    lemma_held_past(s, t, 0);
    assert(u.skip(s.len() as int) =~= t);
    assert(tag_start(t));
    assert(held_from(u, s.len() as int) == s.len());
    assert(u.take(s.len() as int) =~= s);
}

proof fn lemma_held_past(s: Seq<char>, t: Seq<char>, i: int)
    requires
        0 <= i <= s.len(),
        !s.contains('<'),
    ensures
        held_from(s + t, i) == held_from(s + t, s.len() as int),
    decreases s.len() - i,
{
    if i < s.len() {
        let u = s + t;
        let w = u.skip(i);
        assert(w[0] == s[i]);
        assert(s.contains(s[i]));
        if tag_start(w) {
            reveal_strlit("<think>");
            reveal_strlit("</think>");
            reveal_strlit("<tool_call>");
            let k = choose|k: int|
                0 <= k < 3 && w.len() < tags()[k].len() && has_prefix(#[trigger] tags()[k], w);
            assert(tags()[k].subrange(0, w.len() as int)[0] == tags()[k][0]);
            assert(tags()[k][0] == '<');
        }
        lemma_held_past(s, t, i + 1);
    }
}

/// Thought and answer without any tag are shown as they came.
pub proof fn law_plain_replies_are_shown_whole(reasoning: Seq<char>, content: Seq<char>)
    requires
        !reasoning.contains('<'),
        !content.contains('<'),
    ensures
        visible(reasoning, content).0 == reasoning,
        visible(reasoning, content).1 == content,
{
    reveal_strlit("<think>");
    reveal_strlit("<tool_call>");
    lemma_no_tag(reasoning, "<tool_call>"@);
    lemma_no_tag(content, "<tool_call>"@);
    lemma_no_tag(content, "<think>"@);
    lemma_held_past(reasoning, Seq::empty(), 0);
    lemma_held_past(content, Seq::empty(), 0);
    assert(reasoning + Seq::<char>::empty() =~= reasoning);
    assert(content + Seq::<char>::empty() =~= content);
    assert(reasoning.take(reasoning.len() as int) =~= reasoning);
    assert(content.take(content.len() as int) =~= content);
    crate::think::law_no_think_is_all_answer(content, false);
    lemma_find_from(reasoning, "<tool_call>"@, 0);
    lemma_find_from(content, "<tool_call>"@, 0);
    let e = Seq::<char>::empty();
    lemma_find_from(e, "<tool_call>"@, 0);
    if reasoning.len() == 0 {
        assert(before_tool_of(e) =~= reasoning);
    }
}

proof fn lemma_no_tag(s: Seq<char>, tag: Seq<char>)
    requires
        !s.contains('<'),
        tag.len() > 0,
        tag[0] == '<',
    ensures
        !holds(s, tag),
{
    if holds(s, tag) {
        let i = choose|i: int| at(s, tag, i);
        assert(s.subrange(i, i + tag.len())[0] == s[i]);
        assert(s.contains(s[i]));
    }
}

/// What a terminal is given: the answer on its own, a thought beside it under a heading that
/// is written once, and a line feed where the thought ends. Nothing writes nothing.
pub proof fn law_what_a_terminal_is_given(s: StdioState, t: Seq<char>)
    requires
        t.len() > 0,
    ensures
        !s.think_open ==> stdio_writes(s, PaintV::Content(t)) == seq![(true, t)],
        s.think_open ==> stdio_writes(s, PaintV::Content(t)) == seq![
            (false, seq!['\n']),
            (true, t),
        ],
        !s.think_open ==> stdio_writes(s, PaintV::Reasoning(t)) == seq![
            (false, "[think]\n"@),
            (false, t),
        ],
        s.think_open ==> stdio_writes(s, PaintV::Reasoning(t)) == seq![(false, t)],
        stdio_writes(s, PaintV::Content(Seq::empty())).len() == 0,
        stdio_writes(s, PaintV::Reasoning(Seq::empty())).len() == 0,
        stdio_after(s, PaintV::Content(t)).text_streamed,
        !stdio_after(s, PaintV::Content(t)).think_open,
        stdio_after(s, PaintV::Reasoning(t)).think_open && stdio_after(
            s,
            PaintV::Reasoning(t),
        ).think_streamed,
        !stdio_after(s, PaintV::Reset).think_open,
        stdio_after(s, PaintV::Reset).text_streamed == s.text_streamed,
{
    if s.think_open {
        assert(stdio_writes(s, PaintV::Content(t)) =~= seq![(false, seq!['\n']), (true, t)]);
    } else {
        assert(stdio_writes(s, PaintV::Content(t)) =~= seq![(true, t)]);
    }
}

/// What is painted of a growing reply: once that it begins, then what is new of the thought
/// and of the answer, where anything is.
pub proof fn law_what_is_painted(p: StreamPaint, shown: Seq<char>, more: Seq<char>)
    ensures
        !p.started ==> reset_part(p) == seq![PaintV::Reset],
        p.started ==> reset_part(p).len() == 0,
        p.think_n == encode_utf8(shown).len() && more.len() > 0 ==> think_part(p, shown + more)
            == seq![PaintV::Reasoning(more)],
        p.think_n == encode_utf8(shown).len() ==> think_part(p, shown).len() == 0,
        p.text_n == encode_utf8(shown).len() && more.len() > 0 ==> text_part(p, shown + more)
            == seq![PaintV::Content(more)],
        p.text_n == encode_utf8(shown).len() ==> text_part(p, shown).len() == 0,
{
    law_growth_is_painted_once(shown, more);
    law_growth_is_painted_once(shown, Seq::empty());
    assert(shown + Seq::<char>::empty() =~= shown);
}

/// A sink of events hands on every event that shows anything; one of a terminal writes.
pub proof fn law_what_a_sink_puts_out(s: StdioState, t: Seq<char>)
    requires
        t.len() > 0,
    ensures
        sent(TokenSinkKind::Events, PaintV::Content(t)) == seq![
            SinkWriteV::Event(PaintV::Content(t)),
        ],
        sent(TokenSinkKind::Events, PaintV::Reasoning(t)) == seq![
            SinkWriteV::Event(PaintV::Reasoning(t)),
        ],
        sent(TokenSinkKind::Events, PaintV::Reset) == seq![SinkWriteV::Event(PaintV::Reset)],
        sent(TokenSinkKind::Events, PaintV::Content(Seq::empty())).len() == 0,
        sent(TokenSinkKind::Stdio(s), PaintV::Content(t)).len() > 0,
        sent(TokenSinkKind::Stdio(s), PaintV::Content(t)).last() == SinkWriteV::Terminal(true, t),
        sent(TokenSinkKind::Stdio(s), PaintV::Reasoning(t)).last() == SinkWriteV::Terminal(
            false,
            t,
        ),
        sink_after(TokenSinkKind::Events, PaintV::Content(t)) == TokenSinkKind::Events,
        sink_after(TokenSinkKind::Stdio(s), PaintV::Content(t)) == TokenSinkKind::Stdio(
            stdio_after(s, PaintV::Content(t)),
        ),
{
}

/// A tag that is complete is no longer held back.
pub proof fn law_a_whole_tag_is_not_held_back(s: Seq<char>, i: int)
    requires
        !s.contains('<'),
        0 <= i < 3,
    ensures
        settled(s + tags()[i]) == s + tags()[i],
{
    let t = tags()[i];
    let u = s + t;
    lemma_held_past(s, t, 0);
    assert(u.skip(s.len() as int) =~= t);
    lemma_whole_tag(u, t, s.len() as int);
    assert(u.take(u.len() as int) =~= u);
}

proof fn lemma_whole_tag(u: Seq<char>, t: Seq<char>, k: int)
    requires
        t == "<think>"@ || t == "</think>"@ || t == "<tool_call>"@,
        u.len() >= t.len(),
        u.len() - t.len() <= k <= u.len(),
        u.skip(u.len() - t.len()) == t,
    ensures
        held_from(u, k) == u.len(),
    decreases u.len() - k,
{
    reveal_strlit("<think>");
    reveal_strlit("</think>");
    reveal_strlit("<tool_call>");
    if k < u.len() {
        let b = u.len() - t.len();
        let w = u.skip(k);
        assert(w[0] == u.skip(b)[k - b]);
        if tag_start(w) {
            let j = choose|j: int|
                0 <= j < 3 && w.len() < tags()[j].len() && has_prefix(#[trigger] tags()[j], w);
            let g = tags()[j];
            let p = g.subrange(0, w.len() as int);
            assert(p[0] == g[0]);
            assert(g[0] == '<');
            assert(k == b);
            assert(w =~= t);
            assert(p =~= w);
            assert(p[1] == g[1] && w[1] == t[1]);
            assert(p[2] == g[2] && w[2] == t[2]);
        }
        lemma_whole_tag(u, t, k + 1);
    }
}

} // verus!
