//! Reading a reply that is streamed, from its bytes to the turn: what is shown on the way,
//! and when it is broken off.

use vstd::prelude::*;
use vstd::utf8::encode_utf8;
use crate::fault::{Fault, FaultV};
use crate::json::{items_view, lemma_items_view, Json, JsonV};
use crate::paint::{
    paints, reset_part, text_part, think_part, visible, PaintEvent, PaintV, StreamPaint,
};
use crate::stream::{
    applied, as_completion, event_value, opt_seq, readable, sse_events, AccV, SseReader,
};
use crate::text::blank;
use crate::think::{think_tokens, watchdog_hit};
use crate::turn::{reported_error, turn_of, ModelTurn};

verus! {

/// A reply on its way.
#[derive(Debug, PartialEq, Eq)]
pub struct ReplyReader {
    pub reader: SseReader,
    /// The events that came and were not yet taken in.
    pub waiting: Vec<Json>,
    /// What has been shown, where somebody watches.
    pub paint: Option<StreamPaint>,
    /// How many tokens the thought may have.
    pub cap: Option<u32>,
    /// No more bytes come.
    pub over: bool,
}

/// What one step of reading comes to.
#[derive(Debug, PartialEq, Eq)]
pub enum ReadStep {
    /// More bytes are needed.
    Wait,
    /// An event was taken in; this is to be shown, and the thought to be counted.
    Took(Vec<PaintEvent>),
    /// The endpoint reports an error.
    Failed(Fault),
    /// All has been taken in.
    End,
}

/// What is shown of a reply that grew, and what has been shown then.
pub open spec fn raw_paint(p: StreamPaint, acc: AccV) -> (StreamPaint, Seq<PaintV>) {
    let (think, text) = visible(acc.reasoning, acc.content);
    let hide = p.hide_text || acc.calls.len() > 0;
    (
        StreamPaint {
            think_n: encode_utf8(think).len() as usize,
            text_n: if hide {
                p.text_n
            } else {
                encode_utf8(text).len() as usize
            },
            hide_text: hide,
            started: true,
        },
        reset_part(p) + think_part(p, think) + (if hide {
            Seq::empty()
        } else {
            text_part(p, text)
        }),
    )
}

proof fn lemma_items_concat(a: Seq<Json>, b: Seq<Json>)
    ensures
        items_view(a + b) == items_view(a) + items_view(b),
    decreases b.len(),
{
    lemma_items_view(a);
    lemma_items_view(b);
    lemma_items_view(a + b);
    assert(items_view(a + b) =~= items_view(a) + items_view(b));
}

proof fn lemma_items_skip(a: Seq<Json>)
    requires
        a.len() > 0,
    ensures
        items_view(a.skip(1)) == items_view(a).skip(1),
        items_view(a).len() == a.len(),
        items_view(a)[0] == a[0]@,
{
    lemma_items_view(a);
    lemma_items_view(a.skip(1));
    assert(items_view(a.skip(1)) =~= items_view(a).skip(1));
}

impl ReplyReader {
    /// A reply of which nothing came yet.
    pub fn new(watched: bool, cap: Option<u32>) -> (r: ReplyReader)
        ensures
            r.reader.pending@.len() == 0,
            r.reader.sse.leftover@.len() == 0,
            r.reader.acc@ == (AccV {
                content: Seq::empty(),
                reasoning: Seq::empty(),
                calls: Seq::empty(),
                prompt: 0,
                completion: 0,
                cached: None,
                timings: None,
            }),
            r.waiting@.len() == 0,
            r.paint == (if watched {
                Some(StreamPaint { think_n: 0, text_n: 0, hide_text: false, started: false })
            } else {
                None
            }),
            r.cap == cap,
            !r.over,
    {
        ReplyReader {
            reader: SseReader::new(),
            waiting: Vec::new(),
            paint: if watched {
                Some(StreamPaint::new())
            } else {
                None
            },
            cap,
            over: false,
        }
    }

    /// Bytes came: the events that are whole now wait behind those that did.
    pub fn on_chunk(&mut self, chunk: &Vec<u8>)
        ensures
            final(self).reader.acc == old(self).reader.acc,
            final(self).paint == old(self).paint,
            final(self).cap == old(self).cap,
            final(self).over == old(self).over,
            exists|text: Seq<char>|
                {
                    &&& #[trigger] readable(
                        old(self).reader.pending@ + chunk@,
                        text,
                        final(self).reader.pending@,
                    )
                    &&& items_view(final(self).waiting@) == items_view(old(self).waiting@)
                        + sse_events(old(self).reader.sse.leftover@ + text).0
                    &&& final(self).reader.sse.leftover@ == sse_events(
                        old(self).reader.sse.leftover@ + text,
                    ).1
                },
    {
        let ghost before = self.waiting@;
        let mut events = self.reader.feed(chunk);
        proof {
            lemma_items_concat(before, events@);
        }
        self.waiting.append(&mut events);
    }

    /// No more bytes come: what is left of the text counts as an event.
    pub fn on_end(&mut self)
        ensures
            final(self).reader.acc == old(self).reader.acc,
            final(self).paint == old(self).paint,
            final(self).cap == old(self).cap,
            final(self).over,
            items_view(final(self).waiting@) == items_view(old(self).waiting@) + (if blank(
                old(self).reader.sse.leftover@,
            ) {
                Seq::empty()
            } else {
                opt_seq(event_value(old(self).reader.sse.leftover@))
            }),
    {
        let ghost before = self.waiting@;
        let mut events = self.reader.sse.flush();
        proof {
            lemma_items_concat(before, events@);
        }
        self.waiting.append(&mut events);
        self.over = true;
    }

    /// Takes in the event that waits longest.
    pub fn next(&mut self) -> (r: ReadStep)
        ensures
            final(self).cap == old(self).cap,
            final(self).over == old(self).over,
            final(self).reader.pending == old(self).reader.pending,
            final(self).reader.sse == old(self).reader.sse,
            ({
                let ws = items_view(old(self).waiting@);
                if ws.len() == 0 {
                    &&& *final(self) == *old(self)
                    &&& r == (if old(self).over {
                        ReadStep::End
                    } else {
                        ReadStep::Wait
                    })
                } else {
                    &&& items_view(final(self).waiting@) == ws.skip(1)
                    &&& match reported_error(ws[0]) {
                        Some(why) => {
                            &&& r matches ReadStep::Failed(e) && e@ == FaultV::Http(why)
                            &&& final(self).reader.acc == old(self).reader.acc
                            &&& final(self).paint == old(self).paint
                        },
                        None => {
                            let acc = applied(old(self).reader.acc@, ws[0]);
                            &&& final(self).reader.acc@ == acc
                            &&& match old(self).paint {
                                Some(p) => {
                                    &&& final(self).paint == Some(raw_paint(p, acc).0)
                                    &&& r matches ReadStep::Took(out) && paints(out@) == raw_paint(
                                        p,
                                        acc,
                                    ).1
                                },
                                None => {
                                    &&& final(self).paint is None
                                    &&& r matches ReadStep::Took(out) && out@.len() == 0
                                },
                            }
                        },
                    }
                }
            }),
    {
        proof {
            lemma_items_view(self.waiting@);
        }
        if self.waiting.len() == 0 {
            return if self.over {
                ReadStep::End
            } else {
                ReadStep::Wait
            };
        }
        proof {
            lemma_items_skip(self.waiting@);
        }
        let ghost all = self.waiting@;
        let event = self.waiting.remove(0);
        assert(self.waiting@ =~= all.skip(1));
        match self.reader.accept(&event) {
            Err(e) => ReadStep::Failed(e),
            Ok(()) => {
                proof {
                    lemma_items_view(self.reader.acc.tool_calls@);
                }
                let tools: bool = self.reader.acc.tool_calls.len() > 0;
                match self.paint {
                    Some(p) => {
                        let mut q = p;
                        let out = q.push_raw(
                            self.reader.acc.reasoning.as_str(),
                            self.reader.acc.content.as_str(),
                            tools,
                        );
                        self.paint = Some(q);
                        ReadStep::Took(out)
                    },
                    None => {
                        let out: Vec<PaintEvent> = Vec::new();
                        ReadStep::Took(out)
                    },
                }
            },
        }
    }

    /// Whether the thought so far has run into its cap; `counted` is its length in tokens,
    /// where it could be counted.
    pub fn too_long(&self, counted: Option<u32>) -> (r: bool)
        ensures
            r == (self.cap is Some && think_tokens(
                self.reader.acc@.reasoning,
                self.reader.acc@.content,
                counted,
            ) >= self.cap->0),
    {
        watchdog_hit(
            self.cap,
            self.reader.acc.reasoning.as_str(),
            self.reader.acc.content.as_str(),
            counted,
        )
    }

    /// The turn that the reply amounts to; `broken_off` says that its thought ran into the
    /// cap.
    pub fn finish(self, broken_off: bool) -> (r: Result<ModelTurn, Fault>)
        ensures
            r is Ok,
            broken_off ==> (r matches Ok(t) && t.watchdog_hit && !t.parse_fail && t.content@.len()
                == 0 && t.reasoning@.len() == 0 && t.tool_calls@.len() == 0 && t.raw_tool_calls
                is None && t.prompt_tokens == 0 && t.completion_tokens == 0 && t.cached_tokens
                is None && t.decode_tok_s is None),
            !broken_off ==> (r matches Ok(t) && turn_of(
                t,
                as_completion(self.reader.acc@),
                false,
            )),
    {
        if broken_off {
            return Ok(ModelTurn::watchdog());
        }
        self.reader.finish()
    }
}

// ---------------------------------------------------------------------------
// Laws
// ---------------------------------------------------------------------------

/// What has arrived after all of the events.
pub open spec fn taken_in(acc: AccV, events: Seq<JsonV>) -> AccV
    decreases events.len(),
{
    if events.len() == 0 {
        acc
    } else {
        taken_in(applied(acc, events[0]), events.skip(1))
    }
}

/// It does not matter how the events come: what has arrived after all of them is the same
/// whether they are taken in at once or some first and the rest later.
pub proof fn law_events_add_up(acc: AccV, a: Seq<JsonV>, b: Seq<JsonV>)
    ensures
        taken_in(acc, a + b) == taken_in(taken_in(acc, a), b),
    decreases a.len(),
{
    if a.len() == 0 {
        assert(a + b =~= b);
    } else {
        assert((a + b).skip(1) =~= a.skip(1) + b);
        law_events_add_up(applied(acc, a[0]), a.skip(1), b);
    }
}

/// What is shown of a reply that grew is what is visible of it, and no answer is shown any
/// more once there are calls.
pub proof fn law_calls_end_the_show(p: StreamPaint, acc: AccV)
    ensures
        ({
            let (q, events) = raw_paint(p, acc);
            let (thought, text) = visible(acc.reasoning, acc.content);
            &&& q.started
            &&& q.hide_text == (p.hide_text || acc.calls.len() > 0)
            &&& q.hide_text ==> q.text_n == p.text_n && events == reset_part(p) + think_part(
                p,
                thought,
            )
            &&& !q.hide_text ==> events == reset_part(p) + think_part(p, thought) + text_part(p, text)
        }),
{
    let (thought, text) = visible(acc.reasoning, acc.content);
    let e = reset_part(p) + think_part(p, thought);
    assert(e + Seq::<PaintV>::empty() =~= e);
}

/// Events are taken in one after the other.
pub proof fn law_events_are_taken_in_order(acc: AccV, events: Seq<JsonV>, e: JsonV)
    ensures
        taken_in(acc, Seq::empty()) == acc,
        taken_in(acc, seq![e]) == applied(acc, e),
        taken_in(acc, events.push(e)) == applied(taken_in(acc, events), e),
{
    reveal_with_fuel(taken_in, 2);
    assert(seq![e].skip(1) =~= Seq::<JsonV>::empty());
    law_events_add_up(acc, events, seq![e]);
    assert(events + seq![e] =~= events.push(e));
    let b = taken_in(acc, events);
    assert(taken_in(b, seq![e]) == applied(b, e));
}

} // verus!
