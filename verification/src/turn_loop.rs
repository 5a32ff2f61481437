//! One turn of the agent as a whole: which step follows which, until it ends.

use vstd::prelude::*;
use crate::drive::{
    asking_again, at_top, compacted, ends, final_hop, go, hop_with_calls, judged_hop, replied,
    reply_of, settled_reply, unreadable, widened, work_tool, CallFacts, CallFactsV, Decision,
    DecisionV, Drive, DriveV, HopFacts, HopFactsV, Out, OutV, ReplyFacts, ReplyFactsV,
};
use crate::json::opt_text;
use crate::text::texts;
use crate::turn::ModelTurn;
use crate::xml_tools::ToolCall;

verus! {

/// What is to be done next.
#[derive(Debug, Clone, Copy, PartialEq, Eq, Structural)]
pub enum Phase {
    /// Look whether the user aborted.
    Top,
    /// Compact the context as far as needed.
    Compacting,
    /// Ask the model.
    Asking,
    /// Ask it once more with more room to think.
    Retrying,
    /// Judge its reply.
    Reading,
    /// Judge the hop.
    Hopping,
    /// Ask the gates.
    Deciding,
    /// Run the calls, or put them off, and then pass on what is hidden.
    Working,
    /// Nothing: the turn is over.
    Over,
}

/// What came of it.
#[derive(Debug, PartialEq, Eq)]
pub enum Event {
    Looked { cancelled: bool },
    /// Why the context is still too long, where it is.
    Compacted(Option<String>),
    /// The user aborted while the model was asked.
    Aborted,
    Reply(ModelTurn),
    /// The second reply, where there is one that can be used.
    Retried { cancelled: bool, second: Option<ModelTurn> },
    Read(ReplyFacts),
    /// The facts on the hop, and the files that were read. The calls are those of the
    /// reply, whatever the facts name them.
    Hop { facts: HopFacts, read: Vec<String> },
    /// What the gates say, whether the model is known for silent hops, and what to tell
    /// it of a dump.
    Decided { decision: Decision, silent_channel: bool, dump_note: String },
    Worked { cancelled: bool },
}

pub ghost enum EventV {
    Looked(bool),
    Compacted(Option<Seq<char>>),
    Aborted,
    Reply(ModelTurn),
    Retried(bool, Option<ModelTurn>),
    Read(ReplyFactsV),
    Hop(HopFactsV, Seq<Seq<char>>),
    Decided(DecisionV, bool, Seq<char>),
    Worked(bool),
}

impl View for Event {
    type V = EventV;

    open spec fn view(&self) -> EventV {
        match self {
            Event::Looked { cancelled } => EventV::Looked(*cancelled),
            Event::Compacted(r) => EventV::Compacted(opt_text(*r)),
            Event::Aborted => EventV::Aborted,
            Event::Reply(t) => EventV::Reply(*t),
            Event::Retried { cancelled, second } => EventV::Retried(*cancelled, *second),
            Event::Read(f) => EventV::Read(f@),
            Event::Hop { facts, read } => EventV::Hop(facts@, texts(read@)),
            Event::Decided { decision, silent_channel, dump_note } => EventV::Decided(
                decision@,
                *silent_channel,
                dump_note@,
            ),
            Event::Worked { cancelled } => EventV::Worked(*cancelled),
        }
    }
}

/// A turn on its way.
#[derive(Debug, PartialEq, Eq)]
pub struct TurnLoop {
    pub drive: Drive,
    pub phase: Phase,
    /// The reply of this hop.
    pub turn: Option<ModelTurn>,
    /// What it says to the user.
    pub content: String,
    /// Its calls are put off.
    pub deferred: bool,
}

pub ghost struct LoopV {
    pub drive: DriveV,
    pub phase: Phase,
    pub turn: Option<ModelTurn>,
    pub content: Seq<char>,
    pub deferred: bool,
}

impl View for TurnLoop {
    type V = LoopV;

    open spec fn view(&self) -> LoopV {
        LoopV {
            drive: self.drive@,
            phase: self.phase,
            turn: self.turn,
            content: self.content@,
            deferred: self.deferred,
        }
    }
}

/// The facts on a call of which nothing was judged.
pub open spec fn no_facts() -> CallFactsV {
    CallFactsV {
        name: Seq::empty(),
        placeholder: false,
        restates_anchor: false,
        restates_content: false,
        cleanup: false,
        path: None,
    }
}

/// The facts on a hop, one for each call of the reply and under its name.
pub open spec fn of_reply(f: HopFactsV, calls: Seq<ToolCall>) -> HopFactsV {
    HopFactsV {
        calls: Seq::new(
            calls.len(),
            |i: int|
                CallFactsV {
                    name: calls[i].name@,
                    ..if i < f.calls.len() {
                        f.calls[i]
                    } else {
                        no_facts()
                    }
                },
        ),
        ..f
    }
}

fn facts_of_reply(f: HopFacts, calls: &Vec<ToolCall>) -> (r: HopFacts)
    ensures
        r@ == of_reply(f@, calls@),
{
    let ghost fv = f@;
    let mut out: Vec<CallFacts> = Vec::new();
    let mut i: usize = 0;
    while i < calls.len()
        invariant
            i <= calls@.len(),
            fv == f@,
            out@.len() == i,
            forall|j: int| 0 <= j < i ==> (#[trigger] out@[j])@ == of_reply(fv, calls@).calls[j],
        decreases calls.len() - i,
    {
        let name: String = calls[i].name.clone();
        assert(fv.calls.len() == f.calls@.len());
        let facts: CallFacts = if i < f.calls.len() {
            let c = &f.calls[i];
            assert(fv.calls[i as int] == c@);
            let path: Option<String> = match &c.path {
                Some(p) => Some(p.clone()),
                None => None,
            };
            CallFacts {
                name,
                placeholder: c.placeholder,
                restates_anchor: c.restates_anchor,
                restates_content: c.restates_content,
                cleanup: c.cleanup,
                path,
            }
        } else {
            CallFacts {
                name,
                placeholder: false,
                restates_anchor: false,
                restates_content: false,
                cleanup: false,
                path: None,
            }
        };
        assert(facts@ == of_reply(fv, calls@).calls[i as int]);
        out.push(facts);
        i = i + 1;
    }
    let r = HopFacts {
        substantial: f.substantial,
        blockquote: f.blockquote,
        anchor_substantial: f.anchor_substantial,
        restated: f.restated,
        calls: out,
    };
    assert(r@.calls =~= of_reply(fv, calls@).calls);
    r
}

/// Where a step leads: to the end, back to the top, or on.
pub open spec fn led(o: OutV, next: Phase) -> Phase {
    if o.finish is Some {
        Phase::Over
    } else if o.again {
        Phase::Top
    } else {
        next
    }
}

pub open spec fn moved(l: LoopV, d: DriveV, o: OutV, next: Phase) -> (LoopV, OutV) {
    (LoopV { drive: d, phase: led(o, next), ..l }, o)
}

/// The reply of this hop is settled: one whose calls cannot be read is asked for again.
pub open spec fn received(l: LoopV, d: DriveV, t: ModelTurn) -> (LoopV, OutV) {
    let m = LoopV { turn: Some(t), ..l };
    if t.parse_fail {
        let (e, o) = unreadable(d);
        moved(m, e, o, Phase::Reading)
    } else {
        moved(m, d, go(), Phase::Reading)
    }
}

/// One step of a turn. What does not belong to the phase changes nothing.
pub open spec fn stepped(l: LoopV, e: EventV) -> (LoopV, OutV) {
    match (l.phase, e) {
        (Phase::Top, EventV::Looked(cancelled)) => {
            let (d, o) = at_top(l.drive, cancelled);
            moved(l, d, o, Phase::Compacting)
        },
        (Phase::Compacting, EventV::Compacted(reason)) => {
            let (d, o) = compacted(l.drive, reason);
            moved(l, d, o, Phase::Asking)
        },
        (Phase::Asking, EventV::Aborted) => moved(
            l,
            l.drive,
            ends(Seq::empty(), Some("aborted"@)),
            Phase::Asking,
        ),
        (Phase::Asking, EventV::Reply(t)) => {
            let (d, o) = replied(l.drive, reply_of(t));
            if t.watchdog_hit {
                moved(LoopV { turn: Some(t), ..l }, d, o, Phase::Retrying)
            } else {
                received(l, d, t)
            }
        },
        (Phase::Retrying, EventV::Retried(cancelled, second)) => match l.turn {
            None => (l, go()),
            Some(first) => {
                let (d, taken, o) = widened(
                    l.drive,
                    cancelled,
                    reply_of(first),
                    match second {
                        Some(t) => Some(reply_of(t)),
                        None => None,
                    },
                );
                let kept = if taken {
                    second->0
                } else {
                    first
                };
                if o.finish is Some {
                    moved(LoopV { turn: Some(kept), ..l }, d, o, Phase::Over)
                } else {
                    received(l, d, kept)
                }
            },
        },
        (Phase::Reading, EventV::Read(f)) => match l.turn {
            None => (l, go()),
            Some(t) => {
                let (d, content, o) = settled_reply(l.drive, reply_of(t), f);
                moved(LoopV { content, ..l }, d, o, Phase::Hopping)
            },
        },
        (Phase::Hopping, EventV::Hop(f, read)) => match l.turn {
            None => (l, go()),
            Some(t) => {
                let (d, off, o) = judged_hop(
                    l.drive,
                    of_reply(f, t.tool_calls@),
                    l.content,
                    read,
                );
                moved(LoopV { deferred: off, ..l }, d, o, Phase::Deciding)
            },
        },
        (Phase::Deciding, EventV::Decided(dec, silent, note)) => match l.turn {
            None => (l, go()),
            Some(t) => if t.tool_calls@.len() > 0 {
                let (d, o) = hop_with_calls(
                    l.drive,
                    l.content,
                    dec,
                    silent,
                    if l.deferred {
                        Some(note)
                    } else {
                        None
                    },
                );
                moved(l, d, o, Phase::Working)
            } else {
                moved(l, l.drive, final_hop(l.drive, l.content, dec), Phase::Over)
            },
        },
        (Phase::Working, EventV::Worked(cancelled)) => moved(
            l,
            l.drive,
            if cancelled {
                ends(Seq::empty(), Some("aborted"@))
            } else {
                asking_again(go())
            },
            Phase::Top,
        ),
        _ => (l, go()),
    }
}

/// A phase that waits for the judgement of a reply has one.
pub open spec fn loop_wf(l: LoopV) -> bool {
    (l.phase == Phase::Retrying || l.phase == Phase::Reading || l.phase == Phase::Hopping || l.phase
        == Phase::Deciding || l.phase == Phase::Working) ==> l.turn is Some
}

impl TurnLoop {
    /// A new turn.
    pub fn new(low_precision: bool) -> (r: TurnLoop)
        ensures
            r@ == (LoopV {
                drive: crate::drive::fresh(low_precision),
                phase: Phase::Top,
                turn: None,
                content: Seq::empty(),
                deferred: false,
            }),
            loop_wf(r@),
    {
        let content = String::new();
        assert(content@ =~= Seq::<char>::empty());
        TurnLoop {
            drive: Drive::new(low_precision),
            phase: Phase::Top,
            turn: None,
            content,
            deferred: false,
        }
    }

    fn go_on(&mut self, o: &Out, next: Phase)
        ensures
            final(self)@ == (LoopV { phase: led(o@, next), ..old(self)@ }),
    {
        self.phase = if o.finish.is_some() {
            Phase::Over
        } else if o.again {
            Phase::Top
        } else {
            next
        };
    }

    fn receive(&mut self, t: ModelTurn) -> (r: Out)
        ensures
            (final(self)@, r@) == received(old(self)@, old(self)@.drive, t),
    {
        let failed: bool = t.parse_fail;
        self.turn = Some(t);
        let o = if failed {
            self.drive.on_parse_fail()
        } else {
            Out::go()
        };
        self.go_on(&o, Phase::Reading);
        o
    }

    /// One step of a turn: what came of the phase, and what is to be done now. The phase
    /// that follows says what next.
    pub fn step(&mut self, e: Event) -> (r: Out)
        requires
            loop_wf(old(self)@),
        ensures
            (final(self)@, r@) == stepped(old(self)@, e@),
            loop_wf(final(self)@),
    {
        match (self.phase, e) {
            (Phase::Top, Event::Looked { cancelled }) => {
                let o = self.drive.top(cancelled);
                self.go_on(&o, Phase::Compacting);
                o
            },
            (Phase::Compacting, Event::Compacted(reason)) => {
                let o = match &reason {
                    Some(s) => self.drive.after_compact(Some(s.as_str())),
                    None => self.drive.after_compact(None),
                };
                self.go_on(&o, Phase::Asking);
                o
            },
            (Phase::Asking, Event::Aborted) => {
                let o = Out::aborted();
                self.go_on(&o, Phase::Asking);
                o
            },
            (Phase::Asking, Event::Reply(t)) => {
                let o = self.drive.on_turn(&t);
                if t.watchdog_hit {
                    self.turn = Some(t);
                    self.go_on(&o, Phase::Retrying);
                    o
                } else {
                    self.receive(t)
                }
            },
            (Phase::Retrying, Event::Retried { cancelled, second }) => {
                let first = self.turn.take();
                match first {
                    None => Out::go(),
                    Some(first) => {
                        let (kept, o) = self.drive.on_widened(cancelled, first, second);
                        if o.finish.is_some() {
                            self.turn = Some(kept);
                            self.go_on(&o, Phase::Over);
                            o
                        } else {
                            self.receive(kept)
                        }
                    },
                }
            },
            (Phase::Reading, Event::Read(f)) => {
                let (content, o) = match &self.turn {
                    None => {
                        return Out::go();
                    },
                    Some(t) => self.drive.settle_reply(t, &f),
                };
                self.content = content;
                self.go_on(&o, Phase::Hopping);
                o
            },
            (Phase::Hopping, Event::Hop { facts, read }) => {
                let own = match &self.turn {
                    None => {
                        return Out::go();
                    },
                    Some(t) => facts_of_reply(facts, &t.tool_calls),
                };
                let (off, o) = self.drive.judge_hop(self.content.as_str(), &own, &read);
                self.deferred = off;
                self.go_on(&o, Phase::Deciding);
                o
            },
            (Phase::Deciding, Event::Decided { decision, silent_channel, dump_note }) => {
                let calls: bool = match &self.turn {
                    None => {
                        return Out::go();
                    },
                    Some(t) => t.tool_calls.len() > 0,
                };
                if calls {
                    let note: Option<&str> = if self.deferred {
                        Some(dump_note.as_str())
                    } else {
                        None
                    };
                    let o = self.drive.on_calls(
                        self.content.as_str(),
                        &decision,
                        silent_channel,
                        note,
                    );
                    self.go_on(&o, Phase::Working);
                    o
                } else {
                    let o = self.drive.on_answer(self.content.as_str(), decision);
                    self.go_on(&o, Phase::Over);
                    o
                }
            },
            (Phase::Working, Event::Worked { cancelled }) => {
                let o = self.drive.after_tools(cancelled);
                self.go_on(&o, Phase::Top);
                o
            },
            _ => Out::go(),
        }
    }
}

// ---------------------------------------------------------------------------
// Laws
// ---------------------------------------------------------------------------

/// How far a hop has come.
pub open spec fn progress(p: Phase) -> int {
    match p {
        Phase::Top => 0,
        Phase::Compacting => 1,
        Phase::Asking => 2,
        Phase::Retrying => 3,
        Phase::Reading => 4,
        Phase::Hopping => 5,
        Phase::Deciding => 6,
        Phase::Working => 7,
        Phase::Over => 8,
    }
}

proof fn lemma_moved(l: LoopV, d: DriveV, o: OutV, next: Phase)
    ensures
        ({
            let p = moved(l, d, o, next).0.phase;
            p == Phase::Over || p == Phase::Top || p == next
        }),
{
}

proof fn lemma_received(l: LoopV, d: DriveV, t: ModelTurn)
    ensures
        ({
            let p = received(l, d, t).0.phase;
            p == Phase::Over || p == Phase::Top || p == Phase::Reading
        }),
{
    let m = LoopV { turn: Some(t), ..l };
    lemma_moved(m, unreadable(d).0, unreadable(d).1, Phase::Reading);
    lemma_moved(m, d, go(), Phase::Reading);
}

/// A step leads on, back to the top or nowhere at all: within one hop the model is asked
/// once, and once more where its thought ran into the cap.
#[verifier::spinoff_prover]
pub proof fn law_a_hop_goes_forward(l: LoopV, e: EventV)
    requires
        loop_wf(l),
    ensures
        ({
            let m = stepped(l, e).0;
            m == l || m.phase == Phase::Top || progress(m.phase) > progress(l.phase)
        }),
{
    match (l.phase, e) {
        (Phase::Top, EventV::Looked(cancelled)) => {
            let (d, o) = at_top(l.drive, cancelled);
            lemma_moved(l, d, o, Phase::Compacting);
        },
        (Phase::Compacting, EventV::Compacted(reason)) => {
            let (d, o) = compacted(l.drive, reason);
            lemma_moved(l, d, o, Phase::Asking);
        },
        (Phase::Asking, EventV::Aborted) => {},
        (Phase::Asking, EventV::Reply(t)) => {
            let (d, o) = replied(l.drive, reply_of(t));
            lemma_moved(LoopV { turn: Some(t), ..l }, d, o, Phase::Retrying);
            lemma_received(l, d, t);
        },
        (Phase::Retrying, EventV::Retried(cancelled, second)) => {
            if let Some(first) = l.turn {
                let (d, taken, o) = widened(
                    l.drive,
                    cancelled,
                    reply_of(first),
                    match second {
                        Some(t) => Some(reply_of(t)),
                        None => None,
                    },
                );
                let kept = if taken {
                    second->0
                } else {
                    first
                };
                lemma_received(l, d, kept);
            }
        },
        (Phase::Reading, EventV::Read(f)) => {
            if let Some(t) = l.turn {
                let (d, content, o) = settled_reply(l.drive, reply_of(t), f);
                lemma_moved(LoopV { content, ..l }, d, o, Phase::Hopping);
            }
        },
        (Phase::Hopping, EventV::Hop(f, read)) => {
            if let Some(t) = l.turn {
                let (d, off, o) = judged_hop(
                    l.drive,
                    of_reply(f, t.tool_calls@),
                    l.content,
                    read,
                );
                lemma_moved(LoopV { deferred: off, ..l }, d, o, Phase::Deciding);
            }
        },
        (Phase::Deciding, EventV::Decided(dec, silent, note)) => {
            let put_off = if l.deferred {
                Some(note)
            } else {
                None
            };
            let (d, o) = hop_with_calls(l.drive, l.content, dec, silent, put_off);
            lemma_moved(l, d, o, Phase::Working);
        },
        _ => {},
    }
}

/// A turn is over exactly where it has an end to report, and then nothing happens any
/// more.
pub proof fn law_the_end_is_reported_once(l: LoopV, e: EventV)
    requires
        loop_wf(l),
    ensures
        l.phase == Phase::Over ==> stepped(l, e) == (l, go()),
        l.phase != Phase::Over ==> (stepped(l, e).0.phase == Phase::Over <==> stepped(
            l,
            e,
        ).1.finish is Some),
{
}

/// The user's abort ends the turn wherever it is looked at, without a word.
pub proof fn law_aborts_end_the_turn(l: LoopV, second: Option<ModelTurn>)
    requires
        loop_wf(l),
    ensures
        ({
            let aborted = ends(Seq::empty(), Some("aborted"@));
            &&& l.phase == Phase::Top ==> stepped(l, EventV::Looked(true)).1 == aborted
            &&& l.phase == Phase::Asking ==> stepped(l, EventV::Aborted).1 == aborted
            &&& l.phase == Phase::Retrying ==> stepped(l, EventV::Retried(true, second)).1 == aborted
            &&& l.phase == Phase::Working ==> stepped(l, EventV::Worked(true)).1 == aborted
        }),
{
}

/// A hop is judged by the calls of its reply: one without calls, or with one that does
/// something new, is never put off.
pub proof fn law_new_work_is_not_put_off(l: LoopV, f: HopFactsV, read: Seq<Seq<char>>, i: int)
    requires
        loop_wf(l),
        l.phase == Phase::Hopping,
        l.turn->0.tool_calls@.len() == 0 || (0 <= i < l.turn->0.tool_calls@.len()
            && l.turn->0.tool_calls@[i].name@ != "read"@ && l.turn->0.tool_calls@[i].name@
            != "view"@ && l.turn->0.tool_calls@[i].name@ != "write"@
            && l.turn->0.tool_calls@[i].name@ != "bash"@),
    ensures
        !stepped(l, EventV::Hop(f, read)).0.deferred,
{
    let g = of_reply(f, l.turn->0.tool_calls@);
    if l.turn->0.tool_calls@.len() > 0 {
        assert(work_tool(g.calls[i], l.content, read));
    }
}

/// Calls run only where the model made some.
pub proof fn law_only_calls_are_worked_on(l: LoopV, e: EventV)
    requires
        loop_wf(l),
        l.phase != Phase::Working,
        stepped(l, e).0.phase == Phase::Working,
    ensures
        stepped(l, e).0.turn matches Some(t) && t.tool_calls@.len() > 0,
{
}

/// What follows what, where a step neither ends the turn nor asks again: the context is
/// looked after, the model asked, its reply read, the hop judged, the gates asked and the
/// calls run. A step that asks again leads back to the top. What does not belong to the
/// phase changes nothing.
#[verifier::spinoff_prover]
pub proof fn law_what_follows_what(l: LoopV, e: EventV)
    requires
        loop_wf(l),
    ensures
        ({
            let (m, o) = stepped(l, e);
            let own = match l.phase {
                Phase::Top => e is Looked,
                Phase::Compacting => e is Compacted,
                Phase::Asking => e is Aborted || e is Reply,
                Phase::Retrying => e is Retried,
                Phase::Reading => e is Read,
                Phase::Hopping => e is Hop,
                Phase::Deciding => e is Decided,
                Phase::Working => e is Worked,
                Phase::Over => false,
            };
            &&& !own ==> m == l && o.finish is None && !o.again && o.hidden.len() == 0
                && o.notes.len() == 0
            &&& own && o.finish is Some ==> m.phase == Phase::Over
            &&& own && o.finish is None && o.again ==> m.phase == Phase::Top
            &&& own && o.finish is None && !o.again ==> {
                &&& l.phase == Phase::Top ==> m.phase == Phase::Compacting
                &&& l.phase == Phase::Compacting ==> m.phase == Phase::Asking
                &&& l.phase == Phase::Asking ==> m.phase == (if e->Reply_0.watchdog_hit {
                    Phase::Retrying
                } else {
                    Phase::Reading
                })
                &&& l.phase == Phase::Retrying ==> m.phase == Phase::Reading
                &&& l.phase == Phase::Reading ==> m.phase == Phase::Hopping
                &&& l.phase == Phase::Hopping ==> m.phase == Phase::Deciding
                &&& l.phase == Phase::Deciding ==> m.phase == Phase::Working
            }
            &&& l.phase == Phase::Working && own ==> o.finish is Some || o.again
            &&& l.phase == Phase::Deciding && own ==> (o.finish is Some
                <==> l.turn->0.tool_calls@.len() == 0)
        }),
{
    match (l.phase, e) {
        (Phase::Deciding, EventV::Decided(dec, silent, note)) => {
            let put_off = if l.deferred {
                Some(note)
            } else {
                None
            };
            if let DecisionV::Stop(r) = dec {
                crate::drive::law_stops_wait_for_the_calls(
                    l.drive,
                    l.content,
                    r,
                    silent,
                    put_off,
                );
            }
        },
        _ => {},
    }
}

/// The reply that is judged is the one that came; a second one takes its place where it
/// brings anything.
pub proof fn law_the_reply_is_kept(l: LoopV, t: ModelTurn, second: Option<ModelTurn>)
    requires
        loop_wf(l),
    ensures
        l.phase == Phase::Asking ==> stepped(l, EventV::Reply(t)).0.turn == Some(t),
        l.phase == Phase::Retrying ==> stepped(l, EventV::Retried(false, second)).0.turn == (
        match second {
            Some(s) => if !s.watchdog_hit || s.content@.len() > 0 || s.tool_calls@.len() > 0 {
                Some(s)
            } else {
                l.turn
            },
            None => l.turn,
        }),
        l.phase == Phase::Asking && t.parse_fail && !t.watchdog_hit ==> stepped(
            l,
            EventV::Reply(t),
        ).0.phase != Phase::Reading,
{
    if l.phase == Phase::Asking && t.parse_fail && !t.watchdog_hit {
        let d = replied(l.drive, reply_of(t)).0;
        assert(unreadable(d).1.finish is Some || unreadable(d).1.again);
    }
}

/// Only the judgement of a hop changes what was said; every other step leaves the last
/// answer and the last longer text as they are.
#[verifier::spinoff_prover]
pub proof fn law_only_hops_change_what_was_said(l: LoopV, e: EventV)
    requires
        loop_wf(l),
        !(e is Hop) || l.phase != Phase::Hopping,
    ensures
        stepped(l, e).0.drive.last_spoken == l.drive.last_spoken,
        stepped(l, e).0.drive.last_essay == l.drive.last_essay,
{
}

/// A longer text that came with calls is remembered by the turn, and is what the turn
/// ends with where the model says nothing any more and no answer was given before.
pub proof fn law_a_turn_ends_with_what_was_said(
    l: LoopV,
    f: HopFactsV,
    read: Seq<Seq<char>>,
    later: LoopV,
    dec: DecisionV,
    silent: bool,
    note: Seq<char>,
)
    requires
        loop_wf(l),
        loop_wf(later),
        l.phase == Phase::Hopping,
        l.turn->0.tool_calls@.len() > 0,
        f.substantial,
        !f.blockquote,
        !crate::text::blank(l.content),
        l.drive.last_spoken is None,
        later.phase == Phase::Deciding,
        later.turn->0.tool_calls@.len() == 0,
        crate::text::blank(later.content),
        later.drive.last_spoken == stepped(l, EventV::Hop(f, read)).0.drive.last_spoken,
        later.drive.last_essay == stepped(l, EventV::Hop(f, read)).0.drive.last_essay,
    ensures
        stepped(l, EventV::Hop(f, read)).0.drive.last_essay == Some(l.content),
        stepped(later, EventV::Decided(dec, silent, note)).1.finish is Some,
        stepped(later, EventV::Decided(dec, silent, note)).1.finish->0.text == crate::text::trimmed(
            l.content,
        ),
        stepped(later, EventV::Decided(dec, silent, note)).0.phase == Phase::Over,
{
    let g = of_reply(f, l.turn->0.tool_calls@);
    crate::drive::law_what_was_said_is_not_lost(l.drive, g, l.content, read, later.drive, dec);
    crate::drive::law_the_last_words_are_the_answer(later.drive, later.content, dec);
    crate::drive::law_the_last_words_are_the_answer(later.drive, Seq::empty(), dec);
    crate::text::lemma_blank(Seq::<char>::empty());
}

/// What the model says without calls is what the turn ends with.
pub proof fn law_a_turn_ends_with_the_answer(
    l: LoopV,
    dec: DecisionV,
    silent: bool,
    note: Seq<char>,
)
    requires
        loop_wf(l),
        l.phase == Phase::Deciding,
        l.turn->0.tool_calls@.len() == 0,
        !crate::text::blank(l.content),
    ensures
        stepped(l, EventV::Decided(dec, silent, note)).1.finish is Some,
        stepped(l, EventV::Decided(dec, silent, note)).1.finish->0.text == l.content,
{
}

/// Calls that were put off are answered with the remark on the dump, after all else.
pub proof fn law_put_off_calls_are_remarked_upon(
    l: LoopV,
    dec: DecisionV,
    silent: bool,
    note: Seq<char>,
)
    requires
        loop_wf(l),
        l.phase == Phase::Deciding,
        l.turn->0.tool_calls@.len() > 0,
    ensures
        ({
            let o = stepped(l, EventV::Decided(dec, silent, note)).1;
            &&& l.deferred ==> o.hidden.len() > 0 && o.hidden.last() == note
            &&& !l.deferred && !silent && dec is Bypass ==> o.hidden.len() == 0
        }),
{
}

/// The facts on a hop are taken in the order of the reply's calls and under their names,
/// as many as there are calls.
pub proof fn law_facts_follow_the_calls(f: HopFactsV, calls: Seq<ToolCall>, i: int)
    requires
        0 <= i < calls.len(),
    ensures
        of_reply(f, calls).calls.len() == calls.len(),
        of_reply(f, calls).calls[i].name == calls[i].name@,
        i < f.calls.len() ==> of_reply(f, calls).calls[i] == (CallFactsV {
            name: calls[i].name@,
            ..f.calls[i]
        }),
        of_reply(f, calls).substantial == f.substantial,
        of_reply(f, calls).blockquote == f.blockquote,
        of_reply(f, calls).restated == f.restated,
        of_reply(f, calls).anchor_substantial == f.anchor_substantial,
{
}

/// Nothing is claimed of a call on which no facts were given.
pub proof fn law_nothing_is_claimed_without_facts(f: HopFactsV, calls: Seq<ToolCall>, i: int)
    requires
        f.calls.len() <= i < calls.len(),
    ensures
        ({
            let c = of_reply(f, calls).calls[i];
            &&& !c.placeholder && !c.restates_anchor && !c.restates_content && !c.cleanup
            &&& c.path is None
        }),
{
}

} // verus!
