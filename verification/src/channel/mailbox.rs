//! What arrives for one session while a turn is running.

use vstd::prelude::*;
use std::collections::VecDeque;
use crate::fault::{Fault, FaultV};
use crate::json::opt_text;
use crate::text::{blank, clone_texts, is_blank, lower, same, text3, texts, to_lower, trim, trimmed};

verus! {

/// What a new message does while a turn is running.
#[derive(Debug, Clone, Copy, PartialEq, Eq, Structural)]
pub enum BusyPolicy {
    /// Stop the turn, then start with this message.
    Interrupt,
    /// Wait for the turn to end.
    Queue,
    /// Go to the model after the next tool result.
    Steer,
}

/// The policy that a word names.
pub open spec fn policy_of(s: Seq<char>) -> Option<BusyPolicy> {
    let w = lower(trimmed(s));
    if w == "interrupt"@ {
        Some(BusyPolicy::Interrupt)
    } else if w == "queue"@ || w == "q"@ {
        Some(BusyPolicy::Queue)
    } else if w == "steer"@ {
        Some(BusyPolicy::Steer)
    } else {
        None
    }
}

impl BusyPolicy {
    pub fn as_str(self) -> (r: &'static str)
        ensures
            r@ == (match self {
                BusyPolicy::Interrupt => "interrupt"@,
                BusyPolicy::Queue => "queue"@,
                BusyPolicy::Steer => "steer"@,
            }),
    {
        match self {
            BusyPolicy::Interrupt => "interrupt",
            BusyPolicy::Queue => "queue",
            BusyPolicy::Steer => "steer",
        }
    }

    /// The policy that a word names.
    pub fn parse(s: &str) -> (r: Result<BusyPolicy, Fault>)
        ensures
            r is Ok <==> policy_of(s@) is Some,
            r matches Ok(p) ==> policy_of(s@) == Some(p),
            r matches Err(e) ==> e@ == FaultV::Msg(
                "unknown busy policy '"@ + lower(trimmed(s@)) + "' (interrupt|queue|steer)"@,
            ),
    {
        let w = to_lower(trim(s).as_str());
        let t = w.as_str();
        if same(t, "interrupt") {
            Ok(BusyPolicy::Interrupt)
        } else if same(t, "queue") || same(t, "q") {
            Ok(BusyPolicy::Queue)
        } else if same(t, "steer") {
            Ok(BusyPolicy::Steer)
        } else {
            Err(Fault::Msg(text3("unknown busy policy '", t, "' (interrupt|queue|steer)")))
        }
    }
}

/// The name of a policy names it.
pub proof fn law_policy_name_reads_back(p: BusyPolicy)
    ensures
        policy_of(
            match p {
                BusyPolicy::Interrupt => "interrupt"@,
                BusyPolicy::Queue => "queue"@,
                BusyPolicy::Steer => "steer"@,
            },
        ) == Some(p),
{
    reveal_strlit("interrupt");
    reveal_strlit("queue");
    reveal_strlit("steer");
    reveal_strlit("q");
    let w = match p {
        BusyPolicy::Interrupt => "interrupt"@,
        BusyPolicy::Queue => "queue"@,
        BusyPolicy::Steer => "steer"@,
    };
    assert(w.len() > 0 && !crate::text::white(w[0]) && !crate::text::white(w.last()));
    assert(trimmed(w) == w);
    assert(lower(w) =~= w);
    assert("interrupt"@.len() == 9 && "queue"@.len() == 5 && "steer"@.len() == 5 && "q"@.len()
        == 1);
    assert("queue"@[0] == 'q' && "steer"@[0] == 's');
}

/// How a message was taken in while a turn was running.
#[derive(Debug, Clone, Copy, PartialEq, Eq, Structural)]
pub enum BusyDecision {
    AbortThenRedirect,
    Queued,
    Steered,
}

/// The notes that go to the model after the next tool round.
#[derive(Debug, PartialEq, Eq)]
pub struct SteerSlot {
    pub notes: Vec<String>,
}

/// The notes with one more. A blank one is not taken.
pub open spec fn steered_with(notes: Seq<Seq<char>>, text: Seq<char>) -> Seq<Seq<char>> {
    if blank(text) {
        notes
    } else {
        notes.push(text)
    }
}

/// Adds a note.
pub fn push_steer(slot: &mut SteerSlot, text: String)
    ensures
        texts(final(slot).notes@) == steered_with(texts(old(slot).notes@), text@),
{
    if is_blank(text.as_str()) {
        return;
    }
    let ghost before = slot.notes@;
    slot.notes.push(text);
    assert(texts(slot.notes@) =~= texts(before).push(text@));
}

/// Takes all notes out.
pub fn take_steer(slot: &mut SteerSlot) -> (r: Vec<String>)
    ensures
        r@ == old(slot).notes@,
        final(slot).notes@.len() == 0,
{
    let mut out: Vec<String> = Vec::new();
    std::mem::swap(&mut slot.notes, &mut out);
    out
}

/// What waits for one session.
#[derive(Debug, PartialEq, Eq)]
pub struct Mailbox {
    pub busy: BusyPolicy,
    pub queue: VecDeque<String>,
    pub steer: SteerSlot,
    pub redirect: Option<String>,
}

pub ghost struct MailboxV {
    pub busy: BusyPolicy,
    pub queue: Seq<Seq<char>>,
    pub steer: Seq<Seq<char>>,
    pub redirect: Option<Seq<char>>,
}

impl View for Mailbox {
    type V = MailboxV;

    open spec fn view(&self) -> MailboxV {
        MailboxV {
            busy: self.busy,
            queue: texts(self.queue@),
            steer: texts(self.steer.notes@),
            redirect: opt_text(self.redirect),
        }
    }
}

/// The mailbox after a message came while a turn was running.
pub open spec fn offered(m: MailboxV, text: Seq<char>) -> (MailboxV, BusyDecision) {
    match m.busy {
        BusyPolicy::Interrupt => (
            MailboxV { redirect: Some(text), ..m },
            BusyDecision::AbortThenRedirect,
        ),
        BusyPolicy::Queue => (MailboxV { queue: m.queue.push(text), ..m }, BusyDecision::Queued),
        BusyPolicy::Steer => (
            MailboxV { steer: steered_with(m.steer, text), ..m },
            BusyDecision::Steered,
        ),
    }
}

impl Default for Mailbox {
    fn default() -> (r: Mailbox)
        ensures
            r@ == (MailboxV {
                busy: BusyPolicy::Interrupt,
                queue: Seq::empty(),
                steer: Seq::empty(),
                redirect: None,
            }),
    {
        let queue: VecDeque<String> = VecDeque::new();
        let notes: Vec<String> = Vec::new();
        assert(texts(queue@) =~= Seq::empty());
        assert(texts(notes@) =~= Seq::empty());
        Mailbox { busy: BusyPolicy::Interrupt, queue, steer: SteerSlot { notes }, redirect: None }
    }
}

impl Mailbox {
    /// The notes that wait for the turn that is running.
    pub fn steer_slot(&self) -> (r: &SteerSlot)
        ensures
            *r == self.steer,
    {
        &self.steer
    }

    /// A message came while a turn was running.
    pub fn offer_while_busy(&mut self, text: String) -> (r: BusyDecision)
        ensures
            (final(self)@, r) == offered(old(self)@, text@),
    {
        match self.busy {
            BusyPolicy::Interrupt => {
                self.redirect = Some(text);
                BusyDecision::AbortThenRedirect
            },
            BusyPolicy::Queue => {
                self.push_queue(text);
                BusyDecision::Queued
            },
            BusyPolicy::Steer => {
                push_steer(&mut self.steer, text);
                BusyDecision::Steered
            },
        }
    }

    pub fn push_queue(&mut self, text: String)
        ensures
            final(self)@ == (MailboxV { queue: old(self)@.queue.push(text@), ..old(self)@ }),
    {
        let ghost before = self.queue@;
        self.queue.push_back(text);
        assert(texts(self.queue@) =~= texts(before).push(text@));
    }

    pub fn push_steer(&mut self, text: String)
        ensures
            final(self)@ == (MailboxV {
                steer: steered_with(old(self)@.steer, text@),
                ..old(self)@
            }),
    {
        push_steer(&mut self.steer, text);
    }

    pub fn has_redirect(&self) -> (r: bool)
        ensures
            r == (self@.redirect is Some),
    {
        self.redirect.is_some()
    }

    pub fn take_redirect(&mut self) -> (r: Option<String>)
        ensures
            opt_text(r) == old(self)@.redirect,
            final(self)@ == (MailboxV { redirect: None, ..old(self)@ }),
    {
        self.redirect.take()
    }

    /// The message that has waited longest.
    pub fn pop_queue(&mut self) -> (r: Option<String>)
        ensures
            r is Some <==> old(self)@.queue.len() > 0,
            r matches Some(s) ==> s@ == old(self)@.queue[0] && final(self)@ == (MailboxV {
                queue: old(self)@.queue.skip(1),
                ..old(self)@
            }),
            r is None ==> final(self)@ == old(self)@,
    {
        let ghost before = self.queue@;
        let r = self.queue.pop_front();
        if r.is_some() {
            assert(texts(self.queue@) =~= texts(before).skip(1));
            assert(texts(before)[0] == before[0]@);
        } else {
            assert(texts(before).len() == before.len());
        }
        r
    }

    pub fn queued(&self) -> (r: usize)
        ensures
            r == self@.queue.len(),
    {
        self.queue.len()
    }

    pub fn steered(&self) -> (r: usize)
        ensures
            r == self@.steer.len(),
    {
        self.steer.notes.len()
    }

    /// The messages that wait, left where they are.
    pub fn peek_queue(&self) -> (r: Vec<String>)
        ensures
            texts(r@) == self@.queue,
    {
        let mut out: Vec<String> = Vec::new();
        let mut i: usize = 0;
        while i < self.queue.len()
            invariant
                i <= self.queue@.len(),
                out@ =~= self.queue@.take(i as int),
            decreases self.queue.len() - i,
        {
            out.push(self.queue[i].clone());
            i = i + 1;
        }
        assert(out@ =~= self.queue@);
        out
    }

    /// The notes that wait, left where they are.
    pub fn peek_steer(&self) -> (r: Vec<String>)
        ensures
            texts(r@) == self@.steer,
    {
        clone_texts(&self.steer.notes)
    }

    /// Takes out the notes that met no further tool round.
    pub fn take_unused_steer(&mut self) -> (r: Vec<String>)
        ensures
            texts(r@) == old(self)@.steer,
            final(self)@ == (MailboxV { steer: Seq::empty(), ..old(self)@ }),
    {
        let out = take_steer(&mut self.steer);
        assert(texts(self.steer.notes@) =~= Seq::empty());
        out
    }

    /// Drops the messages that wait, and says how many there were.
    pub fn clear_queue(&mut self) -> (r: usize)
        ensures
            r == old(self)@.queue.len(),
            final(self)@ == (MailboxV { queue: Seq::empty(), ..old(self)@ }),
    {
        let n: usize = self.queue.len();
        self.queue.clear();
        assert(texts(self.queue@) =~= Seq::empty());
        n
    }
}

/// What was queued comes out in the order in which it came, behind what waited
/// already.
pub proof fn law_queue_is_first_in_first_out(m: MailboxV, a: Seq<char>, b: Seq<char>)
    requires
        m.busy == BusyPolicy::Queue,
        m.queue.len() == 0,
    ensures
        offered(offered(m, a).0, b).0.queue[0] == a,
        offered(offered(m, a).0, b).0.queue.skip(1)[0] == b,
        offered(offered(m, a).0, b).0.queue.len() == 2,
{
}

/// A message while a turn is running changes only what its policy says: what waits
/// is never reordered or dropped.
pub proof fn law_offers_lose_nothing(m: MailboxV, text: Seq<char>)
    ensures
        m.queue.is_prefix_of(offered(m, text).0.queue),
        m.steer.is_prefix_of(offered(m, text).0.steer),
        offered(m, text).0.busy == m.busy,
        m.busy != BusyPolicy::Interrupt ==> offered(m, text).0.redirect == m.redirect,
{
    let n = offered(m, text).0;
    assert(m.queue.is_prefix_of(n.queue));
    assert(m.steer.is_prefix_of(n.steer));
}

/// What becomes of a message that comes while a turn is running: it takes the turn's place,
/// waits behind those that wait, or is handed to the turn, as the policy says; a blank one
/// is not handed on.
pub proof fn law_what_becomes_of_a_message(m: MailboxV, text: Seq<char>)
    ensures
        ({
            let (n, d) = offered(m, text);
            &&& m.busy == BusyPolicy::Interrupt ==> n == (MailboxV { redirect: Some(text), ..m })
                && d == BusyDecision::AbortThenRedirect
            &&& m.busy == BusyPolicy::Queue ==> n == (MailboxV { queue: m.queue.push(text), ..m })
                && d == BusyDecision::Queued
            &&& m.busy == BusyPolicy::Steer && !blank(text) ==> n == (MailboxV {
                steer: m.steer.push(text),
                ..m
            }) && d == BusyDecision::Steered
            &&& m.busy == BusyPolicy::Steer && blank(text) ==> n == m && d == BusyDecision::Steered
        }),
{
}

/// A policy is named in letters of any case, with space around it or not, and by no other
/// word.
pub proof fn law_how_a_policy_is_named(s: Seq<char>)
    ensures
        ({
            let w = lower(trimmed(s));
            &&& w == "interrupt"@ ==> policy_of(s) == Some(BusyPolicy::Interrupt)
            &&& w == "queue"@ || w == "q"@ ==> policy_of(s) == Some(BusyPolicy::Queue)
            &&& w == "steer"@ ==> policy_of(s) == Some(BusyPolicy::Steer)
            &&& w != "interrupt"@ && w != "queue"@ && w != "q"@ && w != "steer"@ ==> policy_of(
                s,
            ) is None
        }),
{
    reveal_strlit("interrupt");
    reveal_strlit("queue");
    reveal_strlit("q");
    reveal_strlit("steer");
    assert("interrupt"@.len() == 9 && "queue"@.len() == 5 && "q"@.len() == 1 && "steer"@.len() == 5);
    assert("queue"@[0] == 'q' && "steer"@[0] == 's');
}

} // verus!
