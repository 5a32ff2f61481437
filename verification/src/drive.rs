//! One user turn: model hops, their nudges and their end.
//!
//! Each step takes what has happened since and says what to do next: what to note,
//! what to tell the model behind the user's back, and whether the turn is over. A
//! nudge of each kind is given once in a turn.

use vstd::prelude::*;
use crate::policy::EffortEvent;
use crate::json::opt_text;
use crate::text::{
    blank, contains, has_prefix, holds, is_blank, list_has, same, starts_with, texts, trim, trimmed,
};
use crate::turn::ModelTurn;

verus! {

/// After the watchdog has fired.
pub const THINK_DIVERGENCE_NOTE: &'static str =
    "[trajectory] 本轮思考已触及长度预算，可能开始发散。先压缩当前已知事实和未决问题；若证据已足够就作答或执行，若仍缺关键证据只补最小的一步。";

/// Where a cap on steps, time or context would end the turn.
pub const PHYSICS_WRAP_NOTE: &'static str =
    "[trajectory] 本轮已接近步数、时间或上下文上限。用已有证据收束成对用户可见的结论，不要再开新的工具循环。";

/// After the retries of a reply that cannot be read.
pub const PARSE_REPAIR_NOTE: &'static str =
    "[trajectory] 上一跳工具调用未能解析。改用完整原生 tool call，或直接给出可见结论。";

/// After a reply that says nothing to the user.
pub const EMPTY_CHANNEL_NOTE: &'static str =
    "[trajectory] 上一跳没有给用户可见回复。把完整结论写到正常回复；思考通道用户看不见。若任务没做完，调用工具。不要再交空回复。";

/// After several tool hops without a word.
pub const SILENT_TOOL_NOTE: &'static str =
    "[trajectory] 连续几跳工具调用没有对用户说话。接下来动手前用一句中文（≤20字）说明，再调工具；不要把说明只写在思考通道。";

/// What the user reads where nothing was said at all.
pub const EMPTY_STOP_FALLBACK: &'static str =
    "这一步停在了空回复上。请再说一次，或换个问法。";

/// How many tool hops without a word are remarked upon.
pub const SILENT_TOOL_STREAK: u32 = 4;

/// The longest thought that can be taken for an answer.
pub const PROMOTE_REASONING_MAX: usize = 800;

/// A stop for want of steps, time, tokens or context.
pub open spec fn physics_stop(reason: Seq<char>) -> bool {
    ||| has_prefix(reason, "budget:context"@)
    ||| holds(reason, "Max iterations"@)
    ||| holds(reason, "time limit"@)
    ||| holds(reason, "Token budget"@)
    ||| holds(reason, "call budget"@)
}

/// Whether a stop is for want of steps, time, tokens or context.
pub fn is_physics_stop(reason: &str) -> (r: bool)
    ensures
        r == physics_stop(reason@),
{
    starts_with(reason, "budget:context") || contains(reason, "Max iterations") || contains(
        reason,
        "time limit",
    ) || contains(reason, "Token budget") || contains(reason, "call budget")
}

// ---------------------------------------------------------------------------
// State and results
// ---------------------------------------------------------------------------

/// How a turn ends.
#[derive(Debug, PartialEq, Eq)]
pub struct Finish {
    pub text: String,
    pub stop_reason: Option<String>,
}

pub ghost struct FinishV {
    pub text: Seq<char>,
    pub stop_reason: Option<Seq<char>>,
}

impl View for Finish {
    type V = FinishV;

    open spec fn view(&self) -> FinishV {
        FinishV { text: self.text@, stop_reason: opt_text(self.stop_reason) }
    }
}

/// What to do next.
#[derive(Debug, PartialEq, Eq)]
pub struct Out {
    /// Lines for whoever watches.
    pub notes: Vec<String>,
    /// Messages for the model that the user does not see.
    pub hidden: Vec<String>,
    pub finish: Option<Finish>,
    /// Ask the model again, from the top.
    pub again: bool,
    /// What the step says of the effort, if anything.
    pub effort: Option<EffortEvent>,
}

pub ghost struct OutV {
    pub notes: Seq<Seq<char>>,
    pub hidden: Seq<Seq<char>>,
    pub finish: Option<FinishV>,
    pub again: bool,
    pub effort: Option<EffortEvent>,
}

impl View for Out {
    type V = OutV;

    open spec fn view(&self) -> OutV {
        OutV {
            notes: texts(self.notes@),
            hidden: texts(self.hidden@),
            finish: match self.finish {
                Some(f) => Some(f@),
                None => None,
            },
            again: self.again,
            effort: self.effort,
        }
    }
}

pub open spec fn go() -> OutV {
    OutV { notes: Seq::empty(), hidden: Seq::empty(), finish: None, again: false, effort: None }
}

pub open spec fn ends(text: Seq<char>, stop_reason: Option<Seq<char>>) -> OutV {
    OutV { finish: Some(FinishV { text, stop_reason }), ..go() }
}

pub open spec fn noted(o: OutV, line: Seq<char>) -> OutV {
    OutV { notes: o.notes.push(line), ..o }
}

pub open spec fn telling(o: OutV, message: Seq<char>) -> OutV {
    OutV { hidden: o.hidden.push(message), ..o }
}

/// With what it says of the effort.
pub open spec fn judging(o: OutV, e: EffortEvent) -> OutV {
    OutV { effort: Some(e), ..o }
}

pub open spec fn asking_again(o: OutV) -> OutV {
    OutV { again: true, ..o }
}

impl Out {
    pub(crate) fn go() -> (r: Out)
        ensures
            r@ == go(),
    {
        let notes: Vec<String> = Vec::new();
        let hidden: Vec<String> = Vec::new();
        assert(texts(notes@) =~= Seq::empty());
        assert(texts(hidden@) =~= Seq::empty());
        Out { notes, hidden, finish: None, again: false, effort: None }
    }

    fn end(text: String, stop_reason: Option<String>) -> (r: Out)
        ensures
            r@ == ends(text@, opt_text(stop_reason)),
    {
        let mut o = Out::go();
        o.finish = Some(Finish { text, stop_reason });
        o
    }

    pub(crate) fn aborted() -> (r: Out)
        ensures
            r@ == ends(Seq::empty(), Some("aborted"@)),
    {
        Out::end(String::new(), Some("aborted".to_owned()))
    }

    fn note(self, line: &str) -> (r: Out)
        ensures
            r@ == noted(self@, line@),
    {
        let mut o = self;
        let ghost before = o.notes@;
        o.notes.push(line.to_owned());
        assert(texts(o.notes@) =~= texts(before).push(line@));
        o
    }

    fn tell(self, message: &str) -> (r: Out)
        ensures
            r@ == telling(self@, message@),
    {
        let mut o = self;
        let ghost before = o.hidden@;
        o.hidden.push(message.to_owned());
        assert(texts(o.hidden@) =~= texts(before).push(message@));
        o
    }

    fn judge(self, e: EffortEvent) -> (r: Out)
        ensures
            r@ == judging(self@, e),
    {
        let mut o = self;
        o.effort = Some(e);
        o
    }

    fn again(self) -> (r: Out)
        ensures
            r@ == asking_again(self@),
    {
        let mut o = self;
        o.again = true;
        o
    }
}

/// One user turn.
#[derive(Debug, PartialEq, Eq)]
pub struct Drive {
    pub low_precision: bool,
    pub stutter_nudged: bool,
    pub physics_nudged: bool,
    pub parse_nudged: bool,
    pub channel_nudged: bool,
    pub silent_tool_nudged: bool,
    pub silent_tool_hops: u32,
    /// The last answer that was delivered.
    pub last_spoken: Option<String>,
    /// The last longer text, delivered or not.
    pub last_essay: Option<String>,
    /// A stop that takes effect before the next hop.
    pub pending_stop: Option<String>,
    pub steps: u32,
    pub prompt_tokens: u64,
    pub completion_tokens: u64,
    pub parse_retries: u32,
}

pub ghost struct DriveV {
    pub low_precision: bool,
    pub stutter_nudged: bool,
    pub physics_nudged: bool,
    pub parse_nudged: bool,
    pub channel_nudged: bool,
    pub silent_tool_nudged: bool,
    pub silent_tool_hops: nat,
    pub last_spoken: Option<Seq<char>>,
    pub last_essay: Option<Seq<char>>,
    pub pending_stop: Option<Seq<char>>,
    pub steps: nat,
    pub prompt_tokens: nat,
    pub completion_tokens: nat,
    pub parse_retries: nat,
}

impl View for Drive {
    type V = DriveV;

    open spec fn view(&self) -> DriveV {
        DriveV {
            low_precision: self.low_precision,
            stutter_nudged: self.stutter_nudged,
            physics_nudged: self.physics_nudged,
            parse_nudged: self.parse_nudged,
            channel_nudged: self.channel_nudged,
            silent_tool_nudged: self.silent_tool_nudged,
            silent_tool_hops: self.silent_tool_hops as nat,
            last_spoken: opt_text(self.last_spoken),
            last_essay: opt_text(self.last_essay),
            pending_stop: opt_text(self.pending_stop),
            steps: self.steps as nat,
            prompt_tokens: self.prompt_tokens as nat,
            completion_tokens: self.completion_tokens as nat,
            parse_retries: self.parse_retries as nat,
        }
    }
}

pub open spec fn fresh(low_precision: bool) -> DriveV {
    DriveV {
        low_precision,
        stutter_nudged: false,
        physics_nudged: false,
        parse_nudged: false,
        channel_nudged: false,
        silent_tool_nudged: false,
        silent_tool_hops: 0,
        last_spoken: None,
        last_essay: None,
        pending_stop: None,
        steps: 0,
        prompt_tokens: 0,
        completion_tokens: 0,
        parse_retries: 0,
    }
}

/// How many replies that cannot be read are asked for again.
pub open spec fn parse_stop_after(d: DriveV) -> nat {
    if d.low_precision {
        2
    } else {
        3
    }
}

pub open spec fn or_nothing(s: Option<Seq<char>>) -> Seq<char> {
    match s {
        Some(t) => t,
        None => Seq::empty(),
    }
}

/// What the user has been told: the last answer, else the last longer text.
pub open spec fn visible_stop(d: DriveV) -> Seq<char> {
    let spoken = trimmed(or_nothing(d.last_spoken));
    if spoken.len() > 0 {
        spoken
    } else {
        trimmed(or_nothing(d.last_essay))
    }
}

/// An end that never leaves the user without a word.
pub open spec fn ends_visibly(d: DriveV, content: Seq<char>, stop: Option<Seq<char>>) -> OutV {
    let kept = visible_stop(d);
    ends(
        if !blank(content) {
            content
        } else if kept.len() > 0 {
            kept
        } else {
            EMPTY_STOP_FALLBACK@
        },
        stop,
    )
}

// ---------------------------------------------------------------------------
// Before a hop
// ---------------------------------------------------------------------------

/// The top of the loop: an abort and a stop that waits take effect before the model
/// is asked.
pub open spec fn at_top(d: DriveV, cancelled: bool) -> (DriveV, OutV) {
    if cancelled {
        (d, ends(Seq::empty(), Some("aborted"@)))
    } else {
        match d.pending_stop {
            None => (d, go()),
            Some(reason) => {
                let e = DriveV { pending_stop: None, ..d };
                let text = or_nothing(d.last_spoken);
                if reason.len() == 0 {
                    (e, ends(text, None))
                } else if physics_stop(reason) {
                    (e, noted(ends(text, None), reason))
                } else {
                    (e, noted(ends(text, Some(reason)), reason))
                }
            },
        }
    }
}

/// After the context was compacted as far as it goes; `reason` says that it is still
/// too long. That gets one hop to wrap up.
pub open spec fn compacted(d: DriveV, reason: Option<Seq<char>>) -> (DriveV, OutV) {
    match reason {
        None => (d, go()),
        Some(r) => if d.physics_nudged {
            (d, noted(ends(or_nothing(d.last_spoken), None), r))
        } else {
            (
                DriveV { physics_nudged: true, ..d },
                telling(noted(go(), r), PHYSICS_WRAP_NOTE@),
            )
        },
    }
}

pub open spec fn capped(n: nat, max: nat) -> nat {
    if n > max {
        max
    } else {
        n
    }
}

/// One more hop is counted.
pub open spec fn counted(d: DriveV, prompt: nat, completion: nat) -> DriveV {
    DriveV {
        steps: capped(d.steps + 1, u32::MAX as nat),
        prompt_tokens: capped(d.prompt_tokens + prompt, u64::MAX as nat),
        completion_tokens: capped(d.completion_tokens + completion, u64::MAX as nat),
        ..d
    }
}

fn plus(a: u64, b: u64) -> (r: u64)
    ensures
        r == capped(a as nat + b as nat, u64::MAX as nat),
{
    if b > u64::MAX - a {
        u64::MAX
    } else {
        a + b
    }
}

fn one_more(a: u32) -> (r: u32)
    ensures
        r == capped(a as nat + 1, u32::MAX as nat),
{
    if a == u32::MAX {
        a
    } else {
        a + 1
    }
}

impl Drive {
    /// A new turn.
    pub fn new(low_precision: bool) -> (r: Drive)
        ensures
            r@ == fresh(low_precision),
    {
        Drive {
            low_precision,
            stutter_nudged: false,
            physics_nudged: false,
            parse_nudged: false,
            channel_nudged: false,
            silent_tool_nudged: false,
            silent_tool_hops: 0,
            last_spoken: None,
            last_essay: None,
            pending_stop: None,
            steps: 0,
            prompt_tokens: 0,
            completion_tokens: 0,
            parse_retries: 0,
        }
    }

    fn spoken(&self) -> (r: String)
        ensures
            r@ == or_nothing(self@.last_spoken),
    {
        match &self.last_spoken {
            Some(s) => s.clone(),
            None => String::new(),
        }
    }

    /// What the user has been told.
    pub fn visible_stop_text(&self) -> (r: String)
        ensures
            r@ == visible_stop(self@),
    {
        let s = trim(self.spoken().as_str());
        if !s.as_str().is_empty() {
            return s;
        }
        match &self.last_essay {
            Some(e) => trim(e.as_str()),
            None => {
                assert(trimmed(Seq::<char>::empty()) =~= Seq::<char>::empty());
                String::new()
            },
        }
    }

    fn end_visibly(&self, content: &str, stop: Option<String>) -> (r: Out)
        ensures
            r@ == ends_visibly(self@, content@, opt_text(stop)),
    {
        if !is_blank(content) {
            return Out::end(content.to_owned(), stop);
        }
        let kept = self.visible_stop_text();
        if kept.as_str().is_empty() {
            Out::end(EMPTY_STOP_FALLBACK.to_owned(), stop)
        } else {
            Out::end(kept, stop)
        }
    }

    /// The top of the loop.
    pub fn top(&mut self, cancelled: bool) -> (r: Out)
        ensures
            (final(self)@, r@) == at_top(old(self)@, cancelled),
    {
        if cancelled {
            return Out::aborted();
        }
        match self.pending_stop.take() {
            None => Out::go(),
            Some(reason) => {
                let text = self.spoken();
                if reason.as_str().is_empty() {
                    Out::end(text, None)
                } else if is_physics_stop(reason.as_str()) {
                    Out::end(text, None).note(reason.as_str())
                } else {
                    let line = reason.clone();
                    Out::end(text, Some(reason)).note(line.as_str())
                }
            },
        }
    }

    /// After the context was compacted as far as it goes.
    pub fn after_compact(&mut self, reason: Option<&str>) -> (r: Out)
        ensures
            (final(self)@, r@) == compacted(
                old(self)@,
                match reason {
                    Some(s) => Some(s@),
                    None => None,
                },
            ),
    {
        match reason {
            None => Out::go(),
            Some(line) => {
                if self.physics_nudged {
                    return Out::end(self.spoken(), None).note(line);
                }
                self.physics_nudged = true;
                Out::go().note(line).tell(PHYSICS_WRAP_NOTE)
            },
        }
    }

    fn count(&mut self, prompt: u64, completion: u64)
        ensures
            final(self)@ == counted(old(self)@, prompt as nat, completion as nat),
    {
        self.steps = one_more(self.steps);
        self.prompt_tokens = plus(self.prompt_tokens, prompt);
        self.completion_tokens = plus(self.completion_tokens, completion);
    }
}

// ---------------------------------------------------------------------------
// After a hop
// ---------------------------------------------------------------------------

/// What of a reply a turn depends on.
pub ghost struct ReplyV {
    pub content: Seq<char>,
    pub reasoning: Seq<char>,
    pub calls: nat,
    pub watchdog_hit: bool,
    pub prompt: nat,
    pub completion: nat,
}

pub open spec fn reply_of(t: ModelTurn) -> ReplyV {
    ReplyV {
        content: t.content@,
        reasoning: t.reasoning@,
        calls: t.tool_calls@.len(),
        watchdog_hit: t.watchdog_hit,
        prompt: t.prompt_tokens as nat,
        completion: t.completion_tokens as nat,
    }
}

/// A reply came. One whose thought ran into its cap is remarked upon, and asked for
/// once more with more room.
pub open spec fn replied(d: DriveV, t: ReplyV) -> (DriveV, OutV) {
    (
        counted(d, t.prompt, t.completion),
        if t.watchdog_hit {
            telling(
                noted(go(), "[watchdog] think cap; soft nudge and one roomy retry"@),
                THINK_DIVERGENCE_NOTE@,
            )
        } else {
            go()
        },
    )
}

/// A reply that ran into its cap and brought nothing.
pub open spec fn empty_handed(t: ReplyV) -> bool {
    t.watchdog_hit && t.content.len() == 0 && t.calls == 0
}

/// The retry with more room came, or did not: whether it takes the reply's place, and
/// what to do next.
pub open spec fn widened(d: DriveV, cancelled: bool, first: ReplyV, second: Option<ReplyV>) -> (
    DriveV,
    bool,
    OutV,
) {
    if cancelled {
        (d, false, ends(Seq::empty(), Some("aborted"@)))
    } else {
        let e = match second {
            Some(t) => counted(d, t.prompt, t.completion),
            None => d,
        };
        let taken = second is Some && !empty_handed(second->0);
        let kept = if taken {
            second->0
        } else {
            first
        };
        (
            e,
            taken,
            if empty_handed(kept) {
                judging(ends(or_nothing(d.last_spoken), None), EffortEvent::Clean)
            } else {
                go()
            },
        )
    }
}

/// The reply's calls could not be read: ask again, then once more with a remark, then
/// end.
pub open spec fn unreadable(d: DriveV) -> (DriveV, OutV) {
    let n = capped(d.parse_retries + 1, u32::MAX as nat);
    let e = DriveV { parse_retries: n, ..d };
    if n < parse_stop_after(d) {
        (e, judging(noted(asking_again(go()), "[parse] retry"@), EffortEvent::ParseFail))
    } else if !d.parse_nudged {
        (
            DriveV { parse_nudged: true, ..e },
            judging(
                asking_again(telling(noted(go(), "[parse] retry"@), PARSE_REPAIR_NOTE@)),
                EffortEvent::ParseFail,
            ),
        )
    } else {
        (
            e,
            judging(
                noted(ends(or_nothing(d.last_spoken), None), "[parse] retry"@),
                EffortEvent::ParseFail,
            ),
        )
    }
}

/// What is judged of a reply.
#[derive(Debug, PartialEq, Eq)]
pub struct ReplyFacts {
    /// The content without an echo of the user's greeting.
    pub without_echo: String,
    /// The reply repeats itself, and what to tell the model then.
    pub stutter: bool,
    pub stutter_note: String,
    /// The answer that was dumped into a file instead of being given.
    pub dumped: Option<String>,
    /// The thought is a scratch plan.
    pub scratch_thought: bool,
    /// The thought is long enough for an answer.
    pub substantial_thought: bool,
}

pub ghost struct ReplyFactsV {
    pub without_echo: Seq<char>,
    pub stutter: bool,
    pub stutter_note: Seq<char>,
    pub dumped: Option<Seq<char>>,
    pub scratch_thought: bool,
    pub substantial_thought: bool,
}

impl View for ReplyFacts {
    type V = ReplyFactsV;

    open spec fn view(&self) -> ReplyFactsV {
        ReplyFactsV {
            without_echo: self.without_echo@,
            stutter: self.stutter,
            stutter_note: self.stutter_note@,
            dumped: opt_text(self.dumped),
            scratch_thought: self.scratch_thought,
            substantial_thought: self.substantial_thought,
        }
    }
}

/// The answer that landed only in the thought, where it can be taken for one.
pub open spec fn promoted(t: ReplyV, content: Seq<char>, f: ReplyFactsV) -> Option<Seq<char>> {
    if t.calls == 0 && blank(content) && !f.scratch_thought && f.substantial_thought && trimmed(
        t.reasoning,
    ).len() <= 800 {
        Some(trimmed(t.reasoning))
    } else {
        None
    }
}

/// What a reply says to the user: without echo, with an answer that was dumped into a
/// file or landed in the thought brought back.
pub open spec fn settled_content(t: ReplyV, f: ReplyFactsV) -> Seq<char> {
    let plain = if t.calls == 0 {
        f.without_echo
    } else {
        t.content
    };
    let kept = match f.dumped {
        Some(b) => b,
        None => plain,
    };
    match promoted(t, kept, f) {
        Some(s) => s,
        None => kept,
    }
}

/// A hop that says nothing to the user and does nothing: a thought was left over, or
/// nothing has been said in the whole turn.
pub open spec fn needs_rescue(d: DriveV, t: ReplyV, content: Seq<char>) -> bool {
    t.calls == 0 && blank(content) && (!blank(t.reasoning) || visible_stop(d).len() == 0)
}

/// What a reply comes to: the content to go on with, and what to do next.
pub open spec fn settled_reply(d: DriveV, t: ReplyV, f: ReplyFactsV) -> (DriveV, Seq<char>, OutV) {
    let content = settled_content(t, f);
    if d.low_precision && f.stutter && !d.stutter_nudged {
        (
            DriveV { stutter_nudged: true, ..d },
            content,
            asking_again(telling(go(), f.stutter_note)),
        )
    } else if !needs_rescue(d, t, content) {
        (d, content, go())
    } else if !d.channel_nudged {
        (
            DriveV { channel_nudged: true, ..d },
            content,
            asking_again(
                telling(
                    noted(go(), "[channel] empty visible reply; one wrap-up"@),
                    EMPTY_CHANNEL_NOTE@,
                ),
            ),
        )
    } else {
        (d, content, judging(ends_visibly(d, Seq::empty(), None), EffortEvent::Clean))
    }
}

// ---------------------------------------------------------------------------
// Answers that are dumped
// ---------------------------------------------------------------------------

/// What is judged of one call.
#[derive(Debug, PartialEq, Eq)]
pub struct CallFacts {
    pub name: String,
    /// It writes a placeholder.
    pub placeholder: bool,
    /// It writes what was said before.
    pub restates_anchor: bool,
    /// It writes what the same reply says.
    pub restates_content: bool,
    /// It only cleans up.
    pub cleanup: bool,
    /// The file that it reads or writes.
    pub path: Option<String>,
}

pub ghost struct CallFactsV {
    pub name: Seq<char>,
    pub placeholder: bool,
    pub restates_anchor: bool,
    pub restates_content: bool,
    pub cleanup: bool,
    pub path: Option<Seq<char>>,
}

impl View for CallFacts {
    type V = CallFactsV;

    open spec fn view(&self) -> CallFactsV {
        CallFactsV {
            name: self.name@,
            placeholder: self.placeholder,
            restates_anchor: self.restates_anchor,
            restates_content: self.restates_content,
            cleanup: self.cleanup,
            path: opt_text(self.path),
        }
    }
}

/// What is judged of a hop.
#[derive(Debug, PartialEq, Eq)]
pub struct HopFacts {
    /// The content is long enough for an answer.
    pub substantial: bool,
    /// The content is mostly quotes.
    pub blockquote: bool,
    /// What was said before is long enough for an answer.
    pub anchor_substantial: bool,
    /// The content says again what was said before.
    pub restated: bool,
    pub calls: Vec<CallFacts>,
}

pub ghost struct HopFactsV {
    pub substantial: bool,
    pub blockquote: bool,
    pub anchor_substantial: bool,
    pub restated: bool,
    pub calls: Seq<CallFactsV>,
}

impl View for HopFacts {
    type V = HopFactsV;

    open spec fn view(&self) -> HopFactsV {
        HopFactsV {
            substantial: self.substantial,
            blockquote: self.blockquote,
            anchor_substantial: self.anchor_substantial,
            restated: self.restated,
            calls: self.calls@.map_values(|c: CallFacts| c@),
        }
    }
}

/// A call that only dumps: it writes a placeholder or what was said already, or
/// cleans up.
pub open spec fn dump_tool(c: CallFactsV, content: Seq<char>) -> bool {
    if c.name == "write"@ {
        c.placeholder || c.restates_anchor || (!blank(content) && c.restates_content)
    } else {
        c.name == "bash"@ && c.cleanup
    }
}

/// A call that does something new: it reads what has not been read, or writes or runs
/// what is no dump.
pub open spec fn work_tool(c: CallFactsV, content: Seq<char>, read: Seq<Seq<char>>) -> bool {
    if c.name == "read"@ || c.name == "view"@ {
        c.path is None || !read.contains(c.path->0)
    } else if c.name == "write"@ || c.name == "bash"@ {
        !dump_tool(c, content)
    } else {
        true
    }
}

/// A hop that only dumps an answer that was given already.
pub open spec fn dump_hop(f: HopFactsV, content: Seq<char>, read: Seq<Seq<char>>) -> bool {
    if !f.anchor_substantial {
        false
    } else if f.calls.len() == 0 {
        f.restated
    } else if f.substantial && !f.restated {
        false
    } else {
        (exists|i: int| 0 <= i < f.calls.len() && dump_tool(#[trigger] f.calls[i], content))
            && forall|i: int| 0 <= i < f.calls.len() ==> !work_tool(
            #[trigger] f.calls[i],
            content,
            read,
        )
    }
}

/// A call that leaves an answer standing: it reads, writes it down again or cleans up.
pub open spec fn quiet_tool(c: CallFactsV) -> bool {
    if c.name == "read"@ || c.name == "view"@ {
        true
    } else if c.name == "write"@ {
        c.placeholder || c.restates_content
    } else {
        c.name == "bash"@ && c.cleanup
    }
}

/// A hop that delivers an answer: it is long enough, and its calls, if any, only leave
/// it standing, at least one by more than reading.
pub open spec fn locks_spoken(f: HopFactsV) -> bool {
    f.substantial && (f.calls.len() == 0 || ((forall|i: int|
        0 <= i < f.calls.len() ==> quiet_tool(#[trigger] f.calls[i])) && exists|i: int|
        0 <= i < f.calls.len() && (#[trigger] f.calls[i]).name != "read"@ && f.calls[i].name
            != "view"@))
}

/// What was said before.
pub open spec fn anchor_of(d: DriveV) -> Option<Seq<char>> {
    match d.last_spoken {
        Some(s) => Some(s),
        None => d.last_essay,
    }
}

/// A hop after which the model has nothing new to say.
pub open spec fn diverges(d: DriveV, f: HopFactsV, content: Seq<char>, read: Seq<Seq<char>>) -> bool {
    anchor_of(d) is Some && ((f.calls.len() == 0 && f.blockquote && f.anchor_substantial)
        || dump_hop(f, content, read))
}

/// What a hop comes to: where it says nothing new and does nothing the turn ends with
/// what was said before; where it would only dump, the calls are put off. Else what it
/// says is remembered.
pub open spec fn judged_hop(d: DriveV, f: HopFactsV, content: Seq<char>, read: Seq<Seq<char>>) -> (
    DriveV,
    bool,
    OutV,
) {
    let off = diverges(d, f, content, read);
    if off && f.calls.len() == 0 {
        (d, false, judging(ends(or_nothing(anchor_of(d)), None), EffortEvent::Clean))
    } else {
        (
            DriveV {
                last_essay: if f.substantial && !f.blockquote {
                    Some(content)
                } else {
                    d.last_essay
                },
                last_spoken: if locks_spoken(f) {
                    Some(content)
                } else {
                    d.last_spoken
                },
                ..d
            },
            off,
            go(),
        )
    }
}

fn is_dump_tool(c: &CallFacts, content: &str) -> (r: bool)
    ensures
        r == dump_tool(c@, content@),
{
    if same(c.name.as_str(), "write") {
        c.placeholder || c.restates_anchor || (!is_blank(content) && c.restates_content)
    } else {
        same(c.name.as_str(), "bash") && c.cleanup
    }
}

fn is_work_tool(c: &CallFacts, content: &str, read: &Vec<String>) -> (r: bool)
    ensures
        r == work_tool(c@, content@, texts(read@)),
{
    let n = c.name.as_str();
    if same(n, "read") || same(n, "view") {
        match &c.path {
            Some(p) => !list_has(read, p.as_str()),
            None => true,
        }
    } else if same(n, "write") || same(n, "bash") {
        !is_dump_tool(c, content)
    } else {
        true
    }
}

fn is_dump_hop(f: &HopFacts, content: &str, read: &Vec<String>) -> (r: bool)
    ensures
        r == dump_hop(f@, content@, texts(read@)),
{
    if !f.anchor_substantial {
        return false;
    }
    let ghost cs = f@.calls;
    assert(cs.len() == f.calls@.len());
    if f.calls.len() == 0 {
        return f.restated;
    }
    if f.substantial && !f.restated {
        return false;
    }
    let mut dump: bool = false;
    let mut i: usize = 0;
    while i < f.calls.len()
        invariant
            i <= f.calls@.len() == cs.len(),
            cs == f@.calls,
            f.anchor_substantial,
            cs.len() > 0,
            !(f.substantial && !f.restated),
            dump == exists|j: int| 0 <= j < i && dump_tool(#[trigger] cs[j], content@),
            forall|j: int| 0 <= j < i ==> !work_tool(#[trigger] cs[j], content@, texts(read@)),
        decreases f.calls.len() - i,
    {
        assert(cs[i as int] == f.calls@[i as int]@);
        if is_work_tool(&f.calls[i], content, read) {
            return false;
        }
        if is_dump_tool(&f.calls[i], content) {
            dump = true;
        }
        i = i + 1;
    }
    dump
}

fn hop_locks_spoken(f: &HopFacts) -> (r: bool)
    ensures
        r == locks_spoken(f@),
{
    if !f.substantial {
        return false;
    }
    let ghost cs = f@.calls;
    assert(cs.len() == f.calls@.len());
    if f.calls.len() == 0 {
        return true;
    }
    let mut dumpish: bool = false;
    let mut i: usize = 0;
    while i < f.calls.len()
        invariant
            i <= f.calls@.len() == cs.len(),
            cs == f@.calls,
            f.substantial,
            cs.len() > 0,
            forall|j: int| 0 <= j < i ==> quiet_tool(#[trigger] cs[j]),
            dumpish == exists|j: int|
                0 <= j < i && (#[trigger] cs[j]).name != "read"@ && cs[j].name != "view"@,
        decreases f.calls.len() - i,
    {
        let c = &f.calls[i];
        assert(cs[i as int] == c@);
        let n = c.name.as_str();
        if !same(n, "read") && !same(n, "view") {
            let quiet: bool = if same(n, "write") {
                c.placeholder || c.restates_content
            } else {
                same(n, "bash") && c.cleanup
            };
            if !quiet {
                assert(!quiet_tool(cs[i as int]));
                return false;
            }
            dumpish = true;
        }
        i = i + 1;
    }
    dumpish
}

// ---------------------------------------------------------------------------
// Gates
// ---------------------------------------------------------------------------

/// What the gates say.
#[derive(Debug, PartialEq, Eq)]
pub enum Decision {
    Stop(String),
    Continue(String),
    Bypass,
}

pub ghost enum DecisionV {
    Stop(Seq<char>),
    Continue(Seq<char>),
    Bypass,
}

impl View for Decision {
    type V = DecisionV;

    open spec fn view(&self) -> DecisionV {
        match self {
            Decision::Stop(s) => DecisionV::Stop(s@),
            Decision::Continue(s) => DecisionV::Continue(s@),
            Decision::Bypass => DecisionV::Bypass,
        }
    }
}

/// What the gates say of a hop with calls: a cap gets one hop to wrap up, another stop
/// waits until the calls are done, a remark follows them.
pub open spec fn gated(d: DriveV, dec: DecisionV) -> (DriveV, OutV) {
    match dec {
        DecisionV::Stop(r) => if physics_stop(r) {
            if d.physics_nudged {
                (DriveV { pending_stop: Some(Seq::empty()), ..d }, noted(go(), r))
            } else {
                (
                    DriveV { physics_nudged: true, ..d },
                    telling(noted(go(), r), PHYSICS_WRAP_NOTE@),
                )
            }
        } else if r.len() > 0 {
            (DriveV { pending_stop: Some(r), ..d }, go())
        } else {
            (d, go())
        },
        DecisionV::Continue(c) => if c.len() > 0 {
            (d, telling(go(), c))
        } else {
            (d, go())
        },
        DecisionV::Bypass => (d, go()),
    }
}

/// A hop with calls: what the gates say, a remark on hops without a word where the
/// model is known for them, and the remark on a dump. The messages follow the calls.
pub open spec fn hop_with_calls(
    d: DriveV,
    content: Seq<char>,
    dec: DecisionV,
    silent_channel: bool,
    dump_note: Option<Seq<char>>,
) -> (DriveV, OutV) {
    let hops = if blank(content) {
        capped(d.silent_tool_hops + 1, u32::MAX as nat)
    } else {
        0
    };
    let (e, o) = gated(DriveV { silent_tool_hops: hops, ..d }, dec);
    let remark = silent_channel && !d.silent_tool_nudged && hops >= 4;
    let f = DriveV { silent_tool_nudged: d.silent_tool_nudged || remark, ..e };
    let said = if remark {
        telling(
            noted(o, "[channel] silent tool streak; one style observation"@),
            SILENT_TOOL_NOTE@,
        )
    } else {
        o
    };
    (
        f,
        match dump_note {
            Some(n) => telling(said, n),
            None => said,
        },
    )
}

/// The reason that the user is given for a stop.
pub open spec fn shown_reason(r: Seq<char>) -> Option<Seq<char>> {
    if r.len() == 0 {
        None
    } else {
        Some(r)
    }
}

/// A hop without calls ends the turn.
pub open spec fn final_hop(d: DriveV, content: Seq<char>, dec: DecisionV) -> OutV {
    let end = match dec {
        DecisionV::Continue(c) => ends_visibly(d, content, shown_reason(c)),
        DecisionV::Stop(r) => if physics_stop(r) {
            noted(ends_visibly(d, content, None), r)
        } else {
            ends_visibly(d, content, shown_reason(r))
        },
        DecisionV::Bypass => ends_visibly(d, content, None),
    };
    judging(end, EffortEvent::Clean)
}

fn reason_of(r: String) -> (o: Option<String>)
    ensures
        opt_text(o) == shown_reason(r@),
{
    if r.as_str().is_empty() {
        None
    } else {
        Some(r)
    }
}

impl Drive {
    /// A reply came.
    pub fn on_turn(&mut self, turn: &ModelTurn) -> (r: Out)
        ensures
            (final(self)@, r@) == replied(old(self)@, reply_of(*turn)),
    {
        self.count(turn.prompt_tokens, turn.completion_tokens);
        if turn.watchdog_hit {
            Out::go().note("[watchdog] think cap; soft nudge and one roomy retry").tell(
                THINK_DIVERGENCE_NOTE,
            )
        } else {
            Out::go()
        }
    }

    /// The retry with more room came, or did not. The turn to go on with comes back.
    pub fn on_widened(
        &mut self,
        cancelled: bool,
        first: ModelTurn,
        second: Option<ModelTurn>,
    ) -> (r: (ModelTurn, Out))
        ensures
            ({
                let w = widened(
                    old(self)@,
                    cancelled,
                    reply_of(first),
                    match second {
                        Some(t) => Some(reply_of(t)),
                        None => None,
                    },
                );
                &&& final(self)@ == w.0
                &&& r.0 == (if w.1 {
                    second->0
                } else {
                    first
                })
                &&& r.1@ == w.2
            }),
    {
        if cancelled {
            return (first, Out::aborted());
        }
        let kept: ModelTurn = match second {
            Some(t) => {
                self.count(t.prompt_tokens, t.completion_tokens);
                if !t.watchdog_hit || !t.content.as_str().is_empty() || t.tool_calls.len() > 0 {
                    t
                } else {
                    first
                }
            },
            None => first,
        };
        let out = if kept.watchdog_hit && kept.content.as_str().is_empty() && kept.tool_calls.len()
            == 0 {
            Out::end(self.spoken(), None).judge(EffortEvent::Clean)
        } else {
            Out::go()
        };
        (kept, out)
    }

    /// The reply's calls could not be read.
    pub fn on_parse_fail(&mut self) -> (r: Out)
        ensures
            (final(self)@, r@) == unreadable(old(self)@),
    {
        self.parse_retries = one_more(self.parse_retries);
        let cap: u32 = if self.low_precision {
            2
        } else {
            3
        };
        if self.parse_retries < cap {
            return Out::go().again().note("[parse] retry").judge(EffortEvent::ParseFail);
        }
        if !self.parse_nudged {
            self.parse_nudged = true;
            return Out::go().note("[parse] retry").tell(PARSE_REPAIR_NOTE).again().judge(
                EffortEvent::ParseFail,
            );
        }
        Out::end(self.spoken(), None).note("[parse] retry").judge(EffortEvent::ParseFail)
    }

    /// What a reply comes to.
    pub fn settle_reply(&mut self, turn: &ModelTurn, facts: &ReplyFacts) -> (r: (String, Out))
        ensures
            (final(self)@, r.0@, r.1@) == settled_reply(old(self)@, reply_of(*turn), facts@),
    {
        let quiet: bool = turn.tool_calls.len() == 0;
        let mut content: String = match &facts.dumped {
            Some(b) => b.clone(),
            None => if quiet {
                facts.without_echo.clone()
            } else {
                turn.content.clone()
            },
        };
        let thought = trim(turn.reasoning.as_str());
        if quiet && is_blank(content.as_str()) && !facts.scratch_thought
            && facts.substantial_thought && thought.as_str().unicode_len()
            <= PROMOTE_REASONING_MAX {
            content = thought;
        }
        assert(content@ == settled_content(reply_of(*turn), facts@));
        if self.low_precision && facts.stutter && !self.stutter_nudged {
            self.stutter_nudged = true;
            return (content, Out::go().tell(facts.stutter_note.as_str()).again());
        }
        let rescue: bool = quiet && is_blank(content.as_str()) && (!is_blank(
            turn.reasoning.as_str(),
        ) || self.visible_stop_text().as_str().is_empty());
        if !rescue {
            return (content, Out::go());
        }
        if !self.channel_nudged {
            self.channel_nudged = true;
            return (
                content,
                Out::go().note("[channel] empty visible reply; one wrap-up").tell(
                    EMPTY_CHANNEL_NOTE,
                ).again(),
            );
        }
        let out = self.end_visibly("", None);
        assert(out@ == ends_visibly(self@, Seq::empty(), None)) by {
            reveal_strlit("");
            assert(""@ =~= Seq::<char>::empty());
        }
        (content, out.judge(EffortEvent::Clean))
    }

    /// What a hop comes to; `read` are the files that were read in this turn. The flag
    /// says that its calls are to be put off.
    pub fn judge_hop(&mut self, content: &str, facts: &HopFacts, read: &Vec<String>) -> (r: (
        bool,
        Out,
    ))
        ensures
            (final(self)@, r.0, r.1@) == judged_hop(
                old(self)@,
                facts@,
                content@,
                texts(read@),
            ),
    {
        assert(facts@.calls.len() == facts.calls@.len());
        let quiet: bool = facts.calls.len() == 0;
        let anchor: Option<String> = match &self.last_spoken {
            Some(s) => Some(s.clone()),
            None => match &self.last_essay {
                Some(e) => Some(e.clone()),
                None => None,
            },
        };
        let off: bool = anchor.is_some() && ((quiet && facts.blockquote
            && facts.anchor_substantial) || is_dump_hop(facts, content, read));
        if off && quiet {
            let keep: String = match anchor {
                Some(s) => s,
                None => String::new(),
            };
            return (false, Out::end(keep, None).judge(EffortEvent::Clean));
        }
        if facts.substantial && !facts.blockquote {
            self.last_essay = Some(content.to_owned());
        }
        if hop_locks_spoken(facts) {
            self.last_spoken = Some(content.to_owned());
        }
        (off, Out::go())
    }

    fn gate(&mut self, decision: &Decision) -> (r: Out)
        ensures
            (final(self)@, r@) == gated(old(self)@, decision@),
    {
        match decision {
            Decision::Stop(reason) => {
                let s = reason.as_str();
                if is_physics_stop(s) {
                    if self.physics_nudged {
                        let none: String = String::new();
                        assert(none@ =~= Seq::<char>::empty());
                        self.pending_stop = Some(none);
                        Out::go().note(s)
                    } else {
                        self.physics_nudged = true;
                        Out::go().note(s).tell(PHYSICS_WRAP_NOTE)
                    }
                } else {
                    if !s.is_empty() {
                        self.pending_stop = Some(reason.clone());
                    }
                    Out::go()
                }
            },
            Decision::Continue(c) => {
                if c.as_str().is_empty() {
                    Out::go()
                } else {
                    Out::go().tell(c.as_str())
                }
            },
            Decision::Bypass => Out::go(),
        }
    }

    /// A hop with calls. The messages follow the calls.
    pub fn on_calls(
        &mut self,
        content: &str,
        decision: &Decision,
        silent_channel: bool,
        dump_note: Option<&str>,
    ) -> (r: Out)
        ensures
            (final(self)@, r@) == hop_with_calls(
                old(self)@,
                content@,
                decision@,
                silent_channel,
                match dump_note {
                    Some(n) => Some(n@),
                    None => None,
                },
            ),
    {
        let nudged: bool = self.silent_tool_nudged;
        self.silent_tool_hops = if is_blank(content) {
            one_more(self.silent_tool_hops)
        } else {
            0
        };
        let hops: u32 = self.silent_tool_hops;
        let mut out = self.gate(decision);
        if silent_channel && !nudged && hops >= SILENT_TOOL_STREAK {
            self.silent_tool_nudged = true;
            out = out.note("[channel] silent tool streak; one style observation").tell(
                SILENT_TOOL_NOTE,
            );
        }
        match dump_note {
            Some(n) => out.tell(n),
            None => out,
        }
    }

    /// A hop without calls ends the turn.
    pub fn on_answer(&self, content: &str, decision: Decision) -> (r: Out)
        ensures
            r@ == final_hop(self@, content@, decision@),
    {
        let end = match decision {
            Decision::Continue(c) => self.end_visibly(content, reason_of(c)),
            Decision::Stop(reason) => {
                if is_physics_stop(reason.as_str()) {
                    self.end_visibly(content, None).note(reason.as_str())
                } else {
                    self.end_visibly(content, reason_of(reason))
                }
            },
            Decision::Bypass => self.end_visibly(content, None),
        };
        end.judge(EffortEvent::Clean)
    }

    /// The calls are done: the model is asked again, unless the user aborted.
    pub fn after_tools(&self, cancelled: bool) -> (r: Out)
        ensures
            r@ == (if cancelled {
                ends(Seq::empty(), Some("aborted"@))
            } else {
                asking_again(go())
            }),
    {
        if cancelled {
            Out::aborted()
        } else {
            Out::go().again()
        }
    }
}

// ---------------------------------------------------------------------------
// Laws
// ---------------------------------------------------------------------------

/// An end always leaves the user with something to read.
pub proof fn law_never_without_a_word(d: DriveV, content: Seq<char>, dec: DecisionV)
    ensures
        final_hop(d, content, dec).finish is Some,
        !blank(final_hop(d, content, dec).finish->0.text),
{
    reveal_strlit("这一步停在了空回复上。请再说一次，或换个问法。");
    let f = EMPTY_STOP_FALLBACK@;
    assert(f.len() > 0 && !crate::text::white(f[0]));
    crate::text::lemma_blank(f);
    assert(!blank(f)) by {
        if blank(f) {
            assert(crate::text::white(f[0]));
        }
    }
    lemma_trimmed_not_blank(or_nothing(d.last_spoken));
    lemma_trimmed_not_blank(or_nothing(d.last_essay));
}

proof fn lemma_trimmed_not_blank(s: Seq<char>)
    ensures
        trimmed(s).len() > 0 ==> !blank(trimmed(s)),
{
    crate::text::lemma_trim_start(s);
    let a = crate::text::trim_start_of(s);
    crate::text::lemma_trim_end(a);
    let t = trimmed(s);
    if t.len() > 0 {
        crate::text::lemma_blank(t);
        assert(t[0] == a[0]);
        assert(!crate::text::white(t[0]));
    }
}

/// An abort ends the turn before the model is asked, whatever waits, and says so.
pub proof fn law_abort_ends_the_turn(d: DriveV)
    ensures
        at_top(d, true).1 == ends(Seq::empty(), Some("aborted"@)),
{
}

/// A cap never shows as the reason of a stop.
pub proof fn law_caps_end_quietly(d: DriveV, content: Seq<char>, r: Seq<char>)
    requires
        physics_stop(r),
    ensures
        final_hop(d, content, DecisionV::Stop(r)).finish->0.stop_reason is None,
        !d.physics_nudged ==> gated(d, DecisionV::Stop(r)).0.pending_stop == d.pending_stop,
        d.physics_nudged ==> at_top(
            gated(d, DecisionV::Stop(r)).0,
            false,
        ).1.finish == Some(FinishV { text: or_nothing(d.last_spoken), stop_reason: None }),
{
}

/// Each nudge is given once: what asks again by a nudge marks it, and a nudge that is
/// marked does not ask again.
pub proof fn law_nudges_come_once(d: DriveV, t: ReplyV, f: ReplyFactsV)
    ensures
        ({
            let (e, content, o) = settled_reply(d, t, f);
            &&& o.again ==> (!d.stutter_nudged && e.stutter_nudged) || (!d.channel_nudged
                && e.channel_nudged)
            &&& d.stutter_nudged ==> e.stutter_nudged
            &&& d.channel_nudged ==> e.channel_nudged
            &&& d.stutter_nudged && d.channel_nudged ==> !o.again
        }),
        d.parse_nudged && d.parse_retries + 1 >= parse_stop_after(d) && d.parse_retries
            < u32::MAX ==> unreadable(d).1.finish is Some,
        compacted(d, Some(Seq::empty())).0.physics_nudged,
        d.physics_nudged ==> compacted(d, Some(Seq::empty())).1.finish is Some,
{
}

/// Replies that cannot be read end the turn after a few tries: the retries only grow,
/// and each either asks again below the cap, is the one repair, or ends.
pub proof fn law_parse_retries_are_bounded(d: DriveV)
    requires
        d.parse_retries < u32::MAX,
    ensures
        unreadable(d).0.parse_retries == d.parse_retries + 1,
        unreadable(d).1.again && d.parse_nudged ==> unreadable(d).0.parse_retries
            < parse_stop_after(d),
        !unreadable(d).1.again ==> unreadable(d).1.finish is Some,
{
}

/// Each reply whose calls cannot be read is told to whoever judges the effort, and so is
/// each answer that ends a turn.
pub proof fn law_effort_hears_of_hops(d: DriveV, content: Seq<char>, dec: DecisionV)
    ensures
        unreadable(d).1.effort == Some(EffortEvent::ParseFail),
        final_hop(d, content, dec).effort == Some(EffortEvent::Clean),
{
}

/// What a hop without calls leaves the user with. What it says is the answer. Where it
/// says nothing, the last answer is, else the last longer text, and only where nothing
/// was said in the whole turn the user is asked to say it again.
pub proof fn law_the_last_words_are_the_answer(d: DriveV, content: Seq<char>, dec: DecisionV)
    ensures
        ({
            let end = final_hop(d, content, dec).finish;
            let spoken = match d.last_spoken {
                Some(s) => trimmed(s),
                None => Seq::empty(),
            };
            let essay = match d.last_essay {
                Some(s) => trimmed(s),
                None => Seq::empty(),
            };
            &&& end is Some
            &&& !blank(content) ==> end->0.text == content
            &&& blank(content) && spoken.len() > 0 ==> end->0.text == spoken
            &&& blank(content) && spoken.len() == 0 && essay.len() > 0 ==> end->0.text == essay
            &&& blank(content) && spoken.len() == 0 && essay.len() == 0 ==> end->0.text
                == "这一步停在了空回复上。请再说一次，或换个问法。"@
            &&& !final_hop(d, content, dec).again
            &&& final_hop(d, content, dec).hidden.len() == 0
        }),
{
    assert(trimmed(Seq::<char>::empty()) =~= Seq::<char>::empty());
}

/// Why a hop without calls ends the turn: for no reason but what the gates say, and a cap
/// on steps, time, tokens or context is only noted.
pub proof fn law_the_gates_give_the_reason(d: DriveV, content: Seq<char>, r: Seq<char>)
    ensures
        final_hop(d, content, DecisionV::Bypass).finish->0.stop_reason is None,
        final_hop(d, content, DecisionV::Bypass).notes.len() == 0,
        r.len() > 0 ==> final_hop(d, content, DecisionV::Continue(r)).finish->0.stop_reason == Some(
            r,
        ),
        ({
            let cap = has_prefix(r, "budget:context"@) || holds(r, "Max iterations"@) || holds(
                r,
                "time limit"@,
            ) || holds(r, "Token budget"@) || holds(r, "call budget"@);
            let o = final_hop(d, content, DecisionV::Stop(r));
            &&& cap ==> o.finish->0.stop_reason is None && o.notes == seq![r]
            &&& !cap && r.len() > 0 ==> o.finish->0.stop_reason == Some(r) && o.notes.len() == 0
            &&& r.len() == 0 ==> o.finish->0.stop_reason is None
        }),
{
    let o = final_hop(d, content, DecisionV::Stop(r));
    assert(Seq::<Seq<char>>::empty().push(r) =~= seq![r]);
    if r.len() == 0 {
        reveal_strlit("budget:context");
        reveal_strlit("Max iterations");
        reveal_strlit("time limit");
        reveal_strlit("Token budget");
        reveal_strlit("call budget");
    }
}

/// What a hop says is not lost: a longer text that came with calls is what the turn ends
/// with, where nothing else is said after it and no answer was given before.
pub proof fn law_what_was_said_is_not_lost(
    d: DriveV,
    f: HopFactsV,
    content: Seq<char>,
    read: Seq<Seq<char>>,
    later: DriveV,
    dec: DecisionV,
)
    requires
        f.substantial,
        !f.blockquote,
        f.calls.len() > 0,
        !blank(content),
        later.last_spoken == judged_hop(d, f, content, read).0.last_spoken,
        later.last_essay == judged_hop(d, f, content, read).0.last_essay,
    ensures
        judged_hop(d, f, content, read).0.last_essay == Some(content),
        judged_hop(d, f, content, read).2.finish is None,
        d.last_spoken is None ==> final_hop(later, Seq::empty(), dec).finish->0.text == trimmed(
            content,
        ),
{
    crate::text::lemma_blank(content);
    crate::text::lemma_blank(Seq::<char>::empty());
    assert(trimmed(Seq::<char>::empty()) =~= Seq::<char>::empty());
}

/// A hop only adds to what was said: it changes nothing but the last answer and the last
/// longer text, and those only to what it says itself.
pub proof fn law_a_hop_only_adds(d: DriveV, f: HopFactsV, content: Seq<char>, read: Seq<Seq<char>>)
    ensures
        ({
            let (e, off, o) = judged_hop(d, f, content, read);
            &&& e == DriveV { last_spoken: e.last_spoken, last_essay: e.last_essay, ..d }
            &&& e.last_spoken == d.last_spoken || e.last_spoken == Some(content)
            &&& e.last_essay == d.last_essay || e.last_essay == Some(content)
            &&& !f.substantial ==> e == d
            &&& f.blockquote ==> e.last_essay == d.last_essay
            &&& o.hidden.len() == 0 && o.notes.len() == 0 && !o.again
            &&& o.finish is Some ==> f.calls.len() == 0 && e == d && !off
        }),
{
}

/// A longer text without calls is an answer, unless it only quotes or says again what was
/// said before. With nothing said before it always is.
pub proof fn law_an_answer_is_delivered(
    d: DriveV,
    f: HopFactsV,
    content: Seq<char>,
    read: Seq<Seq<char>>,
)
    requires
        f.calls.len() == 0,
    ensures
        ({
            let (e, off, o) = judged_hop(d, f, content, read);
            let new = (d.last_spoken is None && d.last_essay is None) || !f.anchor_substantial || (
            !f.blockquote && !f.restated);
            &&& new ==> o.finish is None
            &&& new && f.substantial ==> e.last_spoken == Some(content)
            &&& new && f.substantial && !f.blockquote ==> e.last_essay == Some(content)
            &&& !new && d.last_spoken is Some ==> o.finish == Some(
                FinishV { text: d.last_spoken->0, stop_reason: None },
            )
            &&& !new && d.last_spoken is None ==> o.finish == Some(
                FinishV { text: d.last_essay->0, stop_reason: None },
            )
        }),
{
}

/// Calls that do something keep a text from being the answer; where all of them only write
/// it down again or clean up, it is.
pub proof fn law_work_keeps_the_answer_open(
    d: DriveV,
    f: HopFactsV,
    content: Seq<char>,
    read: Seq<Seq<char>>,
    i: int,
)
    requires
        0 <= i < f.calls.len(),
    ensures
        ({
            let e = judged_hop(d, f, content, read).0;
            let c = f.calls[i];
            &&& c.name != "read"@ && c.name != "view"@ && c.name != "write"@ && c.name != "bash"@
                ==> e.last_spoken == d.last_spoken
            &&& c.name == "bash"@ && !c.cleanup ==> e.last_spoken == d.last_spoken
            &&& c.name == "write"@ && !c.placeholder && !c.restates_content ==> e.last_spoken
                == d.last_spoken
            &&& (forall|j: int|
                0 <= j < f.calls.len() ==> (#[trigger] f.calls[j]).name == "read"@
                    || f.calls[j].name == "view"@) ==> e.last_spoken == d.last_spoken
            &&& f.substantial && (forall|j: int|
                0 <= j < f.calls.len() ==> ((#[trigger] f.calls[j]).name == "bash"@
                    && f.calls[j].cleanup) || (f.calls[j].name == "write"@ && (
                f.calls[j].placeholder || f.calls[j].restates_content))) ==> e.last_spoken == Some(
                content,
            )
        }),
{
    reveal_strlit("read");
    reveal_strlit("view");
    reveal_strlit("write");
    reveal_strlit("bash");
    assert("read"@[0] == 'r' && "view"@[0] == 'v' && "write"@[0] == 'w' && "bash"@[0] == 'b');
    assert(f.calls[i].name == f.calls[i].name);
    if locks_spoken(f) {
        assert(quiet_tool(f.calls[i]));
    }
    if forall|j: int|
        0 <= j < f.calls.len() ==> ((#[trigger] f.calls[j]).name == "bash"@ && f.calls[j].cleanup)
            || (f.calls[j].name == "write"@ && (f.calls[j].placeholder
            || f.calls[j].restates_content)) {
        assert forall|j: int| 0 <= j < f.calls.len() implies quiet_tool(#[trigger] f.calls[j]) by {}
        assert(f.calls[i].name != "read"@ && f.calls[i].name != "view"@);
    }
}

/// Calls are put off exactly where an answer was given before, the hop says nothing new,
/// one of its calls only writes the answer down again, writes a placeholder or cleans up,
/// and none does more than that or reads what was read already.
pub proof fn law_only_dumps_are_put_off(
    d: DriveV,
    f: HopFactsV,
    content: Seq<char>,
    read: Seq<Seq<char>>,
    i: int,
)
    requires
        0 <= i < f.calls.len(),
    ensures
        ({
            let off = judged_hop(d, f, content, read).1;
            let c = f.calls[i];
            &&& d.last_spoken is None && d.last_essay is None ==> !off
            &&& !f.anchor_substantial ==> !off
            &&& f.substantial && !f.restated ==> !off
            &&& (c.name == "read"@ || c.name == "view"@) && (c.path is None || !read.contains(
                c.path->0,
            )) ==> !off
            &&& c.name == "bash"@ && !c.cleanup ==> !off
            &&& c.name == "write"@ && !c.placeholder && !c.restates_anchor && (blank(content)
                || !c.restates_content) ==> !off
            &&& c.name != "read"@ && c.name != "view"@ && c.name != "write"@ && c.name != "bash"@
                ==> !off
            &&& (d.last_spoken is Some || d.last_essay is Some) && f.anchor_substantial && (
            !f.substantial || f.restated) && (forall|j: int|
                0 <= j < f.calls.len() ==> ((#[trigger] f.calls[j]).name == "bash"@
                    && f.calls[j].cleanup) || (f.calls[j].name == "write"@ && (
                f.calls[j].placeholder || f.calls[j].restates_anchor || (!blank(content)
                    && f.calls[j].restates_content)))) ==> off
        }),
{
    reveal_strlit("read");
    reveal_strlit("view");
    reveal_strlit("write");
    reveal_strlit("bash");
    assert("read"@[0] == 'r' && "view"@[0] == 'v' && "write"@[0] == 'w' && "bash"@[0] == 'b');
    let c = f.calls[i];
    if dump_hop(f, content, read) {
        assert(!work_tool(f.calls[i], content, read));
    }
    if forall|j: int|
        0 <= j < f.calls.len() ==> ((#[trigger] f.calls[j]).name == "bash"@ && f.calls[j].cleanup)
            || (f.calls[j].name == "write"@ && (f.calls[j].placeholder
            || f.calls[j].restates_anchor || (!blank(content) && f.calls[j].restates_content))) {
        assert(dump_tool(f.calls[i], content));
        assert forall|j: int| 0 <= j < f.calls.len() implies !work_tool(
            #[trigger] f.calls[j],
            content,
            read,
        ) by {
            assert(dump_tool(f.calls[j], content));
        }
    }
}

/// Before the model is asked, a stop that waits ends the turn with the last answer, once.
/// Without one the model is asked.
pub proof fn law_a_waiting_stop_takes_effect(d: DriveV)
    ensures
        ({
            let (e, o) = at_top(d, false);
            let text = match d.last_spoken {
                Some(s) => s,
                None => Seq::empty(),
            };
            &&& d.pending_stop is None ==> e == d && o.finish is None && o.hidden.len() == 0
                && o.notes.len() == 0 && !o.again
            &&& d.pending_stop matches Some(r) ==> {
                let cap = has_prefix(r, "budget:context"@) || holds(r, "Max iterations"@) || holds(
                    r,
                    "time limit"@,
                ) || holds(r, "Token budget"@) || holds(r, "call budget"@);
                &&& e == DriveV { pending_stop: None, ..d }
                &&& o.finish == Some(
                    FinishV {
                        text,
                        stop_reason: if cap || r.len() == 0 {
                            None
                        } else {
                            Some(r)
                        },
                    },
                )
                &&& r.len() > 0 ==> o.notes == seq![r]
            }
        }),
{
    if let Some(r) = d.pending_stop {
        assert(Seq::<Seq<char>>::empty().push(r) =~= seq![r]);
    }
}

/// A context that stays too long gets one hop to wrap up, and then ends the turn with the
/// last answer.
pub proof fn law_a_full_context_wraps_up_once(d: DriveV, r: Seq<char>)
    ensures
        compacted(d, None).0 == d,
        compacted(d, None).1.finish is None && !compacted(d, None).1.again && compacted(
            d,
            None,
        ).1.hidden.len() == 0,
        ({
            let (e, o) = compacted(d, Some(r));
            let (e2, o2) = compacted(e, Some(r));
            &&& o.notes == seq![r]
            &&& e == DriveV { physics_nudged: true, ..d }
            &&& !d.physics_nudged ==> o.finish is None && o.hidden == seq![PHYSICS_WRAP_NOTE@]
            &&& d.physics_nudged ==> o.hidden.len() == 0 && o.finish == Some(
                FinishV {
                    text: match d.last_spoken {
                        Some(s) => s,
                        None => Seq::empty(),
                    },
                    stop_reason: None,
                },
            )
            &&& o2.finish is Some
        }),
{
    assert(Seq::<Seq<char>>::empty().push(r) =~= seq![r]);
    assert(Seq::<Seq<char>>::empty().push(PHYSICS_WRAP_NOTE@) =~= seq![PHYSICS_WRAP_NOTE@]);
}

/// Every reply is counted with its tokens, and nothing else changes; one whose thought ran
/// into the cap is remarked upon.
pub proof fn law_every_reply_is_counted(d: DriveV, t: ReplyV)
    requires
        d.steps < u32::MAX,
        d.prompt_tokens + t.prompt <= u64::MAX,
        d.completion_tokens + t.completion <= u64::MAX,
    ensures
        replied(d, t).0 == (DriveV {
            steps: d.steps + 1,
            prompt_tokens: d.prompt_tokens + t.prompt,
            completion_tokens: d.completion_tokens + t.completion,
            ..d
        }),
        !t.watchdog_hit ==> replied(d, t).1.hidden.len() == 0 && replied(d, t).1.finish is None
            && !replied(d, t).1.again,
        t.watchdog_hit ==> replied(d, t).1.hidden == seq![THINK_DIVERGENCE_NOTE@] && replied(
            d,
            t,
        ).1.finish is None && !replied(d, t).1.again,
{
    assert(Seq::<Seq<char>>::empty().push(THINK_DIVERGENCE_NOTE@) =~= seq![THINK_DIVERGENCE_NOTE@]);
}

/// A retry that brings anything takes the place of the reply. Where neither brings
/// anything, the turn ends with the last answer; else it goes on. The retry is counted.
pub proof fn law_a_retry_that_helps_is_taken(d: DriveV, first: ReplyV, second: Option<ReplyV>)
    requires
        d.steps < u32::MAX,
        second matches Some(t) ==> d.prompt_tokens + t.prompt <= u64::MAX && d.completion_tokens
            + t.completion <= u64::MAX,
    ensures
        ({
            let (e, taken, o) = widened(d, false, first, second);
            &&& second is None ==> !taken && e == d
            &&& second matches Some(t) ==> {
                &&& taken <==> !t.watchdog_hit || t.content.len() > 0 || t.calls > 0
                &&& e == DriveV {
                    steps: d.steps + 1,
                    prompt_tokens: d.prompt_tokens + t.prompt,
                    completion_tokens: d.completion_tokens + t.completion,
                    ..d
                }
            }
            &&& taken ==> o.finish is None
            &&& !taken && (!first.watchdog_hit || first.content.len() > 0 || first.calls > 0)
                ==> o.finish is None
            &&& !taken && first.watchdog_hit && first.content.len() == 0 && first.calls == 0
                ==> o.finish == Some(
                FinishV {
                    text: match d.last_spoken {
                        Some(s) => s,
                        None => Seq::empty(),
                    },
                    stop_reason: None,
                },
            )
            &&& o.hidden.len() == 0 && !o.again
        }),
        widened(d, true, first, second).0 == d,
        widened(d, true, first, second).2.finish == Some(
            FinishV { text: Seq::empty(), stop_reason: Some("aborted"@) },
        ),
{
}

/// A reply that cannot be read is asked for again: twice, or once of a model that lost
/// precision, then once with a remark; after that the turn ends with the last answer.
pub proof fn law_unreadable_replies_are_asked_for_again(d: DriveV)
    requires
        d.parse_retries < u32::MAX,
    ensures
        ({
            let (e, o) = unreadable(d);
            let tries: nat = if d.low_precision {
                2
            } else {
                3
            };
            let early = d.parse_retries + 1 < tries;
            &&& e == DriveV {
                parse_retries: d.parse_retries + 1,
                parse_nudged: d.parse_nudged || !early,
                ..d
            }
            &&& o.again == (early || !d.parse_nudged)
            &&& o.notes == seq!["[parse] retry"@]
            &&& o.hidden == (if !early && !d.parse_nudged {
                seq![PARSE_REPAIR_NOTE@]
            } else {
                Seq::empty()
            })
            &&& o.finish == (if o.again {
                None
            } else {
                Some(
                    FinishV {
                        text: match d.last_spoken {
                            Some(s) => s,
                            None => Seq::empty(),
                        },
                        stop_reason: None,
                    },
                )
            })
        }),
{
    assert(Seq::<Seq<char>>::empty().push("[parse] retry"@) =~= seq!["[parse] retry"@]);
    assert(Seq::<Seq<char>>::empty().push(PARSE_REPAIR_NOTE@) =~= seq![PARSE_REPAIR_NOTE@]);
}

/// What a reply says to the user: its content, without an echo where it makes no calls; an
/// answer that it dumped instead of giving; or its thought, where that is all there is,
/// is no scratch plan and has the length of an answer.
pub proof fn law_what_a_reply_says(d: DriveV, t: ReplyV, f: ReplyFactsV)
    ensures
        ({
            let content = settled_reply(d, t, f).1;
            let thought = trimmed(t.reasoning);
            let answers = !f.scratch_thought && f.substantial_thought && thought.len() <= 800;
            &&& t.calls > 0 && f.dumped is None ==> content == t.content
            &&& t.calls > 0 && f.dumped is Some ==> content == f.dumped->0
            &&& t.calls == 0 && f.dumped is None && !blank(f.without_echo) ==> content
                == f.without_echo
            &&& t.calls == 0 && f.dumped is Some && !blank(f.dumped->0) ==> content == f.dumped->0
            &&& t.calls == 0 && f.dumped is None && blank(f.without_echo) ==> content == (
            if answers {
                thought
            } else {
                f.without_echo
            })
            &&& t.calls == 0 && f.dumped is Some && blank(f.dumped->0) ==> content == (if answers {
                thought
            } else {
                f.dumped->0
            })
        }),
{
}

/// What follows a reply: one that repeats itself is asked for again, once and only of a
/// model that lost precision. One that says nothing and does nothing, while it thought or
/// nothing was said before, is asked for again once, and then ends the turn with what was
/// said. Any other goes on, and changes nothing.
pub proof fn law_what_follows_a_reply(d: DriveV, t: ReplyV, f: ReplyFactsV)
    ensures
        ({
            let (e, content, o) = settled_reply(d, t, f);
            let spoken = match d.last_spoken {
                Some(s) => trimmed(s),
                None => Seq::empty(),
            };
            let essay = match d.last_essay {
                Some(s) => trimmed(s),
                None => Seq::empty(),
            };
            let stutters = d.low_precision && f.stutter && !d.stutter_nudged;
            let empty = t.calls == 0 && blank(content) && (!blank(t.reasoning) || (spoken.len() == 0
                && essay.len() == 0));
            &&& stutters ==> e == (DriveV { stutter_nudged: true, ..d }) && o.again && o.hidden
                == seq![f.stutter_note] && o.finish is None
            &&& !stutters && !empty ==> e == d && o.finish is None && !o.again && o.hidden.len()
                == 0 && o.notes.len() == 0 && o.effort is None
            &&& !stutters && empty && !d.channel_nudged ==> e == (DriveV {
                channel_nudged: true,
                ..d
            }) && o.again && o.hidden == seq![EMPTY_CHANNEL_NOTE@] && o.finish is None
            &&& !stutters && empty && d.channel_nudged ==> e == d && !o.again && o.finish == Some(
                FinishV {
                    text: if spoken.len() > 0 {
                        spoken
                    } else if essay.len() > 0 {
                        essay
                    } else {
                        "这一步停在了空回复上。请再说一次，或换个问法。"@
                    },
                    stop_reason: None,
                },
            )
        }),
{
    assert(trimmed(Seq::<char>::empty()) =~= Seq::<char>::empty());
    crate::text::lemma_blank(Seq::<char>::empty());
    assert(Seq::<Seq<char>>::empty().push(f.stutter_note) =~= seq![f.stutter_note]);
    assert(Seq::<Seq<char>>::empty().push(EMPTY_CHANNEL_NOTE@) =~= seq![EMPTY_CHANNEL_NOTE@]);
}

/// What the gates say of a hop with calls. A remark follows the calls. A cap gets one hop
/// to wrap up and then ends the turn after the calls, any other stop ends it after them.
/// No hop with calls ends the turn itself.
pub proof fn law_stops_wait_for_the_calls(
    d: DriveV,
    content: Seq<char>,
    r: Seq<char>,
    silent: bool,
    dump: Option<Seq<char>>,
)
    ensures
        ({
            let cap = has_prefix(r, "budget:context"@) || holds(r, "Max iterations"@) || holds(
                r,
                "time limit"@,
            ) || holds(r, "Token budget"@) || holds(r, "call budget"@);
            let (e, o) = hop_with_calls(d, content, DecisionV::Stop(r), silent, dump);
            let (c, p) = hop_with_calls(d, content, DecisionV::Continue(r), silent, dump);
            let (b, q) = hop_with_calls(d, content, DecisionV::Bypass, silent, dump);
            &&& o.finish is None && p.finish is None && q.finish is None
            &&& !o.again && !p.again && !q.again
            &&& b.pending_stop == d.pending_stop && c.pending_stop == d.pending_stop
            &&& cap && !d.physics_nudged ==> e.physics_nudged && e.pending_stop == d.pending_stop
                && o.hidden.len() > 0 && o.hidden[0] == PHYSICS_WRAP_NOTE@
            &&& cap && d.physics_nudged ==> e.pending_stop == Some(Seq::<char>::empty())
            &&& !cap && r.len() > 0 ==> e.pending_stop == Some(r)
            &&& !cap ==> e.physics_nudged == d.physics_nudged
            &&& r.len() > 0 ==> p.hidden.len() > 0 && p.hidden[0] == r
            &&& dump matches Some(n) ==> o.hidden.len() > 0 && o.hidden.last() == n
                && p.hidden.len() > 0 && p.hidden.last() == n && q.hidden.len() > 0
                && q.hidden.last() == n
            &&& dump is None && !silent ==> q.hidden.len() == 0
        }),
{
}

/// Calls without a word are counted, a word starts the count anew, and the fourth in a row
/// is remarked upon once, where the model is known for it.
pub proof fn law_silence_is_remarked_upon_once(d: DriveV, content: Seq<char>, silent: bool)
    requires
        d.silent_tool_hops < u32::MAX,
    ensures
        ({
            let (e, o) = hop_with_calls(d, content, DecisionV::Bypass, silent, None);
            let hops: nat = if blank(content) {
                d.silent_tool_hops + 1
            } else {
                0
            };
            let due = silent && !d.silent_tool_nudged && hops >= 4;
            &&& e == DriveV {
                silent_tool_hops: hops,
                silent_tool_nudged: d.silent_tool_nudged || due,
                ..d
            }
            &&& due ==> o.hidden == seq![SILENT_TOOL_NOTE@]
            &&& !due ==> o.hidden.len() == 0
        }),
{
    assert(Seq::<Seq<char>>::empty().push(SILENT_TOOL_NOTE@) =~= seq![SILENT_TOOL_NOTE@]);
}

} // verus!
