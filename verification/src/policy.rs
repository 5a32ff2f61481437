//! How much a model may think, and what follows when it runs out of room or the
//! endpoint drops the line.

use vstd::prelude::*;
use crate::asks::{forbids_tools, tools_forbidden};
use crate::channel::mailbox::{take_steer, SteerSlot};
use crate::json::opt_text;
use crate::text::same;

verus! {

/// The thought that a turn without tools is given.
pub const NO_TOOL_THINK_FLOOR: u32 = 8192;

/// The room past the thought that is kept for the answer.
pub const NO_TOOL_ANSWER_RESERVE: u32 = 4096;

/// How hard a model is asked to think.
#[derive(Debug, Clone, Copy, PartialEq, Eq, Structural)]
pub enum Effort {
    Low,
    Medium,
    Xhigh,
}

/// What the effort is judged by.
#[derive(Debug, Clone, Copy, PartialEq, Eq, Structural)]
pub enum EffortEvent {
    /// A step went without trouble.
    Clean,
    /// A call was cut off from outside.
    HarnessFail,
    /// The calls of a reply could not be read.
    ParseFail,
    /// The same edits go back and forth.
    Thrash,
    TestFail,
    TestsGreen,
}

/// How much a model may think and write.
#[derive(Debug, Clone, Copy, PartialEq, Eq, Structural)]
pub struct ThinkPolicy {
    pub enabled: bool,
    /// How hard it is asked to think, where it is asked.
    pub effort: Option<Effort>,
    pub max_think_tokens: u32,
    pub max_tokens: u32,
}

pub open spec fn at_least(a: u32, b: u32) -> u32 {
    if a >= b {
        a
    } else {
        b
    }
}

fn at_least_of(a: u32, b: u32) -> (r: u32)
    ensures
        r == at_least(a, b),
{
    if a >= b {
        a
    } else {
        b
    }
}

/// The policy for a turn that may not call tools: all of it goes into one answer, so
/// the cap on thinking is raised for that one completion. Nothing changes where the
/// user has fixed the policy, where thinking is off, or where there is room enough.
pub fn widen_no_tool_think(user_locked: bool, policy: Option<ThinkPolicy>, user: &str) -> (r: Option<
    ThinkPolicy,
>)
    ensures
        r is Some <==> !user_locked && policy is Some && policy->0.enabled
            && policy->0.max_think_tokens < 8192 && tools_forbidden(user@),
        r matches Some(p) ==> p == (ThinkPolicy {
            enabled: true,
            effort: policy->0.effort,
            max_think_tokens: 8192,
            max_tokens: at_least(policy->0.max_tokens, 12288),
        }),
{
    if user_locked {
        return None;
    }
    match policy {
        None => None,
        Some(prev) => {
            if !prev.enabled || prev.max_think_tokens >= NO_TOOL_THINK_FLOOR {
                return None;
            }
            if !forbids_tools(user) {
                return None;
            }
            Some(
                ThinkPolicy {
                    enabled: prev.enabled,
                    effort: prev.effort,
                    max_think_tokens: NO_TOOL_THINK_FLOOR,
                    max_tokens: at_least_of(
                        prev.max_tokens,
                        NO_TOOL_THINK_FLOOR + NO_TOOL_ANSWER_RESERVE,
                    ),
                },
            )
        },
    }
}

/// What follows when a thought ran into its cap.
#[derive(Debug, Clone, Copy, PartialEq, Eq, Structural)]
pub enum RunawayRetry {
    /// Thinking is off: there is nothing to widen.
    No,
    /// Once more, with nothing changed.
    Again,
    /// Once more, with this policy in place for that one completion.
    With(ThinkPolicy),
}

/// What follows when a thought ran into its cap: one more try, with more room where
/// the room can be set. Thinking is never turned off.
pub fn retry_with_runaway_room(policy: Option<ThinkPolicy>) -> (r: RunawayRetry)
    requires
        policy is Some && policy->0.enabled ==> policy->0.max_think_tokens <= u32::MAX - 4096,
    ensures
        r is Again <==> policy is None,
        r is No <==> policy is Some && !policy->0.enabled,
        r matches RunawayRetry::With(p) ==> p.enabled && p.effort == policy->0.effort
            && p.max_think_tokens == at_least(
            policy->0.max_think_tokens,
            8192,
        ) && p.max_tokens == at_least(
            policy->0.max_tokens,
            (at_least(policy->0.max_think_tokens, 8192) + 4096) as u32,
        ),
{
    match policy {
        None => RunawayRetry::Again,
        Some(prev) => {
            if !prev.enabled {
                return RunawayRetry::No;
            }
            let think: u32 = at_least_of(prev.max_think_tokens, NO_TOOL_THINK_FLOOR);
            RunawayRetry::With(
                ThinkPolicy {
                    enabled: prev.enabled,
                    effort: prev.effort,
                    max_think_tokens: think,
                    max_tokens: at_least_of(prev.max_tokens, think + NO_TOOL_ANSWER_RESERVE),
                },
            )
        },
    }
}

/// Whether a retry gave something to go on with.
pub fn retry_is_usable(watchdog_hit: bool, parse_fail: bool) -> (r: bool)
    ensures
        r == (!watchdog_hit && !parse_fail),
{
    !watchdog_hit && !parse_fail
}

/// The policy that a session starts with: the one that its log holds, unless the user
/// has fixed another.
pub fn start_policy(locked: bool, own: ThinkPolicy, logged: Option<ThinkPolicy>) -> (r: ThinkPolicy)
    ensures
        r == (if !locked && logged is Some {
            logged->0
        } else {
            own
        }),
{
    if locked {
        return own;
    }
    match logged {
        Some(p) => p,
        None => own,
    }
}

/// The policy to put in place and to log, where it differs from the last one.
pub fn sync_effort(last: ThinkPolicy, now: ThinkPolicy) -> (r: Option<ThinkPolicy>)
    ensures
        r == (if last == now {
            None
        } else {
            Some(now)
        }),
{
    if last == now {
        None
    } else {
        Some(now)
    }
}

/// How a completion went.
#[derive(Debug, Clone, Copy, PartialEq, Eq, Structural)]
pub enum HopEvent {
    Cancelled,
    Done,
    /// The endpoint failed; whether it may come back, and whether the time for
    /// retries is over.
    Failed { transient: bool, out_of_time: bool },
}

/// What follows a completion.
#[derive(Debug, Clone, Copy, PartialEq, Eq, Structural)]
pub enum HopStep {
    Abort,
    Take,
    GiveUp,
    /// Wait as long as the attempt of this number asks, then complete again.
    Retry(u32),
}

/// What follows a completion: a transient failure is tried again until the time for
/// it is over; the tools that ran stay run. `attempts` failures went before.
pub fn complete_resilient(attempts: u32, event: HopEvent) -> (r: HopStep)
    requires
        attempts < u32::MAX,
    ensures
        r == (match event {
            HopEvent::Cancelled => HopStep::Abort,
            HopEvent::Done => HopStep::Take,
            HopEvent::Failed { transient, out_of_time } => if transient && !out_of_time {
                HopStep::Retry((attempts + 1) as u32)
            } else {
                HopStep::GiveUp
            },
        }),
{
    match event {
        HopEvent::Cancelled => HopStep::Abort,
        HopEvent::Done => HopStep::Take,
        HopEvent::Failed { transient, out_of_time } => {
            if transient && !out_of_time {
                HopStep::Retry(attempts + 1)
            } else {
                HopStep::GiveUp
            }
        },
    }
}

/// Where an event of a session goes: to those who watch it, and to its log.
pub fn log_event(ephemeral: bool, user_event: bool) -> (r: (bool, bool))
    ensures
        r.0 == (ephemeral || !user_event),
        r.1 == !ephemeral,
{
    if ephemeral {
        return (true, false);
    }
    (!user_event, true)
}

/// What a turn came to.
#[derive(Debug, PartialEq, Eq)]
pub struct AgentOutcome {
    pub text: String,
    pub stop_reason: Option<String>,
    pub steps: u32,
    pub session_id: String,
    /// The user's remarks that came too late for the turn.
    pub pending_steer: Vec<String>,
    /// The terminal shows the answer already.
    pub streamed_text: bool,
}

/// How a turn ends.
#[derive(Debug, PartialEq, Eq)]
pub struct TurnEnd {
    pub outcome: AgentOutcome,
    /// The word under which the end is logged.
    pub logged: String,
    /// Calls in the background are stopped too.
    pub cancel_background: bool,
    /// What the end says of the effort.
    pub effort: EffortEvent,
}

/// How a turn ends: the remarks that still wait are handed on, and a turn that was
/// stopped stops what runs in the background.
pub fn finish(
    text: String,
    stop_reason: Option<String>,
    steps: u32,
    session_id: &str,
    steer: &mut SteerSlot,
    streamed_text: bool,
) -> (r: TurnEnd)
    ensures
        r.outcome.text@ == text@,
        opt_text(r.outcome.stop_reason) == opt_text(stop_reason),
        r.outcome.steps == steps,
        r.outcome.session_id@ == session_id@,
        r.outcome.pending_steer@ == old(steer).notes@,
        final(steer).notes@.len() == 0,
        r.outcome.streamed_text == streamed_text,
        r.logged@ == (match opt_text(stop_reason) {
            Some(s) => s,
            None => "stop"@,
        }),
        r.cancel_background == (opt_text(stop_reason) == Some("aborted"@)),
        r.effort == EffortEvent::Clean,
{
    let logged: String = match &stop_reason {
        Some(s) => s.clone(),
        None => "stop".to_owned(),
    };
    let cancel_background: bool = match &stop_reason {
        Some(s) => same(s.as_str(), "aborted"),
        None => false,
    };
    let pending_steer = take_steer(steer);
    let outcome = AgentOutcome {
        text,
        stop_reason,
        steps,
        session_id: session_id.to_owned(),
        pending_steer,
        streamed_text,
    };
    TurnEnd { outcome, logged, cancel_background, effort: EffortEvent::Clean }
}

// ---------------------------------------------------------------------------
// Laws
// ---------------------------------------------------------------------------

/// A raised policy never takes room away, keeps thinking on, and leaves the answer its
/// reserve.
pub proof fn law_raised_policy_leaves_room(p: ThinkPolicy)
    requires
        p.max_think_tokens <= u32::MAX - 4096,
    ensures
        ({
            let think = at_least(p.max_think_tokens, 8192);
            let total = at_least(p.max_tokens, (think + 4096) as u32);
            think >= p.max_think_tokens && total >= p.max_tokens && total >= think + 4096
        }),
{
}

} // verus!
