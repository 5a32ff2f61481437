//! Who may talk to the agent.

use vstd::prelude::*;
use crate::channel::config::{ChannelEndpoint, EndpointV};
use crate::channel::envelope::{NativePayload, PayloadV};
use crate::text::{list_has, same, texts, trim, trimmed};

verus! {

#[derive(Debug, Clone, Copy, PartialEq, Eq, Structural)]
pub enum DenyReason {
    DenyFrom,
    Closed,
    Allowlist,
    Mention,
}

impl DenyReason {
    pub fn as_str(self) -> (r: &'static str)
        ensures
            r@ == (match self {
                DenyReason::DenyFrom => "deny_from"@,
                DenyReason::Closed => "closed"@,
                DenyReason::Allowlist => "allowlist"@,
                DenyReason::Mention => "mention"@,
            }),
    {
        match self {
            DenyReason::DenyFrom => "deny_from",
            DenyReason::Closed => "closed",
            DenyReason::Allowlist => "allowlist",
            DenyReason::Mention => "mention",
        }
    }
}

#[derive(Debug, Clone, Copy, PartialEq, Eq, Structural)]
pub enum GateDecision {
    Allow,
    Deny(DenyReason),
}

/// A sender on the list of those who may.
pub open spec fn by_allowlist(e: EndpointV, sender: Seq<char>) -> GateDecision {
    if sender.len() > 0 && e.allow_from.contains(sender) {
        GateDecision::Allow
    } else {
        GateDecision::Deny(DenyReason::Allowlist)
    }
}

/// The list of those who may, where there is one.
pub open spec fn by_allowlist_if_set(e: EndpointV, sender: Seq<char>) -> GateDecision {
    if e.allow_from.len() == 0 {
        GateDecision::Allow
    } else {
        by_allowlist(e, sender)
    }
}

/// Whether a payload may pass an endpoint's gate.
pub open spec fn gate(e: EndpointV, p: PayloadV) -> GateDecision {
    let sender = trimmed(p.sender_id);
    let policy = if p.group() {
        e.group_policy
    } else {
        e.dm_policy
    };
    if sender.len() > 0 && e.deny_from.contains(sender) {
        GateDecision::Deny(DenyReason::DenyFrom)
    } else if policy == "closed"@ || policy == "disabled"@ {
        GateDecision::Deny(DenyReason::Closed)
    } else if policy == "allowlist"@ {
        by_allowlist(e, sender)
    } else if p.group() && !p.mentioned() && (policy == "mention"@ || e.require_mention) {
        GateDecision::Deny(DenyReason::Mention)
    } else {
        by_allowlist_if_set(e, sender)
    }
}

fn allowlist(ep: &ChannelEndpoint, sender: &str) -> (r: GateDecision)
    ensures
        r == by_allowlist(ep@, sender@),
{
    if !sender.is_empty() && list_has(&ep.allow_from, sender) {
        GateDecision::Allow
    } else {
        GateDecision::Deny(DenyReason::Allowlist)
    }
}

fn allowlist_if_set(ep: &ChannelEndpoint, sender: &str) -> (r: GateDecision)
    ensures
        r == by_allowlist_if_set(ep@, sender@),
{
    assert(texts(ep.allow_from@).len() == ep.allow_from@.len());
    if ep.allow_from.len() == 0 {
        GateDecision::Allow
    } else {
        allowlist(ep, sender)
    }
}

/// Whether a payload may pass an endpoint's gate.
pub fn admission(ep: &ChannelEndpoint, env: &NativePayload) -> (r: GateDecision)
    ensures
        r == gate(ep@, env@),
{
    let s = trim(env.sender_id.as_str());
    let sender = s.as_str();
    if !sender.is_empty() && list_has(&ep.deny_from, sender) {
        return GateDecision::Deny(DenyReason::DenyFrom);
    }
    let group: bool = env.is_group();
    let mentioned: bool = env.is_mentioned();
    let policy = if group {
        ep.group_policy.as_str()
    } else {
        ep.dm_policy.as_str()
    };
    if same(policy, "closed") || same(policy, "disabled") {
        return GateDecision::Deny(DenyReason::Closed);
    }
    if same(policy, "allowlist") {
        return allowlist(ep, sender);
    }
    if group && !mentioned && (same(policy, "mention") || ep.require_mention) {
        return GateDecision::Deny(DenyReason::Mention);
    }
    allowlist_if_set(ep, sender)
}

/// A sender on the list of those who may not never passes, whatever else is set.
pub proof fn law_denied_sender_never_passes(e: EndpointV, p: PayloadV)
    requires
        trimmed(p.sender_id).len() > 0,
        e.deny_from.contains(trimmed(p.sender_id)),
    ensures
        gate(e, p) == GateDecision::Deny(DenyReason::DenyFrom),
{
}

/// Where a list of those who may is set, nobody else passes.
pub proof fn law_allowlist_is_exhaustive(e: EndpointV, p: PayloadV)
    requires
        e.allow_from.len() > 0,
        gate(e, p) == GateDecision::Allow,
    ensures
        e.allow_from.contains(trimmed(p.sender_id)),
{
}

/// In a group that asks for a mention, nothing passes without one.
pub proof fn law_unmentioned_group_message_is_denied(e: EndpointV, p: PayloadV)
    requires
        p.group(),
        !p.mentioned(),
        e.require_mention || e.group_policy == "mention"@,
        e.group_policy != "allowlist"@,
    ensures
        gate(e, p) != GateDecision::Allow,
{
}

/// Who may pass: nobody who is denied; nobody through a closed door; through one with a
/// list, who is on it; from a group that wants it only who names the bot; and else
/// everybody, or who is on the list where there is one.
pub proof fn law_who_may_pass(e: EndpointV, p: PayloadV)
    ensures
        ({
            let who = trimmed(p.sender_id);
            let door = if p.group() {
                e.group_policy
            } else {
                e.dm_policy
            };
            let denied = who.len() > 0 && e.deny_from.contains(who);
            let listed = who.len() > 0 && e.allow_from.contains(who);
            let shut = door == "closed"@ || door == "disabled"@;
            let unnamed = p.group() && !p.mentioned() && (door == "mention"@ || e.require_mention);
            &&& !denied && shut ==> gate(e, p) == GateDecision::Deny(DenyReason::Closed)
            &&& !denied && door == "allowlist"@ && listed ==> gate(e, p) == GateDecision::Allow
            &&& !denied && door == "allowlist"@ && !listed ==> gate(e, p) == GateDecision::Deny(
                DenyReason::Allowlist,
            )
            &&& !denied && !shut && door != "allowlist"@ && unnamed ==> gate(e, p)
                == GateDecision::Deny(DenyReason::Mention)
            &&& !denied && !shut && door != "allowlist"@ && !unnamed && (e.allow_from.len() == 0
                || listed) ==> gate(e, p) == GateDecision::Allow
            &&& !denied && !shut && door != "allowlist"@ && !unnamed && e.allow_from.len() > 0
                && !listed ==> gate(e, p) == GateDecision::Deny(DenyReason::Allowlist)
        }),
{
    reveal_strlit("closed");
    reveal_strlit("disabled");
    reveal_strlit("allowlist");
    reveal_strlit("mention");
    assert("closed"@.len() == 6 && "disabled"@.len() == 8 && "allowlist"@.len() == 9
        && "mention"@.len() == 7);
}

} // verus!
