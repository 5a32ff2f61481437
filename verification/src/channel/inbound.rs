//! Running channels: which client serves a kind, when it is started again, and what
//! keeps two processes off one bot.

use vstd::prelude::*;
use vstd::arithmetic::power2::pow2;
use crate::channel::config::{endpoints_view, ChannelEndpoint, ChannelsConfig, EndpointV};
use crate::channel::envelope::{NativePayload, PayloadV};
use crate::fault::{Fault, FaultV};
use crate::text::{
    at, blank, contains, holds, is_blank, lower, same, text2, text3, text4, to_lower, trim, trimmed,
};

verus! {

// ---------------------------------------------------------------------------
// Starting again
// ---------------------------------------------------------------------------

pub const BACKOFF_MIN_SECS: u64 = 5;

pub const BACKOFF_MAX_SECS: u64 = 120;

/// How long to wait after so many failures in a row: five seconds, doubled with each,
/// two minutes at most.
pub open spec fn backoff(fail: nat) -> nat {
    let exp: nat = if fail <= 1 {
        0
    } else if fail > 9 {
        8
    } else {
        (fail - 1) as nat
    };
    let wait = 5 * pow2(exp);
    if wait > 120 {
        120
    } else {
        wait
    }
}

/// How long to wait after so many failures in a row.
pub fn supervise_backoff_secs(fail: u32) -> (r: u64)
    ensures
        r == backoff(fail as nat),
{
    proof {
        vstd::arithmetic::power2::lemma2_to64();
    }
    if fail <= 1 {
        BACKOFF_MIN_SECS
    } else if fail == 2 {
        10
    } else if fail == 3 {
        20
    } else if fail == 4 {
        40
    } else if fail == 5 {
        80
    } else {
        BACKOFF_MAX_SECS
    }
}

/// The wait never shrinks with another failure, and stays between its bounds.
pub proof fn law_backoff_grows_to_its_cap(a: nat, b: nat)
    requires
        a <= b,
    ensures
        5 <= backoff(a) <= backoff(b) <= 120,
{
    vstd::arithmetic::power2::lemma2_to64();
}

/// An error that another try cannot mend.
pub fn is_fatal_serve_error(err: &str) -> (r: bool)
    ensures
        r == holds(err@, "no in-process client"@),
{
    contains(err, "no in-process client")
}

/// What a client's watcher is told.
#[derive(Debug, PartialEq, Eq)]
pub enum ClientWatch {
    Running,
    Retry { detail: String, wait_secs: u64 },
    Fatal { detail: String },
}

pub ghost enum WatchV {
    Running,
    Retry { detail: Seq<char>, wait_secs: nat },
    Fatal { detail: Seq<char> },
}

impl View for ClientWatch {
    type V = WatchV;

    open spec fn view(&self) -> WatchV {
        match self {
            ClientWatch::Running => WatchV::Running,
            ClientWatch::Retry { detail, wait_secs } => WatchV::Retry {
                detail: detail@,
                wait_secs: *wait_secs as nat,
            },
            ClientWatch::Fatal { detail } => WatchV::Fatal { detail: detail@ },
        }
    }
}

/// What happened to a client.
#[derive(Debug, PartialEq, Eq)]
pub enum ClientEvent {
    /// It has the bot to itself.
    Locked,
    /// Another process has the bot.
    LockFailed(String),
    /// It returned without an error.
    Exited,
    /// It failed.
    Failed(String),
}

pub ghost enum EventV {
    Locked,
    LockFailed(Seq<char>),
    Exited,
    Failed(Seq<char>),
}

impl View for ClientEvent {
    type V = EventV;

    open spec fn view(&self) -> EventV {
        match self {
            ClientEvent::Locked => EventV::Locked,
            ClientEvent::LockFailed(s) => EventV::LockFailed(s@),
            ClientEvent::Exited => EventV::Exited,
            ClientEvent::Failed(s) => EventV::Failed(s@),
        }
    }
}

/// One failure more.
pub open spec fn failed_again(fail: nat) -> nat {
    if fail >= u32::MAX {
        fail
    } else {
        fail + 1
    }
}

/// The failures in a row after an event, and what to do: run, wait and try again,
/// or give up.
pub open spec fn watched(fail: nat, e: EventV) -> (nat, WatchV) {
    let next = failed_again(fail);
    match e {
        EventV::Locked => (fail, WatchV::Running),
        EventV::LockFailed(s) => (next, WatchV::Retry { detail: s, wait_secs: backoff(next) }),
        EventV::Exited => (
            next,
            WatchV::Retry { detail: "client exited"@, wait_secs: backoff(next) },
        ),
        EventV::Failed(s) => if holds(s, "no in-process client"@) {
            (fail, WatchV::Fatal { detail: s })
        } else {
            (next, WatchV::Retry { detail: s, wait_secs: backoff(next) })
        },
    }
}

/// Keeps a client running.
#[derive(Debug, Clone, Copy, PartialEq, Eq)]
pub struct Supervisor {
    pub fail: u32,
}

impl Supervisor {
    pub fn new() -> (r: Supervisor)
        ensures
            r.fail == 0,
    {
        Supervisor { fail: 0 }
    }

    fn retry(&mut self, detail: String) -> (r: ClientWatch)
        ensures
            final(self).fail == failed_again(old(self).fail as nat),
            r@ == (WatchV::Retry {
                detail: detail@,
                wait_secs: backoff(failed_again(old(self).fail as nat)),
            }),
    {
        if self.fail < u32::MAX {
            self.fail = self.fail + 1;
        }
        ClientWatch::Retry { detail, wait_secs: supervise_backoff_secs(self.fail) }
    }

    /// What to do after an event.
    pub fn keep_client_watched(&mut self, event: ClientEvent) -> (r: ClientWatch)
        ensures
            (final(self).fail as nat, r@) == watched(old(self).fail as nat, event@),
    {
        match event {
            ClientEvent::Locked => ClientWatch::Running,
            ClientEvent::LockFailed(s) => self.retry(s),
            ClientEvent::Exited => self.retry("client exited".to_owned()),
            ClientEvent::Failed(s) => {
                if is_fatal_serve_error(s.as_str()) {
                    ClientWatch::Fatal { detail: s }
                } else {
                    self.retry(s)
                }
            },
        }
    }
}

// ---------------------------------------------------------------------------
// Clients
// ---------------------------------------------------------------------------

/// A client that can run in this process.
#[derive(Debug, Clone, Copy, PartialEq, Eq, Structural)]
pub enum ClientKind {
    Telegram,
    Webhook,
    Qq,
    Wechat,
    Wecom,
    Dingtalk,
    Feishu,
}

/// The client that serves a kind of channel.
pub open spec fn client_for(kind: Seq<char>) -> Option<ClientKind> {
    let k = lower(kind);
    if k == "telegram"@ {
        Some(ClientKind::Telegram)
    } else if k == "webhook"@ || k == "http"@ || k == "console"@ {
        Some(ClientKind::Webhook)
    } else if k == "qq"@ {
        Some(ClientKind::Qq)
    } else if k == "wechat"@ {
        Some(ClientKind::Wechat)
    } else if k == "wecom"@ {
        Some(ClientKind::Wecom)
    } else if k == "dingtalk"@ {
        Some(ClientKind::Dingtalk)
    } else if k == "feishu"@ {
        Some(ClientKind::Feishu)
    } else {
        None
    }
}

/// What is said of a kind that no client serves.
pub open spec fn no_client(kind: Seq<char>) -> Seq<char> {
    "q38 channel "@ + lower(kind) + ": no in-process client"@
}

/// The client that serves an endpoint.
pub fn serve_endpoint(ep: &ChannelEndpoint) -> (r: Result<ClientKind, Fault>)
    ensures
        r is Ok <==> client_for(ep@.kind) is Some,
        r matches Ok(c) ==> client_for(ep@.kind) == Some(c),
        r matches Err(e) ==> e@ == FaultV::Msg(no_client(ep@.kind)),
{
    let lo = to_lower(ep.kind.as_str());
    let k = lo.as_str();
    if same(k, "telegram") {
        Ok(ClientKind::Telegram)
    } else if same(k, "webhook") || same(k, "http") || same(k, "console") {
        Ok(ClientKind::Webhook)
    } else if same(k, "qq") {
        Ok(ClientKind::Qq)
    } else if same(k, "wechat") {
        Ok(ClientKind::Wechat)
    } else if same(k, "wecom") {
        Ok(ClientKind::Wecom)
    } else if same(k, "dingtalk") {
        Ok(ClientKind::Dingtalk)
    } else if same(k, "feishu") {
        Ok(ClientKind::Feishu)
    } else {
        Err(Fault::Msg(text3("q38 channel ", k, ": no in-process client")))
    }
}

/// A kind that no client serves is not tried again.
pub proof fn law_unknown_kind_is_fatal(kind: Seq<char>, fail: nat)
    ensures
        watched(fail, EventV::Failed(no_client(kind))).1 == (WatchV::Fatal {
            detail: no_client(kind),
        }),
{
    let s = no_client(kind);
    let tail = ": no in-process client"@;
    let pat = "no in-process client"@;
    reveal_strlit(": no in-process client");
    reveal_strlit("no in-process client");
    let i = s.len() - pat.len();
    assert(tail.skip(2) =~= pat);
    assert(s.subrange(i, i + pat.len()) =~= pat) by {
        assert forall|j: int| 0 <= j < pat.len() implies s[i + j] == pat[j] by {
            assert(s[i + j] == tail[2 + j]);
            assert(tail.skip(2)[j] == tail[2 + j]);
        }
    }
    assert(at(s, pat, i));
}

/// The session that a message is run in.
pub open spec fn inbound_session_of(p: PayloadV) -> Seq<char> {
    if p.session_id.len() > 0 {
        p.session_id
    } else if p.channel.len() > 0 {
        p.channel
    } else {
        "channel"@
    }
}

/// The session that a message is run in: its own, else one named after its channel.
pub fn inbound_session(env: &NativePayload) -> (r: String)
    ensures
        r@ == inbound_session_of(env@),
{
    if !env.session_id.as_str().is_empty() {
        env.session_id.clone()
    } else if !env.channel.as_str().is_empty() {
        env.channel.clone()
    } else {
        "channel".to_owned()
    }
}

/// The channel that a message is run as.
pub fn inbound_channel(env: &NativePayload) -> (r: String)
    ensures
        r@ == (if blank(env@.channel) {
            "im"@
        } else {
            env@.channel
        }),
{
    if is_blank(env.channel.as_str()) {
        "im".to_owned()
    } else {
        env.channel.clone()
    }
}

// ---------------------------------------------------------------------------
// Running all of them
// ---------------------------------------------------------------------------

/// A client to start.
#[derive(Debug, PartialEq, Eq)]
pub struct Start {
    pub client: ClientKind,
    pub label: String,
    pub endpoint: ChannelEndpoint,
}

pub ghost struct StartV {
    pub client: ClientKind,
    pub label: Seq<char>,
    pub endpoint: EndpointV,
}

impl View for Start {
    type V = StartV;

    open spec fn view(&self) -> StartV {
        StartV { client: self.client, label: self.label@, endpoint: self.endpoint@ }
    }
}

pub open spec fn starts_view(v: Seq<Start>) -> Seq<StartV> {
    v.map_values(|s: Start| s@)
}

/// The clients of the enabled endpoints.
pub open spec fn starts_of(list: Seq<EndpointV>) -> Seq<StartV>
    decreases list.len(),
{
    if list.len() == 0 {
        Seq::empty()
    } else {
        let before = starts_of(list.drop_last());
        let e = list.last();
        match client_for(e.kind) {
            Some(c) => if e.enabled {
                before.push(StartV { client: c, label: lower(e.kind), endpoint: e })
            } else {
                before
            },
            None => before,
        }
    }
}

pub open spec fn any_enabled(list: Seq<EndpointV>) -> bool {
    exists|i: int| 0 <= i < list.len() && (#[trigger] list[i]).enabled
}

/// The clients to start. Without an enabled endpoint, or without one that a client
/// serves, there is nothing to run.
pub fn run(cfg: &ChannelsConfig) -> (r: Result<Vec<Start>, Fault>)
    ensures
        r is Ok <==> starts_of(endpoints_view(cfg.endpoints@)).len() > 0,
        r matches Ok(v) ==> starts_view(v@) == starts_of(endpoints_view(cfg.endpoints@)),
        r matches Err(e) ==> e@ == (if any_enabled(endpoints_view(cfg.endpoints@)) {
            FaultV::Msg("no runnable channel (enable telegram, webhook, or qq)"@)
        } else {
            FaultV::Msg(
                "no enabled [[channels.endpoints]] — add telegram, webhook, or qq in ~/.q38-agent/config.toml"@,
            )
        }),
{
    let ghost es = endpoints_view(cfg.endpoints@);
    let mut out: Vec<Start> = Vec::new();
    let mut enabled: bool = false;
    let mut i: usize = 0;
    assert(starts_view(out@) =~= Seq::empty());
    while i < cfg.endpoints.len()
        invariant
            i <= cfg.endpoints@.len(),
            es == endpoints_view(cfg.endpoints@),
            starts_view(out@) == starts_of(es.take(i as int)),
            enabled == exists|j: int| 0 <= j < i && (#[trigger] es[j]).enabled,
            out@.len() > 0 ==> enabled,
        decreases cfg.endpoints.len() - i,
    {
        let e = &cfg.endpoints[i];
        assert(es.take(i + 1).drop_last() =~= es.take(i as int));
        assert(es.take(i + 1).last() == e@);
        assert(es[i as int] == e@);
        if e.enabled {
            enabled = true;
            if let Ok(client) = serve_endpoint(e) {
                let s = Start {
                    client,
                    label: to_lower(e.kind.as_str()),
                    endpoint: e.copy(),
                };
                let ghost before = out@;
                out.push(s);
                assert(starts_view(out@) =~= starts_view(before).push(s@));
            }
        }
        i = i + 1;
    }
    assert(es.take(i as int) =~= es);
    assert(starts_view(out@).len() == out@.len());
    if !enabled {
        return Err(
            Fault::msg(
                "no enabled [[channels.endpoints]] — add telegram, webhook, or qq in ~/.q38-agent/config.toml",
            ),
        );
    }
    if out.len() == 0 {
        return Err(Fault::msg("no runnable channel (enable telegram, webhook, or qq)"));
    }
    Ok(out)
}

// ---------------------------------------------------------------------------
// One process for each bot
// ---------------------------------------------------------------------------

/// A kind that breaks where two processes share one bot.
pub open spec fn exclusive(kind: Seq<char>) -> bool {
    let k = lower(kind);
    k == "telegram"@ || k == "wechat"@ || k == "qq"@ || k == "wecom"@ || k == "dingtalk"@ || k
        == "feishu"@
}

/// Whether a kind breaks where two processes share one bot.
pub fn needs_exclusive(kind: &str) -> (r: bool)
    ensures
        r == exclusive(kind@),
{
    let lo = to_lower(kind);
    let k = lo.as_str();
    same(k, "telegram") || same(k, "wechat") || same(k, "qq") || same(k, "wecom") || same(
        k,
        "dingtalk",
    ) || same(k, "feishu")
}

/// The file that a bot is locked by, where its kind needs a lock.
pub fn lock_file_name(kind: &str, id: &str) -> (r: Option<String>)
    ensures
        r is Some <==> exclusive(kind@),
        r matches Some(s) ==> s@ == id@ + ".poll.lock"@,
{
    if needs_exclusive(kind) {
        Some(text2(id, ".poll.lock"))
    } else {
        None
    }
}

/// What is said where another process has the bot; `holder` is what its lock file
/// holds.
pub open spec fn lock_conflict(kind: Seq<char>, id: Seq<char>, holder: Seq<char>) -> Seq<char> {
    let who = if trimmed(holder).len() == 0 {
        Seq::empty()
    } else {
        " (pid "@ + trimmed(holder) + ")"@
    };
    "another q38 process is already polling "@ + kind + " `"@ + id + "`"@ + who
        + "; stop `q38 web` or `q38 --channels` so they do not share a cursor"@
}

/// What is said where another process has the bot.
pub fn lock_conflict_message(kind: &str, id: &str, holder: &str) -> (r: String)
    ensures
        r@ == lock_conflict(kind@, id@, holder@),
{
    let h = trim(holder);
    let who: String = if h.as_str().is_empty() {
        String::new()
    } else {
        text3(" (pid ", h.as_str(), ")")
    };
    assert(who@ =~= (if trimmed(holder@).len() == 0 {
        Seq::empty()
    } else {
        " (pid "@ + trimmed(holder@) + ")"@
    }));
    let mut out = text4("another q38 process is already polling ", kind, " `", id);
    out.append("`");
    out.append(who.as_str());
    out.append("; stop `q38 web` or `q38 --channels` so they do not share a cursor");
    out
}

/// How long is waited: five seconds after the first failure, ten after the second, and so
/// on, two minutes from the sixth on.
pub proof fn law_the_wait_doubles(n: nat)
    ensures
        backoff(0) == 5,
        backoff(1) == 5,
        backoff(2) == 10,
        backoff(3) == 20,
        backoff(4) == 40,
        backoff(5) == 80,
        n >= 6 ==> backoff(n) == 120,
{
    lemma_small_powers();
    if n >= 6 {
        law_backoff_grows_to_its_cap(6, n);
    }
}

proof fn lemma_small_powers()
    ensures
        pow2(0) == 1 && pow2(1) == 2 && pow2(2) == 4 && pow2(3) == 8 && pow2(4) == 16 && pow2(5)
            == 32,
{
    vstd::arithmetic::power2::lemma2_to64();
}

/// What follows for a client: a lock lets it run; what fails is tried again after the wait
/// for one failure more; a kind that no client serves is given up.
pub proof fn law_what_follows_for_a_client(fail: nat, s: Seq<char>)
    requires
        fail < u32::MAX,
    ensures
        watched(fail, EventV::Locked) == (fail, WatchV::Running),
        watched(fail, EventV::LockFailed(s)) == (
            fail + 1,
            WatchV::Retry { detail: s, wait_secs: backoff(fail + 1) },
        ),
        watched(fail, EventV::Exited) == (
            fail + 1,
            WatchV::Retry { detail: "client exited"@, wait_secs: backoff(fail + 1) },
        ),
        !holds(s, "no in-process client"@) ==> watched(fail, EventV::Failed(s)) == (
            fail + 1,
            WatchV::Retry { detail: s, wait_secs: backoff(fail + 1) },
        ),
        holds(s, "no in-process client"@) ==> watched(fail, EventV::Failed(s)) == (
            fail,
            WatchV::Fatal { detail: s },
        ),
{
}

/// Each kind of channel has its client, by its name in letters of any case.
pub proof fn law_each_kind_has_its_client(kind: Seq<char>)
    ensures
        ({
            let k = lower(kind);
            &&& k == "telegram"@ <==> client_for(kind) == Some(ClientKind::Telegram)
            &&& k == "webhook"@ || k == "http"@ || k == "console"@ <==> client_for(kind) == Some(
                ClientKind::Webhook,
            )
            &&& k == "qq"@ <==> client_for(kind) == Some(ClientKind::Qq)
            &&& k == "wechat"@ <==> client_for(kind) == Some(ClientKind::Wechat)
            &&& k == "wecom"@ <==> client_for(kind) == Some(ClientKind::Wecom)
            &&& k == "dingtalk"@ <==> client_for(kind) == Some(ClientKind::Dingtalk)
            &&& k == "feishu"@ <==> client_for(kind) == Some(ClientKind::Feishu)
            &&& exclusive(kind) <==> client_for(kind) is Some && client_for(kind) != Some(
                ClientKind::Webhook,
            )
        }),
{
    reveal_strlit("telegram");
    reveal_strlit("webhook");
    reveal_strlit("http");
    reveal_strlit("console");
    reveal_strlit("qq");
    reveal_strlit("wechat");
    reveal_strlit("wecom");
    reveal_strlit("dingtalk");
    reveal_strlit("feishu");
    assert("telegram"@.len() == 8 && "webhook"@.len() == 7 && "http"@.len() == 4 && "console"@.len()
        == 7 && "qq"@.len() == 2 && "wechat"@.len() == 6 && "wecom"@.len() == 5
        && "dingtalk"@.len() == 8 && "feishu"@.len() == 6);
    assert("telegram"@[0] == 't' && "dingtalk"@[0] == 'd' && "webhook"@[0] == 'w' && "console"@[0]
        == 'c' && "wechat"@[0] == 'w' && "feishu"@[0] == 'f');
}

/// Every enabled endpoint that has a client is started, in their order, and no other.
pub proof fn law_enabled_endpoints_are_started(list: Seq<EndpointV>, e: EndpointV)
    ensures
        starts_of(Seq::empty()).len() == 0,
        e.enabled && client_for(e.kind) is Some ==> starts_of(list.push(e)) == starts_of(list).push(
            StartV { client: client_for(e.kind)->0, label: lower(e.kind), endpoint: e },
        ),
        !e.enabled || client_for(e.kind) is None ==> starts_of(list.push(e)) == starts_of(list),
{
    assert(list.push(e).drop_last() =~= list);
}

/// A message is run in its own session, else in that of its channel.
pub proof fn law_where_a_message_is_run(p: PayloadV)
    ensures
        p.session_id.len() > 0 ==> inbound_session_of(p) == p.session_id,
        p.session_id.len() == 0 && p.channel.len() > 0 ==> inbound_session_of(p) == p.channel,
        p.session_id.len() == 0 && p.channel.len() == 0 ==> inbound_session_of(p) == "channel"@,
{
}

/// There is something to run where any endpoint is enabled.
pub proof fn law_when_there_is_something_to_run(list: Seq<EndpointV>, i: int)
    ensures
        0 <= i < list.len() && list[i].enabled ==> any_enabled(list),
        (forall|j: int| 0 <= j < list.len() ==> !(#[trigger] list[j]).enabled) ==> !any_enabled(
            list,
        ),
{
}

/// What is said where another process has the bot names the kind, the endpoint and, where it
/// is known, the process.
pub proof fn law_what_is_said_of_a_conflict(kind: Seq<char>, id: Seq<char>, who: Seq<char>)
    ensures
        ("another q38 process is already polling "@ + kind + " `"@ + id + "`"@).is_prefix_of(
            lock_conflict(kind, id, who),
        ),
        trimmed(who).len() > 0 ==> holds(lock_conflict(kind, id, who), trimmed(who)),
{
    let h = "another q38 process is already polling "@ + kind + " `"@ + id + "`"@;
    let s = lock_conflict(kind, id, who);
    assert(s.take(h.len() as int) =~= h);
    if trimmed(who).len() > 0 {
        let w = trimmed(who);
        let k = (h.len() + " (pid "@.len()) as int;
        assert(s.subrange(k, k + w.len()) =~= w);
        assert(crate::text::at(s, w, k));
    }
}

} // verus!
