//! What the command line decides: which session, which tools, what is printed.

use vstd::prelude::*;
use crate::channel::envelope::{parts_view, ContentPart, PartV};
use crate::channel::outbound::reply_text;
use crate::json::{fields_of, opt_text, Json, JsonV};
use crate::message::at_most;
use crate::outside::{json_text, print_json, settled_json};
use crate::policy::ThinkPolicy;
use crate::setup::{RunOpts, SessionMode, ToolSet};
use crate::text::{blank, is_blank, join, joined, same, text2, texts};

verus! {

/// Whether the effort is fixed by the command line or by the mode.
pub open spec fn locks(fast: bool, think_given: bool, mode: SessionMode) -> bool {
    fast || think_given || mode == SessionMode::Think || mode == SessionMode::Chat
}

/// Whether the effort is fixed by the command line or by the mode.
pub fn effort_locked(fast: bool, think_given: bool, mode: SessionMode) -> (r: bool)
    ensures
        r == locks(fast, think_given, mode),
{
    fast || think_given || mode == SessionMode::Think || mode == SessionMode::Chat
}

// ---------------------------------------------------------------------------
// Which session
// ---------------------------------------------------------------------------

/// What the command line says of the session.
#[derive(Debug, PartialEq, Eq)]
pub struct SessionArgs {
    pub new: bool,
    pub session: Option<String>,
    pub resume: Option<String>,
    pub continue_session: bool,
}

/// How the session is found.
#[derive(Debug, PartialEq, Eq)]
pub enum SessionPick {
    /// A new one.
    Fresh,
    Given(String),
    /// The one that this query finds.
    Find(String),
    /// The most recent one.
    Latest,
}

pub ghost enum PickV {
    Fresh,
    Given(Seq<char>),
    Find(Seq<char>),
    Latest,
}

impl View for SessionPick {
    type V = PickV;

    open spec fn view(&self) -> PickV {
        match self {
            SessionPick::Fresh => PickV::Fresh,
            SessionPick::Given(s) => PickV::Given(s@),
            SessionPick::Find(s) => PickV::Find(s@),
            SessionPick::Latest => PickV::Latest,
        }
    }
}

pub open spec fn not_empty(s: Option<Seq<char>>) -> Option<Seq<char>> {
    match s {
        Some(x) => if x.len() > 0 {
            Some(x)
        } else {
            None
        },
        None => None,
    }
}

/// How the session is found: what is asked for first wins.
pub open spec fn picked(a: SessionArgs) -> PickV {
    if a.new {
        PickV::Fresh
    } else {
        match not_empty(opt_text(a.session)) {
            Some(id) => PickV::Given(id),
            None => match opt_text(a.resume) {
                Some(q) => PickV::Find(q),
                None => if a.continue_session {
                    PickV::Latest
                } else {
                    PickV::Fresh
                },
            },
        }
    }
}

/// How the session is found.
pub fn resolve_session_id(a: &SessionArgs) -> (r: SessionPick)
    ensures
        r@ == picked(*a),
{
    if a.new {
        return SessionPick::Fresh;
    }
    if let Some(id) = &a.session {
        if id.as_str().unicode_len() > 0 {
            return SessionPick::Given(id.clone());
        }
    }
    if let Some(q) = &a.resume {
        return SessionPick::Find(q.clone());
    }
    if a.continue_session {
        SessionPick::Latest
    } else {
        SessionPick::Fresh
    }
}

/// The session, or why there is none. `found` is what the look-up gave, `fresh` a new
/// identifier.
pub fn settle_session(pick: &SessionPick, found: Option<&str>, fresh: &str) -> (r: Result<
    String,
    String,
>)
    ensures
        r matches Ok(s) ==> s@ == (match pick@ {
            PickV::Fresh => fresh@,
            PickV::Given(id) => id,
            _ => found->0@,
        }),
        r is Err <==> (pick is Find || pick is Latest) && found is None,
        r matches Err(e) ==> e@ == (match pick@ {
            PickV::Find(q) => "no session matching "@ + q,
            _ => "no previous session"@,
        }),
{
    match pick {
        SessionPick::Fresh => Ok(fresh.to_owned()),
        SessionPick::Given(id) => Ok(id.clone()),
        SessionPick::Find(q) => match found {
            Some(s) => Ok(s.to_owned()),
            None => Err(text2("no session matching ", q.as_str())),
        },
        SessionPick::Latest => match found {
            Some(s) => Ok(s.to_owned()),
            None => Err("no previous session".to_owned()),
        },
    }
}

/// Whether the command line names a session to go on with.
pub fn keeps_session(a: &SessionArgs) -> (r: bool)
    ensures
        r == (a.continue_session || a.resume is Some || a.session is Some),
{
    a.continue_session || a.resume.is_some() || a.session.is_some()
}

// ---------------------------------------------------------------------------
// What is run
// ---------------------------------------------------------------------------

/// What follows from the command line.
#[derive(Debug, PartialEq, Eq)]
pub enum Entry {
    /// The screen of a terminal.
    Tui,
    Help,
    /// This prompt.
    Prompt(String),
}

pub ghost enum EntryV {
    Tui,
    Help,
    Prompt(Seq<char>),
}

impl View for Entry {
    type V = EntryV;

    open spec fn view(&self) -> EntryV {
        match self {
            Entry::Tui => EntryV::Tui,
            Entry::Help => EntryV::Help,
            Entry::Prompt(s) => EntryV::Prompt(s@),
        }
    }
}

/// What follows from the command line: a prompt is run; without one a terminal opens its
/// screen, a session that was named is asked for its state, and else help is shown.
pub open spec fn entered(prompt: Seq<char>, print: bool, terminal: bool, keep: bool) -> EntryV {
    if !blank(prompt) || print {
        EntryV::Prompt(prompt)
    } else if terminal {
        EntryV::Tui
    } else if keep {
        EntryV::Prompt("/status"@)
    } else {
        EntryV::Help
    }
}

/// What follows from the command line.
pub fn real_main(prompt: &str, print: bool, terminal: bool, keep: bool) -> (r: Entry)
    ensures
        r@ == entered(prompt@, print, terminal, keep),
{
    if !is_blank(prompt) || print {
        Entry::Prompt(prompt.to_owned())
    } else if terminal {
        Entry::Tui
    } else if keep {
        Entry::Prompt("/status".to_owned())
    } else {
        Entry::Help
    }
}

/// The words of the command line as one prompt.
pub fn prompt_of(words: &Vec<String>) -> (r: String)
    ensures
        r@ == joined(texts(words@), " "@),
{
    join(words, " ")
}

/// The tools for a mode.
pub open spec fn mode_tools(mode: SessionMode) -> ToolSet {
    match mode {
        SessionMode::Chat => ToolSet::NoTools,
        SessionMode::Code => ToolSet::Code,
        _ => ToolSet::Agent,
    }
}

fn tools_for(mode: SessionMode) -> (r: ToolSet)
    ensures
        r == mode_tools(mode),
{
    match mode {
        SessionMode::Chat => ToolSet::NoTools,
        SessionMode::Code => ToolSet::Code,
        _ => ToolSet::Agent,
    }
}

/// What the caller of a session asks for.
#[derive(Debug, PartialEq, Eq)]
pub struct TurnArgs {
    pub session_id: String,
    pub mode: SessionMode,
    pub agents_md: bool,
    pub no_agents_md: bool,
    pub agents_md_head: bool,
    pub effort_locked: bool,
    pub policy: ThinkPolicy,
    /// The number of steps of a session for thinking.
    pub max_steps_think: u32,
}

pub open spec fn reserve_of(p: ThinkPolicy) -> u32 {
    at_most((p.max_tokens + p.max_think_tokens) as nat, u32::MAX as nat) as u32
}

/// The options of a prompt from the command line.
pub fn prompt_opts(base: RunOpts, a: TurnArgs) -> (r: RunOpts)
    ensures
        r == (RunOpts {
            print: true,
            persist_session: true,
            session_mode: a.mode,
            with_tools: a.mode != SessionMode::Chat,
            agents_md: a.agents_md && !a.no_agents_md,
            agents_md_head: a.agents_md_head,
            session_id: a.session_id,
            max_steps: if a.mode == SessionMode::Think {
                a.max_steps_think
            } else {
                base.max_steps
            },
            generation_reserve: reserve_of(a.policy),
            effort_locked: a.effort_locked,
            tool_set: if a.mode == SessionMode::Code || a.mode == SessionMode::Chat {
                mode_tools(a.mode)
            } else {
                base.tool_set
            },
            ..base
        }),
{
    let max_steps: u32 = if a.mode == SessionMode::Think {
        a.max_steps_think
    } else {
        base.max_steps
    };
    let tool_set = if a.mode == SessionMode::Code || a.mode == SessionMode::Chat {
        tools_for(a.mode)
    } else {
        base.tool_set
    };
    RunOpts {
        print: true,
        persist_session: true,
        session_mode: a.mode,
        with_tools: a.mode != SessionMode::Chat,
        agents_md: a.agents_md && !a.no_agents_md,
        agents_md_head: a.agents_md_head,
        session_id: a.session_id,
        max_steps,
        generation_reserve: a.policy.max_tokens.saturating_add(a.policy.max_think_tokens),
        effort_locked: a.effort_locked,
        tool_set,
        ..base
    }
}

/// The session of a message from a channel.
pub open spec fn channel_session(id: Seq<char>) -> Seq<char> {
    if id.len() == 0 {
        "channel"@
    } else {
        id
    }
}

/// The options of a message from a channel.
pub fn handle_inbound(base: RunOpts, a: TurnArgs) -> (r: RunOpts)
    ensures
        r.session_id@ == channel_session(a.session_id@),
        r == (RunOpts {
            print: false,
            session_id: r.session_id,
            persist_session: true,
            session_mode: a.mode,
            agents_md: a.agents_md && !a.no_agents_md,
            agents_md_head: a.agents_md_head,
            effort_locked: a.effort_locked || !a.policy.enabled,
            generation_reserve: reserve_of(a.policy),
            with_tools: a.mode != SessionMode::Chat,
            tool_set: mode_tools(a.mode),
            max_steps: if a.mode == SessionMode::Think {
                a.max_steps_think
            } else {
                base.max_steps
            },
            ..base
        }),
{
    let max_steps: u32 = if a.mode == SessionMode::Think {
        a.max_steps_think
    } else {
        base.max_steps
    };
    let session_id: String = if a.session_id.as_str().unicode_len() == 0 {
        "channel".to_owned()
    } else {
        a.session_id
    };
    RunOpts {
        print: false,
        session_id,
        persist_session: true,
        session_mode: a.mode,
        agents_md: a.agents_md && !a.no_agents_md,
        agents_md_head: a.agents_md_head,
        effort_locked: a.effort_locked || !a.policy.enabled,
        generation_reserve: a.policy.max_tokens.saturating_add(a.policy.max_think_tokens),
        with_tools: a.mode != SessionMode::Chat,
        tool_set: tools_for(a.mode),
        max_steps,
        ..base
    }
}

/// What is sent back for a message from a channel.
pub fn inbound_reply(text: &str) -> (r: Vec<ContentPart>)
    ensures
        parts_view(r@) == (if blank(text@) {
            Seq::empty()
        } else {
            seq![PartV::Text { text: text@ }]
        }),
{
    reply_text(text)
}

/// Whether the guards for a model that lost precision are on after a command from a
/// channel, and whether that is to be written down.
pub fn low_precision_after(on: Option<bool>, configured: bool) -> (r: (bool, bool))
    ensures
        r.0 == (match on {
            Some(v) => v,
            None => configured,
        }),
        r.1 == on is Some,
{
    match on {
        Some(v) => (v, true),
        None => (configured, false),
    }
}

/// Whether the model of the session takes the place of the configured one: it does
/// unless the environment names one.
pub fn takes_model(model: &str, env_model: Option<&str>) -> (r: bool)
    ensures
        r == (model@.len() > 0 && (env_model is None || blank(env_model->0@))),
{
    let named: bool = match env_model {
        Some(m) => !is_blank(m),
        None => false,
    };
    model.unicode_len() > 0 && !named
}

/// What is left to print after a turn, and the exit code.
pub fn turn_exit(stop_reason: Option<&str>, text: &str, streamed: bool) -> (r: (Option<String>, u8))
    ensures
        r.1 == (if stop_reason is Some && stop_reason->0@ == "aborted"@ {
            130u8
        } else {
            0u8
        }),
        opt_text(r.0) == (if (stop_reason is Some && stop_reason->0@ == "aborted"@) || text@.len()
            == 0 {
            None
        } else if streamed {
            Some(Seq::<char>::empty())
        } else {
            Some(text@)
        }),
{
    let aborted: bool = match stop_reason {
        Some(s) => same(s, "aborted"),
        None => false,
    };
    if aborted {
        return (None, 130);
    }
    if text.unicode_len() == 0 {
        return (None, 0);
    }
    if streamed {
        let line = String::new();
        assert(line@ =~= Seq::<char>::empty());
        (Some(line), 0)
    } else {
        (Some(text.to_owned()), 0)
    }
}

// ---------------------------------------------------------------------------
// Commands
// ---------------------------------------------------------------------------

/// The commands of a user, with what of them is read here.
#[derive(Debug, PartialEq, Eq)]
pub enum SlashCmd {
    Help,
    Version,
    Config,
    Skills,
    Mcp,
    Tools,
    Diff,
    /// One that there is not.
    Unsupported { name: String },
    Busy,
    Queue,
    Steer,
    Stop,
    Setup,
    Approvals,
    Plan,
    /// The guards for a model that lost precision, on, off or only shown.
    LowPrecision { on: Option<bool> },
    Status,
    Context,
    History,
    Usage,
    Sessions,
    InvokeSkill { name: String, args: String },
    InvokeMcp { name: String, args: String },
    /// Timed jobs.
    Cron { args: String },
    /// Any other.
    Other,
}

/// What a command has to do with the session.
#[derive(Debug, Clone, Copy, PartialEq, Eq, Structural)]
pub enum SlashKind {
    /// It only shows or sets something of the program.
    Plain,
    /// It shows something of the session.
    Look,
    /// It does something with the session.
    Work,
}

/// What a command has to do with the session.
pub open spec fn kind_of(cmd: SlashCmd) -> SlashKind {
    match cmd {
        SlashCmd::Status
        | SlashCmd::Context
        | SlashCmd::History
        | SlashCmd::Usage
        | SlashCmd::Sessions => SlashKind::Look,
        SlashCmd::InvokeSkill { name, args } => SlashKind::Work,
        SlashCmd::InvokeMcp { name, args } => SlashKind::Work,
        SlashCmd::Cron { args } => SlashKind::Work,
        SlashCmd::Other => SlashKind::Work,
        _ => SlashKind::Plain,
    }
}

/// What a command has to do with the session.
pub fn slash_kind(cmd: &SlashCmd) -> (r: SlashKind)
    ensures
        r == kind_of(*cmd),
{
    match cmd {
        SlashCmd::Help
        | SlashCmd::Version
        | SlashCmd::Config
        | SlashCmd::Skills
        | SlashCmd::Mcp
        | SlashCmd::Tools
        | SlashCmd::Diff
        | SlashCmd::Unsupported { .. }
        | SlashCmd::Busy
        | SlashCmd::Queue
        | SlashCmd::Steer
        | SlashCmd::Stop
        | SlashCmd::Setup
        | SlashCmd::Approvals
        | SlashCmd::Plan
        | SlashCmd::LowPrecision { .. } => SlashKind::Plain,
        SlashCmd::Status
        | SlashCmd::Context
        | SlashCmd::History
        | SlashCmd::Usage
        | SlashCmd::Sessions => SlashKind::Look,
        SlashCmd::InvokeSkill { .. }
        | SlashCmd::InvokeMcp { .. }
        | SlashCmd::Cron { .. }
        | SlashCmd::Other => SlashKind::Work,
    }
}

/// Whether the session of a command is written down; `keep` says that the command line
/// names one to go on with.
pub fn intercept_slash(cmd: &SlashCmd, keep: bool) -> (persist: bool)
    ensures
        persist == (kind_of(*cmd) == SlashKind::Work || kind_of(*cmd) == SlashKind::Look && keep),
{
    match slash_kind(cmd) {
        SlashKind::Plain => false,
        SlashKind::Look => keep,
        SlashKind::Work => true,
    }
}

/// A turn to run.
#[derive(Debug, PartialEq, Eq)]
pub struct TurnStart {
    pub prompt: String,
    pub session_id: String,
    pub policy: ThinkPolicy,
    pub effort_locked: bool,
    pub mode: SessionMode,
    pub model: String,
}

/// What the session's own server answers.
#[derive(Debug, PartialEq, Eq)]
pub enum SessionAnswer {
    Result(Json),
    Error(String),
    TurnStart(TurnStart),
    /// What ran was stopped.
    Stopped,
}

/// What comes of a command.
#[derive(Debug, PartialEq, Eq)]
pub enum SlashOutcome {
    /// This is printed, and the program ends well.
    Print(String),
    /// The program fails with this.
    Fail(String),
    /// A turn is run.
    Turn(TurnStart),
}

/// What comes of a command by the answer to it.
pub fn slash_outcome(answer: SessionAnswer) -> (r: SlashOutcome)
    ensures
        match answer {
            SessionAnswer::Result(v) => r matches SlashOutcome::Print(s) && s@ == slash_text(v@),
            SessionAnswer::Error(e) => r matches SlashOutcome::Fail(s) && s@ == e@,
            SessionAnswer::TurnStart(t) => r == SlashOutcome::Turn(t),
            SessionAnswer::Stopped => r matches SlashOutcome::Print(s) && s@ == "stopped"@,
        },
{
    match answer {
        SessionAnswer::Result(v) => SlashOutcome::Print(print_slash_result(&v)),
        SessionAnswer::Error(e) => SlashOutcome::Fail(e),
        SessionAnswer::TurnStart(t) => SlashOutcome::Turn(t),
        SessionAnswer::Stopped => SlashOutcome::Print("stopped".to_owned()),
    }
}

/// Why a session did not open, where it did not; `shown` is how the answer is shown.
pub fn open_failure(answer: &SessionAnswer, shown: &str) -> (r: Option<String>)
    ensures
        opt_text(r) == (match *answer {
            SessionAnswer::Result(v) => None,
            SessionAnswer::Error(e) => Some(e@),
            _ => Some("session.open: "@ + shown@),
        }),
{
    match answer {
        SessionAnswer::Result(_) => None,
        SessionAnswer::Error(e) => Some(e.clone()),
        _ => Some(text2("session.open: ", shown)),
    }
}

/// The turn to run after a command asked for `next` in the place of `planned`: all of it
/// as the command says, but the model only where it names one.
pub fn turn_after_slash(planned: TurnStart, next: TurnStart) -> (r: TurnStart)
    ensures
        r == (TurnStart {
            model: if next.model@.len() > 0 {
                next.model
            } else {
                planned.model
            },
            ..next
        }),
{
    let mut out = next;
    if out.model.as_str().unicode_len() == 0 {
        out.model = planned.model;
    }
    out
}

// ---------------------------------------------------------------------------
// Commands from a channel
// ---------------------------------------------------------------------------

/// A text that the program has at hand.
#[derive(Debug, PartialEq, Eq)]
pub enum LocalText {
    Help,
    Version,
    Unsupported { name: String },
}

/// The text that answers a command, where the program has one at hand.
pub fn local_slash_text(cmd: &SlashCmd) -> (r: Option<LocalText>)
    ensures
        match *cmd {
            SlashCmd::Help => r == Some(LocalText::Help),
            SlashCmd::Version => r == Some(LocalText::Version),
            SlashCmd::Unsupported { name } => r matches Some(LocalText::Unsupported { name: n })
                && n@ == name@,
            _ => r is None,
        },
{
    match cmd {
        SlashCmd::Help => Some(LocalText::Help),
        SlashCmd::Version => Some(LocalText::Version),
        SlashCmd::Unsupported { name } => Some(LocalText::Unsupported { name: name.clone() }),
        _ => None,
    }
}

/// What becomes of a message from a channel.
#[derive(Debug, PartialEq, Eq)]
pub enum InboundRoute {
    /// This text is the reply.
    Reply(LocalText),
    /// The list of skills is the reply.
    Skills,
    /// The list of servers is the reply.
    Servers,
    /// A turn is run with the prompt for this skill.
    SkillTurn { name: String, args: String },
    /// A turn is run with the prompt for this server.
    ServerTurn { name: String, args: String },
    /// The timed jobs are changed or shown, and what comes of it is the reply.
    Cron { args: String },
    /// The guards for a model that lost precision are on or off; whether that is written
    /// down; and their state is the reply.
    LowPrecision { flag: bool, save: bool },
    /// A turn is run with the message as it is.
    Turn,
}

/// What becomes of a message from a channel that is this command, or none.
pub open spec fn inbound_of(cmd: Option<SlashCmd>, low_precision: bool) -> InboundRoute {
    match cmd {
        None => InboundRoute::Turn,
        Some(c) => match c {
            SlashCmd::Help => InboundRoute::Reply(LocalText::Help),
            SlashCmd::Version => InboundRoute::Reply(LocalText::Version),
            SlashCmd::Unsupported { name } => InboundRoute::Reply(LocalText::Unsupported { name }),
            SlashCmd::Skills => InboundRoute::Skills,
            SlashCmd::Mcp => InboundRoute::Servers,
            SlashCmd::InvokeSkill { name, args } => InboundRoute::SkillTurn { name, args },
            SlashCmd::InvokeMcp { name, args } => InboundRoute::ServerTurn { name, args },
            SlashCmd::Cron { args } => InboundRoute::Cron { args },
            SlashCmd::LowPrecision { on } => InboundRoute::LowPrecision {
                flag: match on {
                    Some(v) => v,
                    None => low_precision,
                },
                save: on is Some,
            },
            _ => InboundRoute::Turn,
        },
    }
}

/// What becomes of a message from a channel; `low_precision` is what the settings say.
pub fn inbound_route(cmd: Option<SlashCmd>, low_precision: bool) -> (r: InboundRoute)
    ensures
        r == inbound_of(cmd, low_precision),
{
    match cmd {
        None => InboundRoute::Turn,
        Some(SlashCmd::Help) => InboundRoute::Reply(LocalText::Help),
        Some(SlashCmd::Version) => InboundRoute::Reply(LocalText::Version),
        Some(SlashCmd::Unsupported { name }) => InboundRoute::Reply(
            LocalText::Unsupported { name },
        ),
        Some(SlashCmd::Skills) => InboundRoute::Skills,
        Some(SlashCmd::Mcp) => InboundRoute::Servers,
        Some(SlashCmd::InvokeSkill { name, args }) => InboundRoute::SkillTurn { name, args },
        Some(SlashCmd::InvokeMcp { name, args }) => InboundRoute::ServerTurn { name, args },
        Some(SlashCmd::Cron { args }) => InboundRoute::Cron { args },
        Some(SlashCmd::LowPrecision { on }) => {
            let (flag, save) = low_precision_after(on, low_precision);
            InboundRoute::LowPrecision { flag, save }
        },
        Some(_) => InboundRoute::Turn,
    }
}

// ---------------------------------------------------------------------------
// Requests
// ---------------------------------------------------------------------------

/// A request to the session's own server.
pub open spec fn rpc_json(id: nat, method: Seq<char>, params: JsonV) -> JsonV {
    JsonV::Object(
        map![
            "jsonrpc"@ => JsonV::Str("2.0"@),
            "id"@ => JsonV::Int(id as int),
            "method"@ => JsonV::Str(method),
            "params"@ => params,
        ],
    )
}

/// A request to the session's own server.
pub fn rpc(id: u32, method: &str, params: Json) -> (r: Json)
    ensures
        r@ == rpc_json(id as nat, method@, params@),
{
    let ghost pv = params@;
    let r = Json::object().with("jsonrpc", Json::string("2.0")).with("id", Json::Uint(id as u64)).with(
        "method",
        Json::string(method),
    ).with("params", params);
    assert(fields_of(r@) =~= fields_of(rpc_json(id as nat, method@, pv)));
    r
}

/// What is printed of a command's result: its text, else a line on the session, else
/// the result as it is.
pub open spec fn slash_text(v: JsonV) -> Seq<char> {
    match v.text_at("text"@) {
        Some(t) => t,
        None => if v.field("session"@) is Some {
            "session="@ + (match v.text_at("session"@) {
                Some(s) => s,
                None => Seq::empty(),
            }) + (match v.text_at("mode"@) {
                Some(m) => " mode="@ + m,
                None => Seq::empty(),
            }) + (match not_empty(v.text_at("title"@)) {
                Some(t) => " title="@ + t,
                None => Seq::empty(),
            })
        } else {
            json_text(settled_json(v))
        },
    }
}

/// What is printed of a command's result.
pub fn print_slash_result(v: &Json) -> (r: String)
    ensures
        r@ == slash_text(v@),
{
    if let Some(t) = v.text_at("text") {
        return t.to_owned();
    }
    if v.get("session").is_none() {
        return print_json(v);
    }
    let mut out: String = "session=".to_owned();
    let id: &str = match v.text_at("session") {
        Some(s) => s,
        None => "",
    };
    proof {
        reveal_strlit("");
    }
    assert(id@ =~= (match v@.text_at("session"@) {
        Some(s) => s,
        None => Seq::empty(),
    }));
    out.append(id);
    let mode: String = match v.text_at("mode") {
        Some(m) => text2(" mode=", m),
        None => String::new(),
    };
    assert(mode@ =~= (match v@.text_at("mode"@) {
        Some(m) => " mode="@ + m,
        None => Seq::empty(),
    }));
    out.append(mode.as_str());
    let mut title: String = String::new();
    if let Some(t) = v.text_at("title") {
        if t.unicode_len() > 0 {
            title = text2(" title=", t);
        }
    }
    assert(title@ =~= (match not_empty(v@.text_at("title"@)) {
        Some(t) => " title="@ + t,
        None => Seq::empty(),
    }));
    out.append(title.as_str());
    out
}

// ---------------------------------------------------------------------------
// Probing
// ---------------------------------------------------------------------------

/// What names an endpoint.
#[derive(Debug, PartialEq, Eq)]
pub struct ServerNames {
    pub base_url: String,
    pub model: String,
    pub profile: String,
    pub family: String,
}

/// What the command line puts in place of the settings.
#[derive(Debug, PartialEq, Eq)]
pub struct ProbeOverrides {
    pub base_url: Option<String>,
    pub model: Option<String>,
    pub profile: Option<String>,
    pub family: Option<String>,
}

pub open spec fn or_kept(new: Option<String>, kept: Seq<char>) -> Seq<char> {
    match new {
        Some(s) => s@,
        None => kept,
    }
}

fn put(slot: &mut String, new: &Option<String>)
    ensures
        final(slot)@ == or_kept(*new, old(slot)@),
{
    if let Some(s) = new {
        *slot = s.clone();
    }
}

impl ServerNames {
    /// Puts what the command line says in place; what it does not say stays. So the
    /// settings on disk change only where the command line spoke.
    pub fn apply(&mut self, o: &ProbeOverrides)
        ensures
            final(self).base_url@ == or_kept(o.base_url, old(self).base_url@),
            final(self).model@ == or_kept(o.model, old(self).model@),
            final(self).profile@ == or_kept(o.profile, old(self).profile@),
            final(self).family@ == or_kept(o.family, old(self).family@),
    {
        put(&mut self.base_url, &o.base_url);
        put(&mut self.model, &o.model);
        put(&mut self.profile, &o.profile);
        put(&mut self.family, &o.family);
    }
}

impl ProbeOverrides {
    /// Whether a probe that went well is written to the settings: only where the
    /// command line said something.
    pub fn saves(&self, ok: bool) -> (r: bool)
        ensures
            r == (ok && (self.base_url is Some || self.model is Some || self.profile is Some
                || self.family is Some)),
    {
        ok && (self.base_url.is_some() || self.model.is_some() || self.profile.is_some()
            || self.family.is_some())
    }
}

/// What comes of a probe.
#[derive(Debug, PartialEq, Eq)]
pub struct ProbeEnd {
    /// The names to write to the settings, where any are written.
    pub save: Option<ServerNames>,
    pub exit: u8,
}

/// What comes of a probe that says that the endpoint can be used, or not: where it can and
/// the command line said something, the settings on disk get that and keep the rest.
pub fn end_probe(disk: ServerNames, o: &ProbeOverrides, ok: bool) -> (r: ProbeEnd)
    ensures
        r.save is Some <==> ok && (o.base_url is Some || o.model is Some || o.profile is Some
            || o.family is Some),
        r.save matches Some(n) ==> {
            &&& n.base_url@ == or_kept(o.base_url, disk.base_url@)
            &&& n.model@ == or_kept(o.model, disk.model@)
            &&& n.profile@ == or_kept(o.profile, disk.profile@)
            &&& n.family@ == or_kept(o.family, disk.family@)
        },
        r.exit == (if ok {
            0u8
        } else {
            2u8
        }),
{
    let exit: u8 = probe_exit(ok);
    if !o.saves(ok) {
        return ProbeEnd { save: None, exit };
    }
    let mut names = disk;
    names.apply(o);
    ProbeEnd { save: Some(names), exit }
}

/// The exit code of a probe.
pub fn probe_exit(ok: bool) -> (r: u8)
    ensures
        r == (if ok {
            0u8
        } else {
            2u8
        }),
{
    if ok {
        0
    } else {
        2
    }
}

// ---------------------------------------------------------------------------
// Laws
// ---------------------------------------------------------------------------

/// A session that the command line names is never passed over for a new one, unless a
/// new one is asked for.
pub proof fn law_named_sessions_are_kept(a: SessionArgs)
    requires
        !a.new,
        not_empty(opt_text(a.session)) is Some || a.resume is Some || a.continue_session,
    ensures
        picked(a) != PickV::Fresh,
{
}

/// A prompt that is not blank is run, whatever else the command line says.
pub proof fn law_a_prompt_is_run(prompt: Seq<char>, print: bool, terminal: bool, keep: bool)
    requires
        !blank(prompt),
    ensures
        entered(prompt, print, terminal, keep) == EntryV::Prompt(prompt),
{
}

/// How a session is found: a new one where that is asked for, else the one that is named,
/// else one that is looked for, else the last one, and else a new one.
pub proof fn law_how_a_session_is_found(a: SessionArgs)
    ensures
        a.new ==> picked(a) == PickV::Fresh,
        !a.new && a.session is Some && a.session->0@.len() > 0 ==> picked(a) == PickV::Given(
            a.session->0@,
        ),
        !a.new && (a.session is None || a.session->0@.len() == 0) && a.resume is Some ==> picked(a)
            == PickV::Find(a.resume->0@),
        !a.new && (a.session is None || a.session->0@.len() == 0) && a.resume is None ==> picked(a)
            == (if a.continue_session {
            PickV::Latest
        } else {
            PickV::Fresh
        }),
{
}

/// Without a prompt a terminal opens its screen; elsewhere a session that was named is asked
/// for its state, and without one help is shown. Where printing was asked for, even a blank
/// prompt is run.
pub proof fn law_what_follows_without_a_prompt(prompt: Seq<char>, terminal: bool, keep: bool)
    requires
        blank(prompt),
    ensures
        entered(prompt, true, terminal, keep) == EntryV::Prompt(prompt),
        entered(prompt, false, true, keep) == EntryV::Tui,
        entered(prompt, false, false, true) == EntryV::Prompt("/status"@),
        entered(prompt, false, false, false) == EntryV::Help,
{
}

/// A conversation has no tools, code has those of code, and all else those of an agent. The
/// effort is fixed by the command line, and by the modes that only think or only talk.
pub proof fn law_what_a_mode_brings(fast: bool, think: bool, mode: SessionMode)
    ensures
        mode_tools(SessionMode::Chat) == ToolSet::NoTools,
        mode_tools(SessionMode::Code) == ToolSet::Code,
        mode_tools(SessionMode::Agent) == ToolSet::Agent,
        mode_tools(SessionMode::Think) == ToolSet::Agent,
        locks(true, think, mode) && locks(fast, true, mode),
        locks(fast, think, SessionMode::Think) && locks(fast, think, SessionMode::Chat),
        !locks(false, false, SessionMode::Agent) && !locks(false, false, SessionMode::Code),
{
}

/// What is shown of a command's result: its text, where it has one.
pub proof fn law_a_result_is_shown_by_its_text(v: JsonV, t: Seq<char>)
    ensures
        v.text_at("text"@) == Some(t) ==> slash_text(v) == t,
        v.text_at("text"@) is None && v.text_at("session"@) == Some(t) ==> ("session="@
            + t).is_prefix_of(slash_text(v)),
        v.text_at("text"@) is None && v.field("session"@) is None ==> slash_text(v) == json_text(
            settled_json(v),
        ),
{
    if v.text_at("text"@) is None && v.text_at("session"@) == Some(t) {
        let s = slash_text(v);
        let h = "session="@ + t;
        assert(s.take(h.len() as int) =~= h);
    }
}

/// A request to the session's server carries its number, its method and its parameters.
pub proof fn law_a_request_carries_what_it_asks(id: nat, method: Seq<char>, params: JsonV)
    ensures
        ({
            let q = rpc_json(id, method, params);
            &&& q.field("jsonrpc"@) == Some(JsonV::Str("2.0"@))
            &&& q.field("id"@) == Some(JsonV::Int(id as int))
            &&& q.field("method"@) == Some(JsonV::Str(method))
            &&& q.field("params"@) == Some(params)
        }),
{
    reveal_strlit("jsonrpc");
    reveal_strlit("id");
    reveal_strlit("method");
    reveal_strlit("params");
    assert("jsonrpc"@.len() == 7 && "id"@.len() == 2 && "method"@.len() == 6 && "params"@.len()
        == 6);
    assert("method"@[0] == 'm' && "params"@[0] == 'p');
}

/// A message from a channel that is no command is run as it is, and so is a command that the
/// channel has no answer to; what can be answered at once is.
pub proof fn law_what_becomes_of_a_message(low: bool, name: String, args: String, on: bool)
    ensures
        inbound_of(None, low) == InboundRoute::Turn,
        inbound_of(Some(SlashCmd::Other), low) == InboundRoute::Turn,
        inbound_of(Some(SlashCmd::Help), low) == InboundRoute::Reply(LocalText::Help),
        inbound_of(Some(SlashCmd::Version), low) == InboundRoute::Reply(LocalText::Version),
        inbound_of(Some(SlashCmd::Skills), low) == InboundRoute::Skills,
        inbound_of(Some(SlashCmd::Mcp), low) == InboundRoute::Servers,
        inbound_of(Some(SlashCmd::InvokeSkill { name, args }), low) == (InboundRoute::SkillTurn {
            name,
            args,
        }),
        inbound_of(Some(SlashCmd::InvokeMcp { name, args }), low) == (InboundRoute::ServerTurn {
            name,
            args,
        }),
        inbound_of(Some(SlashCmd::Cron { args }), low) == (InboundRoute::Cron { args }),
        inbound_of(Some(SlashCmd::LowPrecision { on: Some(on) }), low) == (
        InboundRoute::LowPrecision { flag: on, save: true }),
        inbound_of(Some(SlashCmd::LowPrecision { on: None }), low) == (InboundRoute::LowPrecision {
            flag: low,
            save: false,
        }),
{
}

/// The room for a reply is that of its text and its thought together, as far as it can be
/// counted; a message without a session belongs to that of the channel; and what is not said
/// anew is kept.
pub proof fn law_what_is_kept(p: ThinkPolicy, id: Seq<char>, s: String, kept: Seq<char>)
    ensures
        p.max_tokens + p.max_think_tokens <= u32::MAX ==> reserve_of(p) == p.max_tokens
            + p.max_think_tokens,
        p.max_tokens + p.max_think_tokens > u32::MAX ==> reserve_of(p) == u32::MAX,
        id.len() > 0 ==> channel_session(id) == id,
        id.len() == 0 ==> channel_session(id) == "channel"@,
        or_kept(Some(s), kept) == s@,
        or_kept(None, kept) == kept,
{
}

/// What a command has to do with the session: some only look at it, some do something with
/// it, and the others leave it alone.
pub proof fn law_what_commands_do(name: String, args: String, on: Option<bool>)
    ensures
        kind_of(SlashCmd::Status) == SlashKind::Look,
        kind_of(SlashCmd::Context) == SlashKind::Look,
        kind_of(SlashCmd::History) == SlashKind::Look,
        kind_of(SlashCmd::Usage) == SlashKind::Look,
        kind_of(SlashCmd::Sessions) == SlashKind::Look,
        kind_of(SlashCmd::Other) == SlashKind::Work,
        kind_of(SlashCmd::InvokeSkill { name, args }) == SlashKind::Work,
        kind_of(SlashCmd::InvokeMcp { name, args }) == SlashKind::Work,
        kind_of(SlashCmd::Cron { args }) == SlashKind::Work,
        kind_of(SlashCmd::Help) == SlashKind::Plain,
        kind_of(SlashCmd::Plan) == SlashKind::Plain,
        kind_of(SlashCmd::Stop) == SlashKind::Plain,
        kind_of(SlashCmd::LowPrecision { on }) == SlashKind::Plain,
        kind_of(SlashCmd::Unsupported { name }) == SlashKind::Plain,
{
}

} // verus!
