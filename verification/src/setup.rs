//! What a session starts with: its options, its tools and its gates.

use vstd::prelude::*;
use crate::context::{clamp_generation_reserve, reserve_in, sum32};
use crate::json::opt_text;
use crate::oracle::{path_under, under};
use crate::text::{blank, is_blank, same, text2, text3};

verus! {

/// What the model is told first.
pub const CODING_SYSTEM_PROMPT: &'static str =
    "You are a coding agent. Work inside the workspace and answer briefly.";

/// Which tools a session has.
#[derive(Debug, Clone, Copy, PartialEq, Eq, Structural)]
pub enum ToolSet {
    NoTools,
    Agent,
    Code,
}

/// What a session is for.
#[derive(Debug, Clone, Copy, PartialEq, Eq, Structural)]
pub enum SessionMode {
    Agent,
    Think,
    Code,
    Chat,
}

/// The environment's window in place of the file's.
#[derive(Debug, Clone, Copy, PartialEq, Eq, Structural)]
pub struct WorkingWindowOverlay {
    pub from_env: u32,
    pub from_file: u32,
}

/// The settings that a session reads.
#[derive(Debug, PartialEq, Eq)]
pub struct Settings {
    pub workspace_write_only: bool,
    pub skills_auto_catalog: bool,
    pub mcp_auto_catalog: bool,
    pub max_steps: u32,
    pub max_wall_seconds: u64,
    /// Nought leaves the number of steps as it is.
    pub max_steps_unattended: u32,
    pub max_wall_unattended_seconds: u64,
    pub max_tokens: u32,
    pub max_think_tokens_xhigh: u32,
    pub low_precision: bool,
    pub agents_md_max_tokens: u32,
    pub working_window: u32,
    pub working_window_overlay: Option<WorkingWindowOverlay>,
    pub code_timeout_s: u64,
    pub inherit_env: bool,
    pub web_enabled: bool,
    pub media_enabled: bool,
    pub media_max_bytes: u64,
    pub prompt_file: String,
    pub prompt_coding: bool,
    pub prompt_narrate: bool,
}

/// The options of a session.
#[derive(Debug, PartialEq, Eq)]
pub struct RunOpts {
    pub workspace: String,
    pub session_id: String,
    pub confined: bool,
    pub with_tools: bool,
    pub tool_set: ToolSet,
    pub max_steps: u32,
    pub max_wall_seconds: u64,
    pub agents_md: bool,
    pub agents_md_max_tokens: u32,
    /// Clip a long AGENTS.md instead of leaving it out.
    pub agents_md_head: bool,
    /// One prompt, with nobody to answer.
    pub print: bool,
    pub bash_timeout_s: u64,
    pub inherit_env: bool,
    pub working_window: u32,
    pub generation_reserve: u32,
    pub working_window_overlay: Option<WorkingWindowOverlay>,
    pub effort_locked: bool,
    pub persist_session: bool,
    pub session_mode: SessionMode,
    pub session_dir: Option<String>,
    pub blob_dir: Option<String>,
    pub home: Option<String>,
    pub peripheral: bool,
    pub skills_auto_catalog: bool,
    pub mcp_auto_catalog: bool,
    pub web: bool,
    pub media: bool,
    pub media_max_bytes: u64,
    pub prompt_file: String,
    pub coding_identity: bool,
    pub plan_mode: bool,
    pub clarify_mode: bool,
    pub low_precision: bool,
    /// Where the user sits; empty stands for the terminal.
    pub channel: String,
    pub narrate: bool,
}

impl RunOpts {
    /// The options of one prompt in `workspace` by the settings.
    pub fn from_config(cfg: &Settings, workspace: String, home: Option<String>) -> (r: RunOpts)
        ensures
            r.workspace@ == workspace@,
            r.session_id@ == "print"@,
            r.confined == cfg.workspace_write_only,
            r.with_tools && r.tool_set == ToolSet::Agent,
            r.max_steps == cfg.max_steps,
            r.max_wall_seconds == cfg.max_wall_seconds,
            !r.agents_md && !r.agents_md_head && r.print,
            r.agents_md_max_tokens == cfg.agents_md_max_tokens,
            r.bash_timeout_s == cfg.code_timeout_s,
            r.inherit_env == cfg.inherit_env,
            r.working_window == cfg.working_window,
            r.generation_reserve == reserve_in(
                cfg.working_window as nat,
                sum32(cfg.max_tokens as nat, cfg.max_think_tokens_xhigh as nat),
            ),
            r.working_window_overlay == cfg.working_window_overlay,
            !r.effort_locked && !r.persist_session && r.session_mode == SessionMode::Agent,
            r.session_dir is None && r.blob_dir is None,
            opt_text(r.home) == opt_text(home),
            r.peripheral,
            r.skills_auto_catalog == cfg.skills_auto_catalog,
            r.mcp_auto_catalog == cfg.mcp_auto_catalog,
            r.web == cfg.web_enabled,
            r.media == cfg.media_enabled,
            r.media_max_bytes == cfg.media_max_bytes,
            r.prompt_file@ == cfg.prompt_file@,
            r.coding_identity == cfg.prompt_coding,
            !r.plan_mode && !r.clarify_mode,
            r.low_precision == cfg.low_precision,
            r.channel@.len() == 0,
            r.narrate == cfg.prompt_narrate,
    {
        let wanted: u32 = cfg.max_tokens.saturating_add(cfg.max_think_tokens_xhigh);
        RunOpts {
            workspace,
            session_id: "print".to_owned(),
            confined: cfg.workspace_write_only,
            with_tools: true,
            tool_set: ToolSet::Agent,
            max_steps: cfg.max_steps,
            max_wall_seconds: cfg.max_wall_seconds,
            agents_md: false,
            agents_md_max_tokens: cfg.agents_md_max_tokens,
            agents_md_head: false,
            print: true,
            bash_timeout_s: cfg.code_timeout_s,
            inherit_env: cfg.inherit_env,
            working_window: cfg.working_window,
            generation_reserve: clamp_generation_reserve(cfg.working_window, wanted),
            working_window_overlay: cfg.working_window_overlay,
            effort_locked: false,
            persist_session: false,
            session_mode: SessionMode::Agent,
            session_dir: None,
            blob_dir: None,
            home,
            peripheral: true,
            skills_auto_catalog: cfg.skills_auto_catalog,
            mcp_auto_catalog: cfg.mcp_auto_catalog,
            web: cfg.web_enabled,
            media: cfg.media_enabled,
            media_max_bytes: cfg.media_max_bytes,
            prompt_file: cfg.prompt_file.clone(),
            coding_identity: cfg.prompt_coding,
            plan_mode: false,
            clarify_mode: false,
            low_precision: cfg.low_precision,
            channel: String::new(),
            narrate: cfg.prompt_narrate,
        }
    }
}

/// A channel where somebody watches the session live.
pub open spec fn watched(channel: Seq<char>) -> bool {
    channel == ""@ || channel == "cli"@ || channel == "tui"@ || channel == "web"@ || channel
        == "console"@
}

/// Whether a channel is one where somebody watches the session live.
pub fn interactive_channel(channel: &str) -> (r: bool)
    ensures
        r == watched(channel@),
{
    same(channel, "") || same(channel, "cli") || same(channel, "tui") || same(channel, "web")
        || same(channel, "console")
}

/// The options with the caps for a session that nobody watches.
pub open spec fn unattended(opts: RunOpts, cfg: Settings) -> RunOpts {
    if watched(opts.channel@) {
        opts
    } else {
        RunOpts {
            max_steps: if cfg.max_steps_unattended > 0 {
                cfg.max_steps_unattended
            } else {
                opts.max_steps
            },
            max_wall_seconds: cfg.max_wall_unattended_seconds,
            ..opts
        }
    }
}

/// Gives a session that nobody watches its own caps.
pub fn apply_unattended_policy(opts: &mut RunOpts, cfg: &Settings)
    ensures
        *final(opts) == unattended(*old(opts), *cfg),
{
    let steps: u32 = if cfg.max_steps_unattended > 0 {
        cfg.max_steps_unattended
    } else {
        opts.max_steps
    };
    if !interactive_channel(opts.channel.as_str()) {
        opts.max_steps = steps;
        opts.max_wall_seconds = cfg.max_wall_unattended_seconds;
    }
}

// ---------------------------------------------------------------------------
// Starting a session
// ---------------------------------------------------------------------------

/// What can end a turn.
#[derive(Debug, Clone, Copy, PartialEq, Eq, Structural)]
pub enum GateKind {
    /// The same calls over and over; stricter for a model that lost precision.
    DoomLoop { lossy: bool },
    Steps(u32),
    /// Seconds.
    Timeout(u64),
    /// The same tool so many times in a row.
    NameStreak(u32),
    /// The same file so many times.
    PathLoop(u32),
    ToolBudget,
}

/// How a session starts.
#[derive(Debug, PartialEq, Eq)]
pub struct AgentPlan {
    pub tool_set: ToolSet,
    pub gates: Vec<GateKind>,
    /// After so many calls in a row that cannot be read, the turn ends.
    pub parse_stop_after: u32,
    pub generation_reserve: u32,
    pub media_max_bytes: u64,
    pub narrate: bool,
    /// After so many calls that cannot be read, the effort goes up, where it is said.
    pub parse_upgrade_after: Option<u32>,
    pub blob_dir: String,
}

/// The tools of a session.
pub open spec fn tools_of(opts: RunOpts) -> ToolSet {
    if opts.with_tools {
        opts.tool_set
    } else {
        ToolSet::NoTools
    }
}

pub open spec fn gates_of(opts: RunOpts) -> Seq<GateKind> {
    let steps: u32 = if opts.max_steps >= 1 {
        opts.max_steps
    } else {
        1
    };
    let base = seq![
        GateKind::DoomLoop { lossy: opts.low_precision },
        GateKind::Steps(steps),
        GateKind::Timeout(opts.max_wall_seconds),
    ];
    if opts.low_precision {
        base + seq![GateKind::NameStreak(4), GateKind::PathLoop(3), GateKind::ToolBudget]
    } else {
        base
    }
}

/// Where long outputs are kept: where the options say, else beside the sessions, else
/// in the user's home, else in the machine's place for such files.
pub open spec fn blobs_at(opts: RunOpts, home: Option<Seq<char>>, temp: Seq<char>) -> Seq<char> {
    match opt_text(opts.blob_dir) {
        Some(d) => d,
        None => match opt_text(opts.session_dir) {
            Some(d) => under(d, "blobs"@),
            None => match home {
                Some(h) => under(h, "blobs"@),
                None => under(temp, "q38-blobs"@),
            },
        },
    }
}

/// How a session starts.
pub fn plan_agent(opts: &RunOpts, home: Option<&str>, temp: &str) -> (r: AgentPlan)
    ensures
        r.tool_set == tools_of(*opts),
        r.gates@ == gates_of(*opts),
        r.parse_stop_after == (if opts.low_precision {
            2u32
        } else {
            3u32
        }),
        r.parse_upgrade_after == (if opts.low_precision {
            Some(1u32)
        } else {
            None
        }),
        r.generation_reserve == reserve_in(
            opts.working_window as nat,
            opts.generation_reserve as nat,
        ),
        r.media_max_bytes == (if opts.media_max_bytes >= 1 {
            opts.media_max_bytes
        } else {
            1
        }),
        r.narrate == (opts.narrate && !opts.print && watched(opts.channel@)),
        r.blob_dir@ == blobs_at(
            *opts,
            match home {
                Some(h) => Some(h@),
                None => None,
            },
            temp@,
        ),
{
    let tool_set = if !opts.with_tools {
        ToolSet::NoTools
    } else {
        opts.tool_set
    };
    let lossy: bool = opts.low_precision;
    let steps: u32 = if opts.max_steps >= 1 {
        opts.max_steps
    } else {
        1
    };
    let mut gates: Vec<GateKind> = Vec::new();
    gates.push(GateKind::DoomLoop { lossy });
    gates.push(GateKind::Steps(steps));
    gates.push(GateKind::Timeout(opts.max_wall_seconds));
    if lossy {
        gates.push(GateKind::NameStreak(4));
        gates.push(GateKind::PathLoop(3));
        gates.push(GateKind::ToolBudget);
    }
    assert(gates@ =~= gates_of(*opts));
    let blob_dir: String = match &opts.blob_dir {
        Some(d) => d.clone(),
        None => match &opts.session_dir {
            Some(d) => path_under(d.as_str(), "blobs"),
            None => match home {
                Some(h) => path_under(h, "blobs"),
                None => path_under(temp, "q38-blobs"),
            },
        },
    };
    AgentPlan {
        tool_set,
        gates,
        parse_stop_after: if lossy {
            2
        } else {
            3
        },
        generation_reserve: clamp_generation_reserve(opts.working_window, opts.generation_reserve),
        media_max_bytes: if opts.media_max_bytes >= 1 {
            opts.media_max_bytes
        } else {
            1
        },
        narrate: opts.narrate && !opts.print && interactive_channel(opts.channel.as_str()),
        parse_upgrade_after: if lossy {
            Some(1)
        } else {
            None
        },
        blob_dir,
    }
}

/// One tool, or one fixed group of them.
#[derive(Debug, Clone, Copy, PartialEq, Eq, Structural)]
pub enum ToolSlot {
    /// The fixed group of an agent.
    AgentTools,
    /// The fixed group of code mode.
    CodeTools,
    Search,
    MemorySearch,
    Mcp,
    Web,
    View,
    Ask,
    Recall,
}

pub open spec fn slot_if(on: bool, t: ToolSlot) -> Seq<ToolSlot> {
    if on {
        seq![t]
    } else {
        Seq::empty()
    }
}

/// The tools of a session, in the order in which the model sees them: what comes and
/// goes stands behind what is fixed.
pub open spec fn tool_list(
    opts: RunOpts,
    tool_set: ToolSet,
    has_memory: bool,
    has_servers: bool,
) -> Seq<ToolSlot> {
    let agent = tool_set == ToolSet::Agent;
    let extra = opts.peripheral && agent;
    (match tool_set {
        ToolSet::NoTools => Seq::<ToolSlot>::empty(),
        ToolSet::Agent => seq![ToolSlot::AgentTools, ToolSlot::Search],
        ToolSet::Code => seq![ToolSlot::CodeTools],
    }) + slot_if(extra && has_memory, ToolSlot::MemorySearch) + slot_if(
        extra && has_servers,
        ToolSlot::Mcp,
    ) + slot_if(extra && opts.web, ToolSlot::Web) + slot_if(opts.media && agent, ToolSlot::View)
        + slot_if(agent && (opts.plan_mode || opts.clarify_mode), ToolSlot::Ask)
}

fn push_slot(out: &mut Vec<ToolSlot>, on: bool, t: ToolSlot)
    ensures
        final(out)@ == old(out)@ + slot_if(on, t),
{
    if on {
        out.push(t);
    }
    assert(out@ =~= old(out)@ + slot_if(on, t));
}

/// The tools of a session, in the order in which the model sees them.
pub fn bind_periphery(
    opts: &RunOpts,
    tool_set: ToolSet,
    has_memory: bool,
    has_servers: bool,
) -> (r: Vec<ToolSlot>)
    ensures
        r@ == tool_list(*opts, tool_set, has_memory, has_servers),
{
    let agent: bool = tool_set == ToolSet::Agent;
    let extra: bool = opts.peripheral && agent;
    let mut out: Vec<ToolSlot> = Vec::new();
    match tool_set {
        ToolSet::NoTools => {},
        ToolSet::Agent => {
            out.push(ToolSlot::AgentTools);
            out.push(ToolSlot::Search);
        },
        ToolSet::Code => {
            out.push(ToolSlot::CodeTools);
        },
    }
    assert(out@ =~= (match tool_set {
        ToolSet::NoTools => Seq::<ToolSlot>::empty(),
        ToolSet::Agent => seq![ToolSlot::AgentTools, ToolSlot::Search],
        ToolSet::Code => seq![ToolSlot::CodeTools],
    }));
    push_slot(&mut out, extra && has_memory, ToolSlot::MemorySearch);
    push_slot(&mut out, extra && has_servers, ToolSlot::Mcp);
    push_slot(&mut out, extra && opts.web, ToolSlot::Web);
    push_slot(&mut out, opts.media && agent, ToolSlot::View);
    push_slot(&mut out, agent && (opts.plan_mode || opts.clarify_mode), ToolSlot::Ask);
    out
}

/// Gives a session that was compacted the tool to look back. Says whether the tools
/// changed.
pub fn enable_recall(tools: &mut Vec<ToolSlot>) -> (r: bool)
    ensures
        r == (old(tools)@.len() > 0 && !old(tools)@.contains(ToolSlot::Recall)),
        final(tools)@ == (if r {
            old(tools)@.push(ToolSlot::Recall)
        } else {
            old(tools)@
        }),
{
    if tools.len() == 0 {
        return false;
    }
    let mut i: usize = 0;
    while i < tools.len()
        invariant
            i <= tools@.len(),
            tools@ == old(tools)@,
            forall|j: int| 0 <= j < i ==> tools@[j] != ToolSlot::Recall,
        decreases tools.len() - i,
    {
        if tools[i] == ToolSlot::Recall {
            return false;
        }
        i = i + 1;
    }
    tools.push(ToolSlot::Recall);
    true
}

/// What AGENTS.md gives to the system text.
#[derive(Debug, PartialEq, Eq)]
pub enum AgentsMd {
    Missing,
    Text(String),
    TooLarge,
}

/// What AGENTS.md gives to the system text. `raw` is its content where it can be read,
/// `tokens` how long it is, `clipped` its head of the allowed length.
pub fn read_agents_md(raw: Option<&str>, tokens: u32, max_tokens: u32, head: bool, clipped: &str)
    -> (r: AgentsMd)
    ensures
        r is Missing <==> raw is None || blank(raw->0@),
        r matches AgentsMd::Text(s) ==> s@ == (if tokens <= max_tokens {
            raw->0@
        } else {
            clipped@
        }),
        r is TooLarge <==> raw is Some && !blank(raw->0@) && tokens > max_tokens && !(head
            && clipped@.len() > 0),
{
    match raw {
        None => AgentsMd::Missing,
        Some(text) => {
            if is_blank(text) {
                return AgentsMd::Missing;
            }
            if tokens <= max_tokens {
                return AgentsMd::Text(text.to_owned());
            }
            if head && clipped.unicode_len() > 0 {
                AgentsMd::Text(clipped.to_owned())
            } else {
                AgentsMd::TooLarge
            }
        },
    }
}

/// The system text of a session.
pub open spec fn system_of(
    prompt: Seq<char>,
    periphery: Option<(Seq<char>, Seq<char>)>,
    agents: Option<Seq<char>>,
) -> Seq<char> {
    prompt + (match periphery {
        Some(p) => p.0 + "\n"@ + p.1 + "\n"@,
        None => Seq::empty(),
    }) + (match agents {
        Some(a) => "\n\n# AGENTS.md\n"@ + a,
        None => Seq::empty(),
    })
}

/// The system text of a session: the prompt, what it says of skills, servers and timed
/// jobs where the session has them, and AGENTS.md where it is wanted and there.
pub fn system_text(prompt: &str, periphery: Option<(&str, &str)>, agents: &AgentsMd) -> (r: String)
    ensures
        r@ == system_of(
            prompt@,
            match periphery {
                Some(p) => Some((p.0@, p.1@)),
                None => None,
            },
            match *agents {
                AgentsMd::Text(s) => Some(s@),
                _ => None,
            },
        ),
{
    let mut out: String = prompt.to_owned();
    let mid: String = match periphery {
        Some((section, cron_line)) => {
            let mut s = text3(section, "\n", cron_line);
            s.append("\n");
            s
        },
        None => String::new(),
    };
    assert(mid@ =~= (match periphery {
        Some(p) => p.0@ + "\n"@ + p.1@ + "\n"@,
        None => Seq::empty(),
    }));
    out.append(mid.as_str());
    match agents {
        AgentsMd::Text(s) => {
            out.append(text2("\n\n# AGENTS.md\n", s.as_str()).as_str());
        },
        _ => {
            assert(out@ + Seq::<char>::empty() =~= out@);
        },
    }
    out
}

/// What a session's log has to say at its start.
#[derive(Debug, Clone, Copy, PartialEq, Eq, Structural)]
pub enum LogState {
    /// It is there.
    Opened,
    /// It was made.
    Created,
    /// It can neither be opened nor made.
    Failed,
}

/// How a session gets its messages.
#[derive(Debug, Clone, Copy, PartialEq, Eq, Structural)]
pub enum SessionBind {
    /// Only the system text, and no log.
    Unlogged,
    /// Only the system text, and a new log.
    Fresh,
    /// What the log holds.
    Resumed,
}

/// Whether a session is logged at all.
pub fn logs_session(persist: bool, session_id: &str) -> (r: bool)
    ensures
        r == (persist && session_id@.len() > 0),
{
    persist && session_id.unicode_len() > 0
}

/// How a session gets its messages.
pub fn bind_session(persist: bool, session_id: &str, log: LogState) -> (r: SessionBind)
    ensures
        r == (if !persist || session_id@.len() == 0 {
            SessionBind::Unlogged
        } else {
            match log {
                LogState::Opened => SessionBind::Resumed,
                LogState::Created => SessionBind::Fresh,
                LogState::Failed => SessionBind::Unlogged,
            }
        }),
{
    if !logs_session(persist, session_id) {
        return SessionBind::Unlogged;
    }
    match log {
        LogState::Opened => SessionBind::Resumed,
        LogState::Created => SessionBind::Fresh,
        LogState::Failed => SessionBind::Unlogged,
    }
}

// ---------------------------------------------------------------------------
// Laws
// ---------------------------------------------------------------------------

/// What a session has beside the fixed tools only follows them: the list always begins
/// with the list of a session without any.
pub proof fn law_fixed_tools_come_first(
    opts: RunOpts,
    tool_set: ToolSet,
    has_memory: bool,
    has_servers: bool,
)
    ensures
        tool_list(
            RunOpts { peripheral: false, media: false, plan_mode: false, clarify_mode: false, ..opts },
            tool_set,
            false,
            false,
        ).is_prefix_of(tool_list(opts, tool_set, has_memory, has_servers)),
{
}

/// Caps for sessions that nobody watches are given once: giving them again changes
/// nothing.
pub proof fn law_unattended_caps_settle(opts: RunOpts, cfg: Settings)
    ensures
        unattended(unattended(opts, cfg), cfg) == unattended(opts, cfg),
{
}

/// A session has a tool exactly where its options and what is at hand call for it.
pub proof fn law_each_tool_has_its_occasion(
    opts: RunOpts,
    set: ToolSet,
    memory: bool,
    servers: bool,
    x: ToolSlot,
)
    ensures
        ({
            let agent = set == ToolSet::Agent;
            tool_list(opts, set, memory, servers).contains(x) <==> match x {
                ToolSlot::AgentTools => agent,
                ToolSlot::Search => agent,
                ToolSlot::CodeTools => set == ToolSet::Code,
                ToolSlot::MemorySearch => agent && opts.peripheral && memory,
                ToolSlot::Mcp => agent && opts.peripheral && servers,
                ToolSlot::Web => agent && opts.peripheral && opts.web,
                ToolSlot::View => agent && opts.media,
                ToolSlot::Ask => agent && (opts.plan_mode || opts.clarify_mode),
                ToolSlot::Recall => false,
            }
        }),
{
    let agent = set == ToolSet::Agent;
    let extra = opts.peripheral && agent;
    let a = match set {
        ToolSet::NoTools => Seq::<ToolSlot>::empty(),
        ToolSet::Agent => seq![ToolSlot::AgentTools, ToolSlot::Search],
        ToolSet::Code => seq![ToolSlot::CodeTools],
    };
    let b = slot_if(extra && memory, ToolSlot::MemorySearch);
    let c = slot_if(extra && servers, ToolSlot::Mcp);
    let d = slot_if(extra && opts.web, ToolSlot::Web);
    let e = slot_if(opts.media && agent, ToolSlot::View);
    let f = slot_if(agent && (opts.plan_mode || opts.clarify_mode), ToolSlot::Ask);
    lemma_slot_if(extra && memory, ToolSlot::MemorySearch, x);
    lemma_slot_if(extra && servers, ToolSlot::Mcp, x);
    lemma_slot_if(extra && opts.web, ToolSlot::Web, x);
    lemma_slot_if(opts.media && agent, ToolSlot::View, x);
    lemma_slot_if(agent && (opts.plan_mode || opts.clarify_mode), ToolSlot::Ask, x);
    lemma_either(a, b, x);
    lemma_either(a + b, c, x);
    lemma_either(a + b + c, d, x);
    lemma_either(a + b + c + d, e, x);
    lemma_either(a + b + c + d + e, f, x);
    lemma_fixed(set, x);
}

proof fn lemma_fixed(set: ToolSet, x: ToolSlot)
    ensures
        (match set {
            ToolSet::NoTools => Seq::<ToolSlot>::empty(),
            ToolSet::Agent => seq![ToolSlot::AgentTools, ToolSlot::Search],
            ToolSet::Code => seq![ToolSlot::CodeTools],
        }).contains(x) <==> match set {
            ToolSet::NoTools => false,
            ToolSet::Agent => x == ToolSlot::AgentTools || x == ToolSlot::Search,
            ToolSet::Code => x == ToolSlot::CodeTools,
        },
{
    let a = seq![ToolSlot::AgentTools, ToolSlot::Search];
    let b = seq![ToolSlot::CodeTools];
    assert(a[0] == ToolSlot::AgentTools && a[1] == ToolSlot::Search && b[0]
        == ToolSlot::CodeTools);
}

proof fn lemma_slot_if(on: bool, t: ToolSlot, x: ToolSlot)
    ensures
        slot_if(on, t).contains(x) <==> on && x == t,
{
    if on {
        assert(slot_if(on, t)[0] == t);
    }
}

proof fn lemma_either(a: Seq<ToolSlot>, b: Seq<ToolSlot>, x: ToolSlot)
    ensures
        (a + b).contains(x) <==> a.contains(x) || b.contains(x),
{
    let s = a + b;
    if a.contains(x) {
        let i = choose|i: int| 0 <= i < a.len() && a[i] == x;
        assert(s[i] == x);
    }
    if b.contains(x) {
        let i = choose|i: int| 0 <= i < b.len() && b[i] == x;
        assert(s[a.len() + i] == x);
    }
    if s.contains(x) {
        let i = choose|i: int| 0 <= i < s.len() && s[i] == x;
        if i < a.len() {
            assert(a[i] == x);
        } else {
            assert(b[i - a.len()] == x);
        }
    }
}

/// Every session is stopped by endless loops, by its number of steps, at least one, and by
/// its time; a model that lost precision by three gates more.
pub proof fn law_every_session_is_gated(opts: RunOpts)
    ensures
        ({
            let gs = gates_of(opts);
            &&& gs.contains(GateKind::DoomLoop { lossy: opts.low_precision })
            &&& gs.contains(GateKind::Timeout(opts.max_wall_seconds))
            &&& opts.max_steps >= 1 ==> gs.contains(GateKind::Steps(opts.max_steps))
            &&& opts.max_steps == 0 ==> gs.contains(GateKind::Steps(1))
            &&& gs.len() == (if opts.low_precision {
                6int
            } else {
                3int
            })
            &&& opts.low_precision ==> gs.contains(GateKind::NameStreak(4)) && gs.contains(
                GateKind::PathLoop(3),
            ) && gs.contains(GateKind::ToolBudget)
        }),
{
    let gs = gates_of(opts);
    assert(gs[0] == GateKind::DoomLoop { lossy: opts.low_precision });
    assert(gs[2] == GateKind::Timeout(opts.max_wall_seconds));
    assert(gs.contains(gs[1]));
    if opts.low_precision {
        assert(gs[3] == GateKind::NameStreak(4) && gs[4] == GateKind::PathLoop(3) && gs[5]
            == GateKind::ToolBudget);
    }
}

/// Somebody watches on the terminal, in its window, in the web and on the console, and
/// nowhere else; a session that nobody watches has caps of its own, and nothing else of it
/// changes.
pub proof fn law_who_watches(opts: RunOpts, cfg: Settings, channel: Seq<char>)
    ensures
        watched(channel) <==> seq![Seq::<char>::empty(), "cli"@, "tui"@, "web"@, "console"@].contains(
            channel,
        ),
        watched(opts.channel@) ==> unattended(opts, cfg) == opts,
        !watched(opts.channel@) ==> unattended(opts, cfg) == (RunOpts {
            max_steps: unattended(opts, cfg).max_steps,
            max_wall_seconds: cfg.max_wall_unattended_seconds,
            ..opts
        }),
        !watched(opts.channel@) && cfg.max_steps_unattended > 0 ==> unattended(opts, cfg).max_steps
            == cfg.max_steps_unattended,
        !watched(opts.channel@) && cfg.max_steps_unattended == 0 ==> unattended(
            opts,
            cfg,
        ).max_steps == opts.max_steps,
{
    reveal_strlit("");
    assert(""@ =~= Seq::<char>::empty());
    let all = seq![Seq::<char>::empty(), "cli"@, "tui"@, "web"@, "console"@];
    assert(all[0] == Seq::<char>::empty() && all[1] == "cli"@ && all[2] == "tui"@ && all[3]
        == "web"@ && all[4] == "console"@);
}

/// Long outputs are kept where the options say; else below the directory of the sessions;
/// else below the user's home; else below the machine's place for such files.
pub proof fn law_where_long_outputs_are_kept(opts: RunOpts, home: Option<Seq<char>>, temp: Seq<char>)
    ensures
        ({
            let at = blobs_at(opts, home, temp);
            &&& opt_text(opts.blob_dir) matches Some(d) ==> at == d
            &&& opts.blob_dir is None && opts.session_dir is Some ==> at == under(
                opts.session_dir->0@,
                "blobs"@,
            )
            &&& opts.blob_dir is None && opts.session_dir is None && home is Some ==> at == under(
                home->0,
                "blobs"@,
            )
            &&& opts.blob_dir is None && opts.session_dir is None && home is None ==> at == under(
                temp,
                "q38-blobs"@,
            )
        }),
{
}

/// The system text begins with the prompt, and ends with AGENTS.md where there is one.
pub proof fn law_the_prompt_comes_first(
    prompt: Seq<char>,
    more: Option<(Seq<char>, Seq<char>)>,
    agents: Option<Seq<char>>,
)
    ensures
        prompt.is_prefix_of(system_of(prompt, more, agents)),
        more is None && agents is None ==> system_of(prompt, more, agents) == prompt,
        agents matches Some(a) ==> crate::text::has_suffix(
            system_of(prompt, more, agents),
            "# AGENTS.md\n"@ + a,
        ),
        more matches Some(p) ==> crate::text::holds(system_of(prompt, more, agents), p.0)
            && crate::text::holds(system_of(prompt, more, agents), p.1),
{
    let s = system_of(prompt, more, agents);
    assert(s.take(prompt.len() as int) =~= prompt);
    if more is None && agents is None {
        assert(s =~= prompt);
    }
    if let Some(a) = agents {
        reveal_strlit("\n\n# AGENTS.md\n");
        reveal_strlit("# AGENTS.md\n");
        let t = "# AGENTS.md\n"@ + a;
        assert(s.subrange(s.len() - t.len(), s.len() as int) =~= t);
    }
    if let Some(p) = more {
        let n = prompt.len() as int;
        assert(s.subrange(n, n + p.0.len()) =~= p.0);
        assert(crate::text::at(s, p.0, n));
        reveal_strlit("\n");
        let k = n + p.0.len() + 1;
        assert(s.subrange(k, k + p.1.len()) =~= p.1);
        assert(crate::text::at(s, p.1, k));
    }
}

/// A session without tools has none, whatever its set; one with tools has its set.
pub proof fn law_which_tools_a_session_has(opts: RunOpts)
    ensures
        opts.with_tools ==> tools_of(opts) == opts.tool_set,
        !opts.with_tools ==> tools_of(opts) == ToolSet::NoTools,
{
}

} // verus!
