//! The report on a run of the tasks, and the filler for long prompts.

use vstd::prelude::*;
use crate::bench::{opt_str, CODING_CTX_TOKENS, Eval};
use crate::json::{fields_of, items_view, lemma_items_push, opt_text, Json, JsonV};
use crate::message::at_most;
use crate::setup::{RunOpts, ToolSet};
use crate::text::{
    after, before, contains, decimal, has_prefix, holds, lines, lines_of, part_after, part_before,
    show_u64, starts_with, strip_prefix, strip_prefix_of, text2, text3, text4, texts, trim, trimmed,
};

verus! {

// ---------------------------------------------------------------------------
// The filler
// ---------------------------------------------------------------------------

pub const FILLER_HEADER: &'static str =
    "Ignore this filler. It is not a task instruction and must not change how you edit files.\n";

pub const FILLER_UNIT: &'static str = " lorem";

/// `n` times `unit`.
pub open spec fn repeated(unit: Seq<char>, n: nat) -> Seq<char>
    decreases n,
{
    if n == 0 {
        Seq::empty()
    } else {
        repeated(unit, (n - 1) as nat) + unit
    }
}

/// A filler of so many units.
pub open spec fn filler(reps: nat) -> Seq<char> {
    FILLER_HEADER@ + repeated(FILLER_UNIT@, reps)
}

/// A filler of so many units.
pub fn filler_text(reps: u32) -> (r: String)
    ensures
        r@ == filler(reps as nat),
{
    let mut out: String = FILLER_HEADER.to_owned();
    let mut i: u32 = 0;
    assert(out@ =~= FILLER_HEADER@ + repeated(FILLER_UNIT@, 0));
    while i < reps
        invariant
            i <= reps,
            out@ == FILLER_HEADER@ + repeated(FILLER_UNIT@, i as nat),
        decreases reps - i,
    {
        let ghost done = out@;
        out.append(FILLER_UNIT);
        assert(out@ =~= FILLER_HEADER@ + repeated(FILLER_UNIT@, (i + 1) as nat));
        i = i + 1;
    }
    out
}

/// The search for a filler of a given length in tokens.
#[derive(Debug, Clone, Copy, PartialEq, Eq, Structural)]
pub struct FillerSearch {
    pub target: u32,
    /// The length of one unit, at least one.
    pub unit: u32,
    /// The number of units to try.
    pub reps: u32,
    /// How often it was made shorter.
    pub tries: u32,
}

pub open spec fn filler_wf(f: FillerSearch) -> bool {
    f.unit >= 1 && f.reps >= 1 && f.tries <= 8
}

/// Whether a filler of `n` tokens is made shorter.
pub open spec fn too_long(f: FillerSearch, n: nat) -> bool {
    n > at_most((f.target + 64) as nat, u32::MAX as nat) && f.reps > 1 && f.tries < 8
}

/// The number of units after one step: by how much the filler is too long, at least one
/// fewer, and never none.
pub open spec fn shorter(f: FillerSearch, n: nat) -> nat {
    let over = ((n - f.target) / f.unit as int) as nat;
    let extra = if over >= 1 {
        over
    } else {
        1
    };
    if f.reps > extra {
        (f.reps - extra) as nat
    } else {
        1
    }
}

/// Where the search for a filler starts, by the length of the header and of one unit.
pub fn dummy_fat_prefix(target: u32, header_n: u32, unit_n: u32) -> (r: FillerSearch)
    ensures
        filler_wf(r),
        r.target == target,
        r.tries == 0,
        r.unit == (if unit_n >= 1 {
            unit_n
        } else {
            1
        }),
        r.reps == at_most(
            ((if target >= header_n {
                target - header_n
            } else {
                0
            }) / (r.unit as int) + 1) as nat,
            u32::MAX as nat,
        ),
{
    let unit: u32 = if unit_n >= 1 {
        unit_n
    } else {
        1
    };
    let need: u32 = if target >= header_n {
        target - header_n
    } else {
        0
    };
    let reps: u32 = (need / unit).saturating_add(1);
    FillerSearch { target, unit, reps, tries: 0 }
}

impl FillerSearch {
    /// The filler has `n` tokens. Says whether another is to be tried, and makes it
    /// shorter where it is.
    pub fn next(&mut self, n: u32) -> (again: bool)
        requires
            filler_wf(*old(self)),
        ensures
            again == too_long(*old(self), n as nat),
            again ==> *final(self) == (FillerSearch {
                reps: shorter(*old(self), n as nat) as u32,
                tries: (old(self).tries + 1) as u32,
                ..*old(self)
            }),
            !again ==> *final(self) == *old(self),
            filler_wf(*final(self)),
    {
        let cap: u32 = self.target.saturating_add(64);
        if !(n > cap && self.reps > 1 && self.tries < 8) {
            return false;
        }
        let over: u32 = (n - self.target) / self.unit;
        let extra: u32 = if over >= 1 {
            over
        } else {
            1
        };
        self.reps = if self.reps > extra {
            self.reps - extra
        } else {
            1
        };
        self.tries = self.tries + 1;
        true
    }
}

// ---------------------------------------------------------------------------
// Results
// ---------------------------------------------------------------------------

/// How one task went.
#[derive(Debug, PartialEq, Eq)]
pub struct TaskResult {
    pub name: String,
    pub ok: bool,
    pub wall_ms: u64,
    pub steps: u32,
    pub stop_reason: Option<String>,
    pub notes: String,
}

/// How a short and a long prompt went against each other.
#[derive(Debug, PartialEq, Eq)]
pub struct FatPrefixReport {
    pub lean_wall_ms: u64,
    pub fat_wall_ms: u64,
    pub fat_tokens: u32,
    pub lean_prompt_chars: usize,
    pub notes: String,
}

/// The report on a run.
#[derive(Debug, PartialEq, Eq)]
pub struct BenchReport {
    pub family: String,
    pub profile: String,
    pub quant_label: String,
    pub model: String,
    pub tasks: Vec<TaskResult>,
    pub fat_prefix: Option<FatPrefixReport>,
}

pub open spec fn json_opt_text(s: Option<Seq<char>>) -> JsonV {
    match s {
        Some(x) => JsonV::Str(x),
        None => JsonV::Null,
    }
}

/// A task's result in the report.
pub open spec fn result_json(t: TaskResult) -> JsonV {
    JsonV::Object(
        map![
            "name"@ => JsonV::Str(t.name@),
            "ok"@ => JsonV::Bool(t.ok),
            "wall_ms"@ => JsonV::Int(t.wall_ms as int),
            "steps"@ => JsonV::Int(t.steps as int),
            "stop_reason"@ => json_opt_text(opt_text(t.stop_reason)),
            "notes"@ => JsonV::Str(t.notes@),
        ],
    )
}

pub open spec fn fat_json(f: FatPrefixReport) -> JsonV {
    JsonV::Object(
        map![
            "lean_wall_ms"@ => JsonV::Int(f.lean_wall_ms as int),
            "fat_wall_ms"@ => JsonV::Int(f.fat_wall_ms as int),
            "fat_tokens"@ => JsonV::Int(f.fat_tokens as int),
            "lean_prompt_chars"@ => JsonV::Int(f.lean_prompt_chars as int),
            "notes"@ => JsonV::Str(f.notes@),
        ],
    )
}

/// The report as it is written down. What was not measured is left out.
pub open spec fn report_json(b: BenchReport) -> JsonV {
    let base = map![
        "family"@ => JsonV::Str(b.family@),
        "profile"@ => JsonV::Str(b.profile@),
        "quant_label"@ => JsonV::Str(b.quant_label@),
        "model"@ => JsonV::Str(b.model@),
        "tasks"@ => JsonV::Array(b.tasks@.map_values(|t: TaskResult| result_json(t))),
    ];
    JsonV::Object(
        match b.fat_prefix {
            Some(f) => base.insert("fat_prefix"@, fat_json(f)),
            None => base,
        },
    )
}

impl TaskResult {
    /// The result in the report.
    pub fn to_json(&self) -> (r: Json)
        ensures
            r@ == result_json(*self),
    {
        let stop = match &self.stop_reason {
            Some(s) => Json::string(s.as_str()),
            None => Json::Null,
        };
        let r = Json::object().with("name", Json::string(self.name.as_str())).with(
            "ok",
            Json::Bool(self.ok),
        ).with("wall_ms", Json::Uint(self.wall_ms)).with("steps", Json::Uint(self.steps as u64)).with(
            "stop_reason",
            stop,
        ).with("notes", Json::string(self.notes.as_str()));
        assert(fields_of(r@) =~= fields_of(result_json(*self)));
        r
    }
}

impl FatPrefixReport {
    /// The comparison in the report.
    pub fn to_json(&self) -> (r: Json)
        ensures
            r@ == fat_json(*self),
    {
        let r = Json::object().with("lean_wall_ms", Json::Uint(self.lean_wall_ms)).with(
            "fat_wall_ms",
            Json::Uint(self.fat_wall_ms),
        ).with("fat_tokens", Json::Uint(self.fat_tokens as u64)).with(
            "lean_prompt_chars",
            Json::Uint(self.lean_prompt_chars as u64),
        ).with("notes", Json::string(self.notes.as_str()));
        assert(fields_of(r@) =~= fields_of(fat_json(*self)));
        r
    }
}

impl BenchReport {
    /// The report as it is written down.
    pub fn to_json(&self) -> (r: Json)
        ensures
            r@ == report_json(*self),
    {
        let mut items: Vec<Json> = Vec::new();
        let mut i: usize = 0;
        let ghost all = self.tasks@.map_values(|t: TaskResult| result_json(t));
        assert(items_view(items@) =~= all.take(0));
        while i < self.tasks.len()
            invariant
                i <= self.tasks@.len(),
                all == self.tasks@.map_values(|t: TaskResult| result_json(t)),
                items_view(items@) == all.take(i as int),
            decreases self.tasks.len() - i,
        {
            let v = self.tasks[i].to_json();
            proof {
                lemma_items_push(items@, v);
            }
            items.push(v);
            assert(items_view(items@) =~= all.take(i + 1));
            i = i + 1;
        }
        assert(all.take(all.len() as int) =~= all);
        let base = Json::object().with("family", Json::string(self.family.as_str())).with(
            "profile",
            Json::string(self.profile.as_str()),
        ).with("quant_label", Json::string(self.quant_label.as_str())).with(
            "model",
            Json::string(self.model.as_str()),
        ).with("tasks", Json::Array(items));
        let r = match &self.fat_prefix {
            Some(f) => base.with("fat_prefix", f.to_json()),
            None => base,
        };
        assert(fields_of(r@) =~= fields_of(report_json(*self)));
        r
    }

    /// Whether every task was solved.
    pub fn all_ok(&self) -> (r: bool)
        ensures
            r == forall|i: int| 0 <= i < self.tasks@.len() ==> (#[trigger] self.tasks@[i]).ok,
    {
        let mut i: usize = 0;
        while i < self.tasks.len()
            invariant
                i <= self.tasks@.len(),
                forall|j: int| 0 <= j < i ==> (#[trigger] self.tasks@[j]).ok,
            decreases self.tasks.len() - i,
        {
            if !self.tasks[i].ok {
                return false;
            }
            i = i + 1;
        }
        true
    }
}

/// What a probe of the endpoint says of it.
#[derive(Debug, PartialEq, Eq)]
pub struct ProbeIdentity {
    pub family: String,
    pub profile: String,
    pub quant_label: String,
    pub model: String,
}

/// What the report calls the endpoint: what the probe says, and nothing invented.
pub fn identity(probe: Option<&ProbeIdentity>, model: &str) -> (r: (String, String, String, String))
    ensures
        probe matches Some(p) ==> r.0@ == p.family@ && r.1@ == p.profile@ && r.2@ == p.quant_label@
            && r.3@ == (if p.model@.len() == 0 {
            model@
        } else {
            p.model@
        }),
        probe is None ==> r.0@ == "unknown"@ && r.1@ == "unknown"@ && r.2@ == "unknown"@ && r.3@
            == model@,
{
    match probe {
        Some(p) => {
            let own: String = if p.model.as_str().unicode_len() == 0 {
                model.to_owned()
            } else {
                p.model.clone()
            };
            (p.family.clone(), p.profile.clone(), p.quant_label.clone(), own)
        },
        None => (
            "unknown".to_owned(),
            "unknown".to_owned(),
            "unknown".to_owned(),
            model.to_owned(),
        ),
    }
}

/// The model that the notes of a result name; empty where they name none.
pub open spec fn noted_model(notes: Seq<char>) -> Seq<char> {
    match part_after(notes, "model="@) {
        Some(rest) => trimmed(part_before(part_before(rest, "model="@), ";"@)),
        None => Seq::empty(),
    }
}

/// The model that the notes of a result name; empty where they name none.
pub fn model_in_notes(notes: &str) -> (r: String)
    ensures
        r@ == noted_model(notes@),
{
    match after(notes, "model=") {
        Some(rest) => {
            let one = before(rest.as_str(), "model=");
            trim(before(one.as_str(), ";").as_str())
        },
        None => String::new(),
    }
}

// ---------------------------------------------------------------------------
// Runs of the program
// ---------------------------------------------------------------------------

/// A line that says that a tool ran.
pub open spec fn tool_line(l: Seq<char>) -> bool {
    has_prefix(l, "[read]"@) || has_prefix(l, "[write]"@) || has_prefix(l, "[edit]"@) || has_prefix(
        l,
        "[bash]"@,
    ) || has_prefix(l, "[run_code]"@)
}

/// A line that says why a run ended.
pub open spec fn stop_line(l: Seq<char>) -> bool {
    holds(l, "budget:context"@) || holds(l, "max iterations"@)
}

/// How many of the first `n` lines say that a tool ran.
pub open spec fn tool_lines(ls: Seq<Seq<char>>, n: nat) -> nat
    decreases n,
{
    if n == 0 {
        0
    } else {
        tool_lines(ls, (n - 1) as nat) + (if tool_line(ls[n - 1]) {
            1nat
        } else {
            0nat
        })
    }
}

/// The last of the first `n` lines that says why a run ended.
pub open spec fn last_stop(ls: Seq<Seq<char>>, n: nat) -> Option<Seq<char>>
    decreases n,
{
    if n == 0 {
        None
    } else if stop_line(ls[n - 1]) {
        Some(trimmed(ls[n - 1]))
    } else {
        last_stop(ls, (n - 1) as nat)
    }
}

/// The first line, from `i` on, that names the model.
pub open spec fn model_line(ls: Seq<Seq<char>>, i: int) -> Seq<char>
    decreases ls.len() - i,
{
    if i < 0 || i >= ls.len() {
        Seq::empty()
    } else {
        match strip_prefix_of(ls[i], "model: "@) {
            Some(m) => m,
            None => model_line(ls, i + 1),
        }
    }
}

fn is_tool_line(l: &str) -> (r: bool)
    ensures
        r == tool_line(l@),
{
    starts_with(l, "[read]") || starts_with(l, "[write]") || starts_with(l, "[edit]")
        || starts_with(l, "[bash]") || starts_with(l, "[run_code]")
}

/// The number of steps and the reason for the end, by what a run wrote: each tool is a
/// step, and so is the answer.
pub fn parse_spawn_meta(stderr: &str) -> (r: (u32, Option<String>))
    ensures
        r.0 == at_most(
            tool_lines(lines_of(stderr@), lines_of(stderr@).len()) + 1,
            u32::MAX as nat,
        ),
        opt_text(r.1) == last_stop(lines_of(stderr@), lines_of(stderr@).len()),
{
    let ls = lines(stderr);
    let ghost lv = lines_of(stderr@);
    let mut tools: u32 = 0;
    let mut reason: Option<String> = None;
    let mut i: usize = 0;
    assert(ls@.len() == lv.len());
    while i < ls.len()
        invariant
            i <= ls@.len(),
            texts(ls@) == lv,
            ls@.len() == lv.len(),
            tools == at_most(tool_lines(lv, i as nat), u32::MAX as nat),
            opt_text(reason) == last_stop(lv, i as nat),
        decreases ls.len() - i,
    {
        assert(lv[i as int] == ls@[i as int]@);
        let l = ls[i].as_str();
        if is_tool_line(l) {
            tools = tools.saturating_add(1);
        }
        if contains(l, "budget:context") || contains(l, "max iterations") {
            reason = Some(trim(l));
        }
        i = i + 1;
    }
    (tools.saturating_add(1), reason)
}

/// The model that a run wrote that it used; empty where it wrote none.
pub fn spawn_model(stderr: &str) -> (r: String)
    ensures
        r@ == model_line(lines_of(stderr@), 0),
{
    let ls = lines(stderr);
    let ghost lv = lines_of(stderr@);
    let mut i: usize = 0;
    assert(ls@.len() == lv.len());
    while i < ls.len()
        invariant
            i <= ls@.len(),
            texts(ls@) == lv,
            ls@.len() == lv.len(),
            lv == lines_of(stderr@),
            model_line(lv, 0) == model_line(lv, i as int),
        decreases ls.len() - i,
    {
        assert(lv[i as int] == ls@[i as int]@);
        if let Some(m) = strip_prefix(ls[i].as_str(), "model: ") {
            return m;
        }
        i = i + 1;
    }
    String::new()
}

/// How a run of the program ended.
#[derive(Debug, PartialEq, Eq)]
pub enum SpawnOutcome {
    Ended {
        success: bool,
        /// The exit status in words.
        status: String,
        stderr: String,
    },
    /// It could not be waited for, and why.
    Broken(String),
    TimedOut,
}

/// What the report says of how a task was run.
pub open spec fn spawn_notes(bin: Seq<char>, outcome: SpawnOutcome) -> Seq<char> {
    match outcome {
        SpawnOutcome::Ended { success, status, stderr } => (if success {
            "runner=q38-bin "@ + bin
        } else {
            "runner=q38-bin exit="@ + status@
        }) + " model="@ + model_line(lines_of(stderr@), 0),
        SpawnOutcome::Broken(e) => "runner=q38-bin error="@ + e@,
        SpawnOutcome::TimedOut => "runner=q38-bin timed out"@,
    }
}

pub open spec fn with_eval_notes(runner: Seq<char>, notes: Seq<char>) -> Seq<char> {
    if notes.len() == 0 {
        runner
    } else {
        runner + "; "@ + notes
    }
}

/// The result of a task: what ran it, and how it was judged.
pub fn eval_after(
    name: &str,
    ev: &Eval,
    wall_ms: u64,
    steps: u32,
    stop_reason: Option<String>,
    runner_notes: &str,
) -> (r: TaskResult)
    ensures
        r.name@ == name@,
        r.ok == ev.ok,
        r.wall_ms == wall_ms,
        r.steps == steps,
        r.stop_reason == stop_reason,
        r.notes@ == with_eval_notes(runner_notes@, ev.notes@),
{
    let notes: String = if ev.notes.as_str().unicode_len() == 0 {
        runner_notes.to_owned()
    } else {
        text3(runner_notes, "; ", ev.notes.as_str())
    };
    TaskResult { name: name.to_owned(), ok: ev.ok, wall_ms, steps, stop_reason, notes }
}

/// The result of a task that the program ran.
pub fn run_via_q38(name: &str, bin: &str, outcome: &SpawnOutcome, wall_ms: u64, ev: &Eval) -> (r:
    TaskResult)
    ensures
        r.name@ == name@,
        r.ok == ev.ok,
        r.wall_ms == wall_ms,
        r.notes@ == with_eval_notes(spawn_notes(bin@, *outcome), ev.notes@),
        match *outcome {
            SpawnOutcome::Ended { success, status, stderr } => {
                let ls = lines_of(stderr@);
                r.steps == at_most(tool_lines(ls, ls.len()) + 1, u32::MAX as nat) && opt_text(
                    r.stop_reason,
                ) == last_stop(ls, ls.len())
            },
            SpawnOutcome::Broken(e) => r.steps == 0 && opt_text(r.stop_reason) == Some(
                "spawn-failed"@,
            ),
            SpawnOutcome::TimedOut => r.steps == 0 && opt_text(r.stop_reason) == Some("timeout"@),
        },
{
    match outcome {
        SpawnOutcome::Ended { success, status, stderr } => {
            let (steps, reason) = parse_spawn_meta(stderr.as_str());
            let model = spawn_model(stderr.as_str());
            let notes: String = if *success {
                text4("runner=q38-bin ", bin, " model=", model.as_str())
            } else {
                text4("runner=q38-bin exit=", status.as_str(), " model=", model.as_str())
            };
            eval_after(name, ev, wall_ms, steps, reason, notes.as_str())
        },
        SpawnOutcome::Broken(e) => eval_after(
            name,
            ev,
            wall_ms,
            0,
            Some("spawn-failed".to_owned()),
            text2("runner=q38-bin error=", e.as_str()).as_str(),
        ),
        SpawnOutcome::TimedOut => eval_after(
            name,
            ev,
            wall_ms,
            0,
            Some("timeout".to_owned()),
            "runner=q38-bin timed out",
        ),
    }
}

/// The result of a task that a session in this process ran; `failed` says why it broke
/// off, where it did.
pub fn run_via_agent(
    name: &str,
    model: &str,
    wall_ms: u64,
    steps: u32,
    stop_reason: Option<String>,
    failed: Option<&str>,
    ev: &Eval,
) -> (r: TaskResult)
    ensures
        r.name@ == name@,
        r.ok == ev.ok,
        r.wall_ms == wall_ms,
        failed is None ==> r.steps == steps && r.stop_reason == stop_reason && r.notes@
            == "runner=agent model="@ + model@ + "; "@ + ev.notes@,
        failed matches Some(e) ==> r.steps == 0 && opt_text(r.stop_reason) == Some("agent-error"@)
            && r.notes@ == "runner=agent model="@ + model@ + "; "@ + e@ + "; "@ + ev.notes@,
{
    match failed {
        None => {
            let notes = text4("runner=agent model=", model, "; ", ev.notes.as_str());
            TaskResult { name: name.to_owned(), ok: ev.ok, wall_ms, steps, stop_reason, notes }
        },
        Some(e) => {
            let mut notes = text4("runner=agent model=", model, "; ", e);
            notes.append("; ");
            notes.append(ev.notes.as_str());
            TaskResult {
                name: name.to_owned(),
                ok: ev.ok,
                wall_ms,
                steps: 0,
                stop_reason: Some("agent-error".to_owned()),
                notes,
            }
        },
    }
}

/// The options of a session that runs a task.
pub fn bench_opts(
    base: RunOpts,
    name: &str,
    stamp: u64,
    fat_agents_md: bool,
    max_tokens: u32,
    max_think_tokens: u32,
) -> (r: RunOpts)
    ensures
        r.session_id@ == "bench-"@ + name@ + "-"@ + decimal(stamp as nat),
        r == (RunOpts {
            print: true,
            with_tools: true,
            tool_set: ToolSet::Agent,
            agents_md: fat_agents_md,
            agents_md_max_tokens: if fat_agents_md {
                24_000
            } else {
                0
            },
            working_window: 262_144,
            generation_reserve: at_most(
                (max_tokens + max_think_tokens) as nat,
                u32::MAX as nat,
            ) as u32,
            max_steps: if base.max_steps <= 24 {
                base.max_steps
            } else {
                24
            },
            effort_locked: false,
            session_id: r.session_id,
            ..base
        }),
{
    let max_steps: u32 = if base.max_steps <= 24 {
        base.max_steps
    } else {
        24
    };
    RunOpts {
        print: true,
        with_tools: true,
        tool_set: ToolSet::Agent,
        agents_md: fat_agents_md,
        agents_md_max_tokens: if fat_agents_md {
            24_000
        } else {
            0
        },
        working_window: CODING_CTX_TOKENS,
        generation_reserve: max_tokens.saturating_add(max_think_tokens),
        max_steps,
        effort_locked: false,
        session_id: text4("bench-", name, "-", show_u64(stamp).as_str()),
        ..base
    }
}

pub open spec fn yes_no(b: bool) -> Seq<char> {
    if b {
        "true"@
    } else {
        "false"@
    }
}

fn truth(b: bool) -> (r: &'static str)
    ensures
        r@ == yes_no(b),
{
    if b {
        "true"
    } else {
        "false"
    }
}

/// What the report says of the comparison; `extra_s` is the time that the long prompt
/// should cost, where it is known.
pub fn fat_notes(extra_s: Option<&str>, lean_ok: bool, fat_ok: bool) -> (r: String)
    ensures
        r@ == "same endpoint, window="@ + decimal(262_144)
            + "; dummy filler via qwen38 tokenizer (not Hermes)"@ + (match opt_str(extra_s) {
            Some(x) => "; expected extra prefill ~"@ + x + "s"@,
            None => Seq::empty(),
        }) + "; lean_ok="@ + yes_no(lean_ok) + " fat_ok="@ + yes_no(fat_ok),
{
    let mut out = text3(
        "same endpoint, window=",
        show_u64(CODING_CTX_TOKENS as u64).as_str(),
        "; dummy filler via qwen38 tokenizer (not Hermes)",
    );
    let extra: String = match extra_s {
        Some(x) => text3("; expected extra prefill ~", x, "s"),
        None => String::new(),
    };
    assert(extra@ =~= (match opt_str(extra_s) {
        Some(x) => "; expected extra prefill ~"@ + x + "s"@,
        None => Seq::empty(),
    }));
    out.append(extra.as_str());
    out.append("; lean_ok=");
    out.append(truth(lean_ok));
    out.append(" fat_ok=");
    out.append(truth(fat_ok));
    out
}

// ---------------------------------------------------------------------------
// Laws
// ---------------------------------------------------------------------------

/// Each step of the search for a filler makes it shorter, so that it ends.
pub proof fn law_filler_search_ends(f: FillerSearch, n: nat)
    requires
        filler_wf(f),
        too_long(f, n),
        n <= u32::MAX,
    ensures
        1 <= shorter(f, n) < f.reps,
{
}

/// What a run wrote is read line by line: a line of a tool is a step, and the last line that
/// says so is why it ended.
pub proof fn law_what_a_run_wrote(ls: Seq<Seq<char>>, n: nat)
    requires
        n < ls.len(),
    ensures
        tool_lines(ls, 0) == 0,
        last_stop(ls, 0) is None,
        ({
            let l = ls[n as int];
            let tool = has_prefix(l, "[read]"@) || has_prefix(l, "[write]"@) || has_prefix(
                l,
                "[edit]"@,
            ) || has_prefix(l, "[bash]"@) || has_prefix(l, "[run_code]"@);
            let stop = holds(l, "budget:context"@) || holds(l, "max iterations"@);
            &&& tool ==> tool_lines(ls, n + 1) == tool_lines(ls, n) + 1
            &&& !tool ==> tool_lines(ls, n + 1) == tool_lines(ls, n)
            &&& stop ==> last_stop(ls, n + 1) == Some(trimmed(l))
            &&& !stop ==> last_stop(ls, n + 1) == last_stop(ls, n)
        }),
{
}

/// The model of a run is what its first line of that kind names.
pub proof fn law_the_first_model_line_counts(ls: Seq<Seq<char>>, i: int, m: Seq<char>)
    requires
        0 <= i < ls.len(),
        ls[i] == "model: "@ + m,
        forall|j: int| 0 <= j < i ==> !has_prefix(#[trigger] ls[j], "model: "@),
    ensures
        model_line(ls, 0) == m,
{
    lemma_model_line(ls, i, m, 0);
}

proof fn lemma_model_line(ls: Seq<Seq<char>>, i: int, m: Seq<char>, k: int)
    requires
        0 <= k <= i < ls.len(),
        ls[i] == "model: "@ + m,
        forall|j: int| 0 <= j < i ==> !has_prefix(#[trigger] ls[j], "model: "@),
    ensures
        model_line(ls, k) == m,
    decreases i - k,
{
    if k < i {
        assert(!has_prefix(ls[k], "model: "@));
        lemma_model_line(ls, i, m, k + 1);
    } else {
        let p = "model: "@;
        assert(ls[i].subrange(0, p.len() as int) =~= p);
        assert(ls[i].skip(p.len() as int) =~= m);
    }
}

/// The model that notes name stands behind `model=`, up to a semicolon.
pub proof fn law_the_notes_name_the_model(a: Seq<char>, m: Seq<char>, b: Seq<char>)
    requires
        !holds(a, "model="@),
        !m.contains(';') && !m.contains('m'),
        m.len() > 0,
        !crate::text::white(m[0]) && !crate::text::white(m.last()),
        !b.contains('m'),
    ensures
        noted_model(a + "model="@ + m + ";"@ + b) == m,
        noted_model(a).len() == 0,
{
    reveal_strlit("model=");
    reveal_strlit(";");
    let tag = "model="@;
    let rest = m + ";"@ + b;
    let s = a + tag + m + ";"@ + b;
    assert(s =~= a + tag + rest);
    crate::text::lemma_find_tag(a, tag, rest);
    assert(s.skip((a.len() + tag.len()) as int) =~= rest);
    assert(!rest.contains('m')) by {
        assert forall|i: int| 0 <= i < rest.len() implies rest[i] != 'm' by {
            if i < m.len() {
                assert(m.contains(m[i]));
            } else if i > m.len() {
                assert(b.contains(b[i - m.len() - 1]));
            }
        }
    }
    crate::text::lemma_find_from(rest, tag, 0);
    if let Some(i) = crate::text::find(rest, tag) {
        assert(rest.subrange(i, i + 6)[0] == rest[i]);
        assert(rest.contains(rest[i]));
    }
    let semi = ";"@;
    let tail = semi + b;
    assert(rest =~= m + tail);
    crate::text::lemma_find_past(m, tail, semi, 0);
    crate::text::lemma_find_behind(m, tail, semi, 0);
    assert(tail.subrange(0, 1) =~= semi);
    assert(crate::text::at(tail, semi, 0));
    assert(crate::text::find(rest, semi) == Some(m.len() as int));
    assert(rest.take(m.len() as int) =~= m);
    let e = Seq::<char>::empty();
    crate::text::law_trimming_takes_the_ends(e, m, e);
    assert(e + m + e =~= m);
    crate::text::lemma_find_from(a, tag, 0);
}

/// What the report says of a run: how it was judged stands behind how it was run.
pub proof fn law_what_a_report_says(bin: Seq<char>, status: String, stderr: String, notes: Seq<char>)
    ensures
        notes.len() > 0 ==> with_eval_notes(bin, notes) == bin + "; "@ + notes,
        notes.len() == 0 ==> with_eval_notes(bin, notes) == bin,
        spawn_notes(bin, SpawnOutcome::Ended { success: true, status, stderr }) == "runner=q38-bin "@
            + bin + " model="@ + model_line(lines_of(stderr@), 0),
        spawn_notes(bin, SpawnOutcome::Ended { success: false, status, stderr })
            == "runner=q38-bin exit="@ + status@ + " model="@ + model_line(lines_of(stderr@), 0),
        spawn_notes(bin, SpawnOutcome::TimedOut) == "runner=q38-bin timed out"@,
{
}

/// A filler is its header and so many units.
pub proof fn law_a_filler_grows_by_its_units(n: nat)
    ensures
        filler(0) == FILLER_HEADER@,
        filler(n + 1) == filler(n) + " lorem"@,
{
    assert(FILLER_HEADER@ + Seq::<char>::empty() =~= FILLER_HEADER@);
    assert(filler(n + 1) =~= filler(n) + FILLER_UNIT@);
}

/// A result is written down with all that it says.
pub proof fn law_what_is_written_down(t: TaskResult, f: FatPrefixReport, b: BenchReport)
    ensures
        ({
            let r = result_json(t);
            &&& r.field("name"@) == Some(JsonV::Str(t.name@))
            &&& r.field("ok"@) == Some(JsonV::Bool(t.ok))
            &&& r.field("wall_ms"@) == Some(JsonV::Int(t.wall_ms as int))
            &&& r.field("steps"@) == Some(JsonV::Int(t.steps as int))
            &&& r.field("notes"@) == Some(JsonV::Str(t.notes@))
            &&& t.stop_reason is None ==> r.field("stop_reason"@) == Some(JsonV::Null)
            &&& t.stop_reason matches Some(s) ==> r.field("stop_reason"@) == Some(JsonV::Str(s@))
        }),
        ({
            let j = report_json(b);
            &&& j.field("family"@) == Some(JsonV::Str(b.family@))
            &&& j.field("profile"@) == Some(JsonV::Str(b.profile@))
            &&& j.field("quant_label"@) == Some(JsonV::Str(b.quant_label@))
            &&& j.field("model"@) == Some(JsonV::Str(b.model@))
            &&& j.at("tasks"@) is Array && j.at("tasks"@)->Array_0.len() == b.tasks@.len()
            &&& b.fat_prefix is None ==> j.field("fat_prefix"@) is None
            &&& b.fat_prefix matches Some(x) ==> j.field("fat_prefix"@) == Some(fat_json(x))
        }),
        fat_json(f).field("lean_wall_ms"@) == Some(JsonV::Int(f.lean_wall_ms as int)),
        fat_json(f).field("fat_wall_ms"@) == Some(JsonV::Int(f.fat_wall_ms as int)),
        fat_json(f).field("fat_tokens"@) == Some(JsonV::Int(f.fat_tokens as int)),
        fat_json(f).field("notes"@) == Some(JsonV::Str(f.notes@)),
{
    reveal_strlit("name");
    reveal_strlit("ok");
    reveal_strlit("wall_ms");
    reveal_strlit("steps");
    reveal_strlit("stop_reason");
    reveal_strlit("notes");
    assert("name"@.len() == 4 && "ok"@.len() == 2 && "wall_ms"@.len() == 7 && "steps"@.len() == 5 && "stop_reason"@.len() == 11 && "notes"@.len() == 5);
    assert("steps"@[0] == 's' && "notes"@[0] == 'n');
    reveal_strlit("family");
    reveal_strlit("profile");
    reveal_strlit("quant_label");
    reveal_strlit("model");
    reveal_strlit("tasks");
    reveal_strlit("fat_prefix");
    assert("family"@.len() == 6 && "profile"@.len() == 7 && "quant_label"@.len() == 11 && "model"@.len() == 5 && "tasks"@.len() == 5 && "fat_prefix"@.len() == 10);
    assert("model"@[0] == 'm' && "tasks"@[0] == 't');
    reveal_strlit("lean_wall_ms");
    reveal_strlit("fat_wall_ms");
    reveal_strlit("fat_tokens");
    reveal_strlit("lean_prompt_chars");
    assert("lean_wall_ms"@.len() == 12 && "fat_wall_ms"@.len() == 11 && "fat_tokens"@.len() == 10 && "lean_prompt_chars"@.len() == 17);
}

/// How a truth value is written.
pub proof fn law_how_truth_is_written(b: bool)
    ensures
        b ==> yes_no(b) == "true"@,
        !b ==> yes_no(b) == "false"@,
{
}

} // verus!
