use q38::bench::{
    apply_golden, copies_entry, evaluate, evaluate_live, extract_fn, fixture_dir, scale, task_file,
    tasks, test_fix_file, validate_fixture, wants_test_run, Eval, TestRun, CODING_CTX_TOKENS, EXPECTED_BANNER,
    FAT_PREFIX_TARGET_TOKENS,
};
use q38::cli::{
    effort_locked, end_probe, handle_inbound, inbound_reply, inbound_route, intercept_slash,
    keeps_session, local_slash_text, low_precision_after, open_failure, print_slash_result,
    probe_exit, prompt_of, prompt_opts, real_main, resolve_session_id, rpc, settle_session,
    slash_kind, slash_outcome, takes_model, turn_after_slash, turn_exit, Entry, InboundRoute,
    LocalText, ProbeOverrides, ServerNames, SessionAnswer, SessionArgs, SessionPick, SlashCmd,
    SlashKind, SlashOutcome, TurnArgs, TurnStart,
};
use q38::json::Json;
use q38::outside::{parse_json, print_json};
use q38::policy::ThinkPolicy;
use q38::report::{
    bench_opts, dummy_fat_prefix, eval_after, fat_notes, filler_text, identity, model_in_notes,
    parse_spawn_meta, run_via_agent, run_via_q38, spawn_model, BenchReport, FatPrefixReport,
    ProbeIdentity, SpawnOutcome, TaskResult,
};
use q38::setup::{RunOpts, SessionMode, Settings, ToolSet, CODING_SYSTEM_PROMPT};

#[test]
fn scale_doubles() {
    assert_eq!(scale(3), 6);
    assert_eq!(scale(0), 0);
    assert_eq!(scale(-2), -4);
}

#[test]
fn three_tasks() {
    let tasks = tasks();
    assert_eq!(tasks.len(), 3);
    assert_eq!(tasks[0].name, "01-read-edit");
    assert_eq!(tasks[1].name, "02-multi-file");
    assert_eq!(tasks[2].name, "03-test-fix");
}

#[test]
fn coding_window_is_262k() {
    assert_eq!(CODING_CTX_TOKENS, 262_144);
    assert!(!CODING_SYSTEM_PROMPT.is_empty());
}

#[test]
fn identity_does_not_invent_ud_q8() {
    let (fam, prof, quant, model) = identity(None, "foo");
    assert_eq!(fam, "unknown");
    assert_eq!(prof, "unknown");
    assert_eq!(quant, "unknown");
    assert_eq!(model, "foo");
    assert_ne!(quant, "ud-q8");
}

#[test]
fn identity_follows_the_probe() {
    let probe = ProbeIdentity {
        family: "qwen38".into(),
        profile: "llamacpp".into(),
        quant_label: "ud-q8".into(),
        model: String::new(),
    };
    let (fam, prof, quant, model) = identity(Some(&probe), "foo");
    assert_eq!((fam.as_str(), prof.as_str()), ("qwen38", "llamacpp"));
    assert_eq!((quant.as_str(), model.as_str()), ("ud-q8", "foo"));
}

const TEST_FIX_SOURCE: &str = "/// Double a length. The unit tests expect 2*n, not n squared.
pub fn scale(n: i32) -> i32 {
    n * n
}

#[cfg(test)]
mod tests {
    use super::*;

    #[test]
    fn scale_doubles() {
        assert_eq!(scale(3), 6);
        assert_eq!(scale(0), 0);
        assert_eq!(scale(-2), -4);
    }
}
";

#[test]
fn the_third_task_is_solved_by_its_known_good_change() {
    assert_eq!(test_fix_file(), TEST_FIX_SOURCE);
    assert!(!evaluate("03-test-fix", Some(&test_fix_file())).ok);
    let patched = apply_golden("03-test-fix", &test_fix_file()).unwrap();
    assert_eq!(patched, TEST_FIX_SOURCE.replace("n * n", "n * 2"));
    assert!(evaluate("03-test-fix", Some(&patched)).ok);
}

#[test]
fn extract_scale_fn() {
    let f = extract_fn(TEST_FIX_SOURCE, "scale").unwrap();
    assert!(f.contains("n * n"));
    assert!(!f.contains("mod tests"));
    assert_eq!(f, "fn scale(n: i32) -> i32 {\n    n * n\n}");
    assert!(extract_fn(TEST_FIX_SOURCE, "missing").is_none());
    assert!(extract_fn("fn scale", "scale").is_none());
    assert_eq!(extract_fn("fn f() { {", "f").as_deref(), Some("fn f() "));
}

#[test]
fn unsolved_fail_golden_pass() {
    let sources = [
        ("01-read-edit", "fn main() {\n    println!(\"old\");\n}\n"),
        ("02-multi-file", "pub const BANNER: &str = \"alpha\";\n"),
        ("03-test-fix", TEST_FIX_SOURCE),
    ];
    for (name, src) in sources {
        let unsolved = evaluate(name, Some(src));
        assert!(!unsolved.ok, "{name}");
        let patched = evaluate(name, Some(&apply_golden(name, src).unwrap()));
        assert!(patched.ok, "{name}: {}", patched.notes);
        let line = validate_fixture(name, &unsolved, &patched).unwrap();
        assert!(line.starts_with(name) && line.contains("unsolved=fail  patched=ok"), "{line}");
        assert!(validate_fixture(name, &patched, &patched)
            .unwrap_err()
            .contains("already passes"));
        assert!(validate_fixture(name, &unsolved, &unsolved)
            .unwrap_err()
            .contains("golden patch failed: "));
    }
    assert_eq!(apply_golden("x", "y"), Err("unknown task x".to_owned()));
}

#[test]
fn each_way_to_miss_a_task_is_named() {
    let notes = |name: &str, src: Option<&str>| evaluate(name, src).notes;
    assert_eq!(notes("01-read-edit", None), "missing src/main.rs");
    assert_eq!(
        notes("01-read-edit", Some("x")),
        "src/main.rs does not contain println!(\"new\")"
    );
    assert_eq!(
        notes("01-read-edit", Some("println!(\"new\") // old")),
        "src/main.rs still contains old"
    );
    assert_eq!(notes("02-multi-file", None), "missing src/lib.rs");
    assert_eq!(notes("02-multi-file", Some("x")), "src/lib.rs does not contain q38-ok");
    assert_eq!(
        notes("02-multi-file", Some("q38-ok \"alpha\"")),
        "src/lib.rs still has BANNER alpha"
    );
    assert_eq!(notes("03-test-fix", None), "missing src/lib.rs");
    assert_eq!(notes("03-test-fix", Some("fn scale() {}")), "unit tests were removed");
    assert_eq!(
        notes("03-test-fix", Some(&TEST_FIX_SOURCE.replace("scale(0), 0", "scale(0), 1"))),
        "assert changed or missing: assert_eq!(scale(0), 0)"
    );
    assert_eq!(
        notes("03-test-fix", Some(&TEST_FIX_SOURCE.replace("fn scale(n", "fn other(n").replace("fn scale_", "fn x_"))),
        "could not find pub fn scale"
    );
    assert_eq!(
        notes("03-test-fix", Some(TEST_FIX_SOURCE)),
        "scale still squares n (fix the implementation, not the test)"
    );
    assert_eq!(notes("04", Some("x")), "unknown task 04");
    assert_eq!(task_file("01-read-edit").as_deref(), Some("src/main.rs"));
    assert_eq!(task_file("03-test-fix").as_deref(), Some("src/lib.rs"));
    assert_eq!(task_file("04"), None);
    assert_eq!(EXPECTED_BANNER, "q38-ok");
}

#[test]
fn a_red_run_fails_the_task() {
    let ok = || Eval { ok: true, notes: "n".into() };
    assert!(wants_test_run("03-test-fix", &ok()));
    assert!(!wants_test_run("01-read-edit", &ok()));
    let live = |name: &str, run: TestRun| evaluate_live(name, ok(), &run);
    assert_eq!(live("03-test-fix", TestRun::Passed).notes, "n; cargo test passed");
    let red = live("03-test-fix", TestRun::Failed);
    assert!(!red.ok);
    assert_eq!(red.notes, "n; cargo test failed");
    let skipped = live("03-test-fix", TestRun::Skipped("no cargo".into()));
    assert!(skipped.ok);
    assert_eq!(skipped.notes, "n; cargo test skipped: no cargo");
    assert_eq!(live("01-read-edit", TestRun::Failed), ok());
}

#[test]
fn build_outputs_are_not_copied() {
    assert!(copies_entry("src"));
    assert!(!copies_entry("target"));
    assert!(!copies_entry(".git"));
    assert_eq!(fixture_dir("/b", &tasks()[2]), "/b/fixtures/03-test-fix");
    assert_eq!(fixture_dir("/b/", &tasks()[2]), "/b/fixtures/03-test-fix");
    assert_eq!(fixture_dir("", &tasks()[2]), "fixtures/03-test-fix");
}

#[test]
fn the_filler_settles_near_its_target() {
    // A tokenizer that needs one token for a unit and twenty for the header.
    let count = |text: &str| (text.matches(" lorem").count() + 20) as u32;
    let mut f = dummy_fat_prefix(FAT_PREFIX_TARGET_TOKENS, 20, 1);
    assert_eq!(f.reps, 11_981);
    assert!(!f.next(count(&filler_text(f.reps))));
    let n = count(&filler_text(f.reps));
    assert!((11_500..=13_500).contains(&n), "{n}");
    // One that needs two for a unit that was thought to need one.
    let mut f = dummy_fat_prefix(1000, 0, 1);
    let mut tries = 0;
    loop {
        let n = 2 * f.reps;
        if !f.next(n) {
            break;
        }
        tries += 1;
    }
    assert!(tries <= 8);
    assert!(2 * f.reps <= 1064 || f.reps == 1, "{}", f.reps);
    assert!(filler_text(2).ends_with("files.\n lorem lorem"));
    assert_eq!(dummy_fat_prefix(10, 0, 0).unit, 1);
    assert_eq!(dummy_fat_prefix(10, 90, 3).reps, 1);
}

fn sample_report() -> BenchReport {
    BenchReport {
        family: "qwen38".into(),
        profile: "llamacpp".into(),
        quant_label: "ud-q8".into(),
        model: "Qwen3.8-27B".into(),
        tasks: vec![TaskResult {
            name: "01-read-edit".into(),
            ok: true,
            wall_ms: 1200,
            steps: 3,
            stop_reason: None,
            notes: "ok".into(),
        }],
        fat_prefix: Some(FatPrefixReport {
            lean_wall_ms: 1000,
            fat_wall_ms: 13000,
            fat_tokens: 12000,
            lean_prompt_chars: 200,
            notes: "dummy".into(),
        }),
    }
}

#[test]
fn report_json_shape() {
    let v = sample_report().to_json();
    for key in ["family", "profile", "quant_label", "model", "tasks"] {
        assert!(v.get(key).is_some(), "missing {key}");
    }
    assert_eq!(v.text_at("family"), Some("qwen38"));
    assert_eq!(v.text_at("quant_label"), Some("ud-q8"));
    let t = v.get("tasks").and_then(|t| t.first()).unwrap();
    for key in ["name", "ok", "wall_ms", "steps", "stop_reason", "notes"] {
        assert!(t.get(key).is_some(), "task missing {key}");
    }
    assert!(t.get("stop_reason").unwrap().is_null());
    let fp = v.get("fat_prefix").unwrap();
    assert!(fp.get("lean_wall_ms").is_some());
    assert!(fp.get("fat_wall_ms").is_some());
    assert!(fp.get("fat_tokens").is_some());
}

#[test]
fn a_report_without_a_comparison_has_no_field_for_it() {
    let mut r = sample_report();
    r.fat_prefix = None;
    assert!(r.to_json().get("fat_prefix").is_none());
    assert!(r.all_ok());
    r.tasks[0].ok = false;
    assert!(!r.all_ok());
}

#[test]
fn runs_are_read_from_what_they_wrote() {
    let stderr = "model: qwen\n[read] a\n[bash] ls\nnote\n  stop: max iterations \n";
    assert_eq!(
        parse_spawn_meta(stderr),
        (3, Some("stop: max iterations".to_owned()))
    );
    assert_eq!(parse_spawn_meta(""), (1, None));
    assert_eq!(spawn_model(stderr), "qwen");
    assert_eq!(spawn_model("x"), "");
    let ev = Eval { ok: true, notes: "fine".into() };
    let ended = |success: bool| SpawnOutcome::Ended {
        success,
        status: "exit status: 2".into(),
        stderr: stderr.into(),
    };
    let r = run_via_q38("t", "/bin/q38", &ended(true), 7, &ev);
    assert_eq!(r.notes, "runner=q38-bin /bin/q38 model=qwen; fine");
    assert_eq!((r.steps, r.wall_ms, r.ok), (3, 7, true));
    let r = run_via_q38("t", "/bin/q38", &ended(false), 7, &ev);
    assert_eq!(r.notes, "runner=q38-bin exit=exit status: 2 model=qwen; fine");
    let r = run_via_q38("t", "/bin/q38", &SpawnOutcome::TimedOut, 7, &ev);
    assert_eq!(r.stop_reason.as_deref(), Some("timeout"));
    assert_eq!(r.notes, "runner=q38-bin timed out; fine");
    let r = run_via_q38("t", "/bin/q38", &SpawnOutcome::Broken("gone".into()), 7, &ev);
    assert_eq!(r.stop_reason.as_deref(), Some("spawn-failed"));
    assert_eq!(r.notes, "runner=q38-bin error=gone; fine");
    let quiet = Eval { ok: false, notes: String::new() };
    assert_eq!(eval_after("t", &quiet, 1, 2, None, "runner").notes, "runner");
    let r = run_via_agent("t", "m", 1, 9, None, None, &ev);
    assert_eq!((r.steps, r.notes.as_str()), (9, "runner=agent model=m; fine"));
    let r = run_via_agent("t", "m", 1, 9, None, Some("boom"), &ev);
    assert_eq!(r.steps, 0);
    assert_eq!(r.stop_reason.as_deref(), Some("agent-error"));
    assert_eq!(r.notes, "runner=agent model=m; boom; fine");
    assert_eq!(model_in_notes("runner=agent model= qwen ; fine"), "qwen");
    assert_eq!(model_in_notes("nothing"), "");
    assert_eq!(
        fat_notes(Some("4.0"), true, false),
        "same endpoint, window=262144; dummy filler via qwen38 tokenizer (not Hermes); expected extra prefill ~4.0s; lean_ok=true fat_ok=false"
    );
    assert!(fat_notes(None, true, true).ends_with("Hermes); lean_ok=true fat_ok=true"));
}

fn settings() -> Settings {
    Settings {
        workspace_write_only: false,
        skills_auto_catalog: false,
        mcp_auto_catalog: false,
        max_steps: 40,
        max_wall_seconds: 900,
        max_steps_unattended: 500,
        max_wall_unattended_seconds: 0,
        max_tokens: 4096,
        max_think_tokens_xhigh: 8192,
        low_precision: false,
        agents_md_max_tokens: 800,
        working_window: 100_000,
        working_window_overlay: None,
        code_timeout_s: 60,
        inherit_env: false,
        web_enabled: false,
        media_enabled: false,
        media_max_bytes: 10,
        prompt_file: "AGENT.md".to_owned(),
        prompt_coding: true,
        prompt_narrate: false,
    }
}

fn opts() -> RunOpts {
    RunOpts::from_config(&settings(), "/w".to_owned(), None)
}

#[test]
fn a_task_runs_in_the_full_window() {
    let o = bench_opts(opts(), "01-read-edit", 17, true, 10, 20);
    assert_eq!(o.session_id, "bench-01-read-edit-17");
    assert_eq!(o.working_window, 262_144);
    assert_eq!(o.generation_reserve, 30);
    assert_eq!(o.max_steps, 24);
    assert_eq!(o.agents_md_max_tokens, 24_000);
    assert!(o.agents_md);
    assert_eq!(bench_opts(opts(), "t", 1, false, u32::MAX, 1).generation_reserve, u32::MAX);
}

fn args(mode: SessionMode, session_id: &str) -> TurnArgs {
    TurnArgs {
        session_id: session_id.to_owned(),
        mode,
        agents_md: true,
        no_agents_md: false,
        agents_md_head: false,
        effort_locked: false,
        policy: ThinkPolicy { enabled: false, effort: None, max_think_tokens: 5, max_tokens: 6 },
        max_steps_think: 3,
    }
}

#[test]
fn modes_choose_the_tools() {
    let o = prompt_opts(opts(), args(SessionMode::Chat, "s"));
    assert!(!o.with_tools && o.print && o.persist_session && o.agents_md);
    assert_eq!(o.tool_set, ToolSet::NoTools);
    assert_eq!(o.session_mode, SessionMode::Chat);
    assert_eq!(o.generation_reserve, 11);
    assert_eq!(prompt_opts(opts(), args(SessionMode::Code, "s")).tool_set, ToolSet::Code);
    assert_eq!(prompt_opts(opts(), args(SessionMode::Think, "s")).max_steps, 3);
    let o = handle_inbound(opts(), args(SessionMode::Agent, ""));
    assert_eq!(o.session_id, "channel");
    assert!(!o.print && o.effort_locked);
    assert_eq!(o.tool_set, ToolSet::Agent);
    assert_eq!(handle_inbound(opts(), args(SessionMode::Agent, "s")).session_id, "s");
    assert!(effort_locked(false, false, SessionMode::Chat));
    assert!(effort_locked(true, false, SessionMode::Agent));
    assert!(!effort_locked(false, false, SessionMode::Agent));
    assert!(inbound_reply("").is_empty());
    assert_eq!(inbound_reply("hi").len(), 1);
    assert_eq!(low_precision_after(None, true), (true, false));
    assert_eq!(low_precision_after(Some(false), true), (false, true));
}

fn session_args(new: bool, session: Option<&str>, resume: Option<&str>, last: bool) -> SessionArgs {
    SessionArgs {
        new,
        session: session.map(|s| s.to_owned()),
        resume: resume.map(|s| s.to_owned()),
        continue_session: last,
    }
}

#[test]
fn a_named_session_is_kept() {
    assert_eq!(
        resolve_session_id(&session_args(true, Some("a"), None, true)),
        SessionPick::Fresh
    );
    assert_eq!(
        resolve_session_id(&session_args(false, Some("a"), Some("q"), true)),
        SessionPick::Given("a".to_owned())
    );
    let find = resolve_session_id(&session_args(false, Some(""), Some("q"), true));
    assert_eq!(find, SessionPick::Find("q".to_owned()));
    let last = resolve_session_id(&session_args(false, None, None, true));
    assert_eq!(last, SessionPick::Latest);
    assert_eq!(
        resolve_session_id(&session_args(false, None, None, false)),
        SessionPick::Fresh
    );
    assert_eq!(settle_session(&find, Some("s"), "f"), Ok("s".to_owned()));
    assert_eq!(
        settle_session(&find, None, "f"),
        Err("no session matching q".to_owned())
    );
    assert_eq!(
        settle_session(&last, None, "f"),
        Err("no previous session".to_owned())
    );
    assert_eq!(settle_session(&SessionPick::Fresh, None, "f"), Ok("f".to_owned()));
    assert!(keeps_session(&session_args(false, Some(""), None, false)));
    assert!(!keeps_session(&session_args(true, None, None, false)));
}

#[test]
fn the_command_line_is_read_in_order() {
    assert_eq!(prompt_of(&vec!["fix".to_owned(), "it".to_owned()]), "fix it");
    assert_eq!(real_main("fix", false, true, false), Entry::Prompt("fix".to_owned()));
    assert_eq!(real_main(" ", true, true, false), Entry::Prompt(" ".to_owned()));
    assert_eq!(real_main(" ", false, true, true), Entry::Tui);
    assert_eq!(real_main("", false, false, true), Entry::Prompt("/status".to_owned()));
    assert_eq!(real_main("", false, false, false), Entry::Help);
    assert!(takes_model("m", None));
    assert!(takes_model("m", Some("  ")));
    assert!(!takes_model("m", Some("other")));
    assert!(!takes_model("", None));
    assert_eq!(turn_exit(Some("aborted"), "x", false), (None, 130));
    assert_eq!(turn_exit(None, "", false), (None, 0));
    assert_eq!(turn_exit(None, "x", true), (Some(String::new()), 0));
    assert_eq!(turn_exit(Some("stop"), "x", false), (Some("x".to_owned()), 0));
}

#[test]
fn commands_are_answered() {
    assert_eq!(slash_kind(&SlashCmd::Plan), SlashKind::Plain);
    assert_eq!(slash_kind(&SlashCmd::LowPrecision { on: None }), SlashKind::Plain);
    assert_eq!(slash_kind(&SlashCmd::Sessions), SlashKind::Look);
    assert_eq!(slash_kind(&SlashCmd::Other), SlashKind::Work);
    assert!(!intercept_slash(&SlashCmd::Help, true));
    assert!(intercept_slash(&SlashCmd::Status, true));
    assert!(!intercept_slash(&SlashCmd::Status, false));
    assert!(intercept_slash(&SlashCmd::Cron { args: String::new() }, false));
    let js = |t: &str| parse_json(t).unwrap();
    assert_eq!(print_slash_result(&js(r#"{"text": "hi", "session": "s"}"#)), "hi");
    assert_eq!(
        print_slash_result(&js(r#"{"session": "s", "mode": "code", "title": "T"}"#)),
        "session=s mode=code title=T"
    );
    assert_eq!(print_slash_result(&js(r#"{"session": 1, "title": ""}"#)), "session=");
    assert_eq!(print_slash_result(&js(r#"{"a": 1}"#)), r#"{"a":1}"#);
    let req = rpc(2, "slash", Json::object().with("text", Json::string("/help")));
    assert_eq!(
        print_json(&req),
        print_json(&js(
            r#"{"jsonrpc": "2.0", "id": 2, "method": "slash", "params": {"text": "/help"}}"#
        ))
    );
}

#[test]
fn a_probe_saves_only_what_was_said() {
    let mut names = ServerNames {
        base_url: "u".into(),
        model: "m".into(),
        profile: "auto".into(),
        family: "qwen38".into(),
    };
    let said = ProbeOverrides {
        base_url: None,
        model: Some("n".into()),
        profile: None,
        family: None,
    };
    names.apply(&said);
    assert_eq!((names.base_url.as_str(), names.model.as_str()), ("u", "n"));
    assert!(said.saves(true));
    assert!(!said.saves(false));
    let nothing = ProbeOverrides { base_url: None, model: None, profile: None, family: None };
    assert!(!nothing.saves(true));
    assert_eq!(probe_exit(true), 0);
    assert_eq!(probe_exit(false), 2);
}

fn start(prompt: &str, model: &str) -> TurnStart {
    TurnStart {
        prompt: prompt.into(),
        session_id: "s".into(),
        policy: ThinkPolicy { enabled: true, effort: None, max_think_tokens: 1, max_tokens: 2 },
        effort_locked: false,
        mode: SessionMode::Agent,
        model: model.into(),
    }
}

#[test]
fn the_answer_to_a_command_decides_what_follows() {
    let result = parse_json(r#"{"text": "hi"}"#).unwrap();
    assert_eq!(
        slash_outcome(SessionAnswer::Result(result)),
        SlashOutcome::Print("hi".into())
    );
    assert_eq!(slash_outcome(SessionAnswer::Error("no".into())), SlashOutcome::Fail("no".into()));
    assert_eq!(slash_outcome(SessionAnswer::Stopped), SlashOutcome::Print("stopped".into()));
    assert_eq!(
        slash_outcome(SessionAnswer::TurnStart(start("go", "m"))),
        SlashOutcome::Turn(start("go", "m"))
    );
    assert_eq!(turn_after_slash(start("a", "old"), start("b", "")), start("b", "old"));
    assert_eq!(turn_after_slash(start("a", "old"), start("b", "new")), start("b", "new"));
    assert_eq!(open_failure(&SessionAnswer::Result(Json::Null), "x"), None);
    assert_eq!(open_failure(&SessionAnswer::Error("e".into()), "x").as_deref(), Some("e"));
    assert_eq!(
        open_failure(&SessionAnswer::Stopped, "Abort").as_deref(),
        Some("session.open: Abort")
    );
}

#[test]
fn commands_from_a_channel_are_routed() {
    let route = |c: SlashCmd| inbound_route(Some(c), true);
    assert_eq!(inbound_route(None, true), InboundRoute::Turn);
    assert_eq!(route(SlashCmd::Help), InboundRoute::Reply(LocalText::Help));
    assert_eq!(route(SlashCmd::Version), InboundRoute::Reply(LocalText::Version));
    let unknown = || SlashCmd::Unsupported { name: "x".into() };
    assert_eq!(
        route(unknown()),
        InboundRoute::Reply(LocalText::Unsupported { name: "x".into() })
    );
    assert_eq!(route(SlashCmd::Skills), InboundRoute::Skills);
    assert_eq!(route(SlashCmd::Mcp), InboundRoute::Servers);
    assert_eq!(
        route(SlashCmd::InvokeSkill { name: "n".into(), args: "a".into() }),
        InboundRoute::SkillTurn { name: "n".into(), args: "a".into() }
    );
    assert_eq!(
        route(SlashCmd::InvokeMcp { name: "n".into(), args: "a".into() }),
        InboundRoute::ServerTurn { name: "n".into(), args: "a".into() }
    );
    assert_eq!(
        route(SlashCmd::Cron { args: "a".into() }),
        InboundRoute::Cron { args: "a".into() }
    );
    assert_eq!(
        route(SlashCmd::LowPrecision { on: None }),
        InboundRoute::LowPrecision { flag: true, save: false }
    );
    assert_eq!(
        route(SlashCmd::LowPrecision { on: Some(false) }),
        InboundRoute::LowPrecision { flag: false, save: true }
    );
    assert_eq!(route(SlashCmd::Status), InboundRoute::Turn);
    assert_eq!(local_slash_text(&unknown()), Some(LocalText::Unsupported { name: "x".into() }));
    assert_eq!(local_slash_text(&SlashCmd::Skills), None);
}

#[test]
fn a_good_probe_saves_what_was_said() {
    let names = || ServerNames {
        base_url: "u".into(),
        model: "m".into(),
        profile: "auto".into(),
        family: "qwen38".into(),
    };
    let said = ProbeOverrides { base_url: Some("v".into()), model: None, profile: None, family: None };
    let end = end_probe(names(), &said, true);
    assert_eq!(end.exit, 0);
    assert_eq!(end.save, Some(ServerNames { base_url: "v".into(), ..names() }));
    let end = end_probe(names(), &said, false);
    assert_eq!((end.exit, end.save), (2, None));
    let nothing = ProbeOverrides { base_url: None, model: None, profile: None, family: None };
    assert_eq!(end_probe(names(), &nothing, true).save, None);
}
