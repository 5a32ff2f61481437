use q38::asks::{
    forbids_tools, inject_locate, inject_numeric_check_hint, inject_web_hint, wants_auto_locate,
    wants_numeric_check, wants_test_baseline, wants_web_check,
};
use q38::channel::envelope::{MediaKind, MediaPart};
use q38::channel::mailbox::SteerSlot;
use q38::context::{
    clamp_generation_reserve, compact_if_needed, compacted_reads, context_budget,
    inject_window_overlay_note, over_hard_threshold, should_compact_at_user_turn,
    should_compact_follow_up, sort_texts, CompactStep,
};
use q38::endpoint::{
    ask_plan, chat_url, connect_policy, fetch_total_slots, media_origin, pins_slot, reads_stream,
    session_slot, slot_probe_urls, total_slots_of,
};
use q38::adapter::EngineProfile;
use q38::guard::{EditGuard, GuardNote};
use q38::json::Json;
use q38::message::{
    assistant_message, canon_read_path, canon_ws_path, charged_text_len, commit_tool,
    estimate_prefix_tokens, last_real_user, live_image_count, live_tool_count,
    observed_from_messages, shown_in_messages, tool_text_failed, Message,
};
use q38::notes::{
    inject_notes, inject_skill_from_tools, plan_notes, Forced, Note, NoteState, SkillPick,
};
use q38::oracle::{
    path_parent, same_place, scoped_test_cmd, workspace_default_test_cmd, workspace_has_tests, Tree,
};
use q38::outside::{parse_json, print_json};
use q38::paths::is_code_path;
use q38::policy::{
    complete_resilient, finish, log_event, retry_is_usable, retry_with_runaway_room, start_policy,
    sync_effort, widen_no_tool_think, Effort, EffortEvent, HopEvent, HopStep, RunawayRetry,
    ThinkPolicy,
};
use q38::setup::{
    apply_unattended_policy, bind_periphery, bind_session, enable_recall, interactive_channel,
    plan_agent, read_agents_md, system_text, AgentsMd, GateKind, LogState, RunOpts, SessionBind,
    Settings, ToolSet, ToolSlot, WorkingWindowOverlay,
};
use q38::table::Table;
use q38::tools::{
    background_note, baseline_result, bash_cmd, dispatch_one, gate_tool, is_harness_fail,
    openai_stored, oracle_call, oracle_result, oracle_tests_if_needed, parallel_safe_batch,
    preview_args, refuse_blind_overwrite, run_ask, search_fold_shrinks, search_fold_text,
    search_head, settle_round, snapshot_test_baseline, steer_note, tail_chars, wants_prior,
    write_path_body, AskStep, AtHand, Dispatch, OracleStep, Permit, Route, Target, ToolGate,
    ToolResult, ToolState, TurnFiles,
};
use q38::turn::ModelTurn;
use q38::xml_tools::ToolCall;

fn js(text: &str) -> Json {
    parse_json(text).expect("json")
}

fn call(id: &str, name: &str, args: &str) -> ToolCall {
    ToolCall {
        id: id.to_owned(),
        name: name.to_owned(),
        arguments: js(args),
    }
}

fn strings(v: &[&str]) -> Vec<String> {
    v.iter().map(|s| (*s).to_owned()).collect()
}

/// The soft limit of a window, a share of it between a tenth and all of it.
fn over_soft(prefix: u32, reserve: u32, window: u32, ratio: f64) -> bool {
    if window == 0 {
        return false;
    }
    let share = ratio.clamp(0.10, 1.0);
    let limit = (f64::from(window) * share) as u32;
    prefix.saturating_add(reserve) > limit
}

#[test]
fn search_fold_only_when_it_shrinks() {
    let dump: String = (0..80).map(|i| format!("src/f{i}.py:1:hit\n")).collect();
    let spans = "## src/f0.py:1-4\n     1|def f():\n";
    assert!(search_fold_shrinks(&dump, spans));
    // One file matched end to end: spans are the file, folding would grow it.
    let small = "src/a.py:1:hit\nsrc/a.py:2:hit\n";
    let fat: String = (0..60).map(|i| format!("     {i}|line {i}\n")).collect();
    assert!(!search_fold_shrinks(small, &fat));
}

#[test]
fn auto_locate_only_on_coding_asks() {
    assert!(wants_auto_locate("修 paging.py 的分页"));
    assert!(wants_auto_locate("fix upgrade_medium"));
    assert!(wants_auto_locate(
        "cents() 用银行家舍入，财务说必须改成小学四舍五入。立刻改。不要改测试。"
    ));
    assert!(!wants_auto_locate("read the note"));
    assert!(!wants_auto_locate("where is the think cap upgraded"));
}

#[test]
fn test_baseline_only_on_mutation_asks() {
    assert!(wants_test_baseline("修 merge_intervals，补回归"));
    assert!(wants_test_baseline("fix the parser"));
    // Locating is cheap, a suite run is not.
    assert!(!wants_test_baseline("merge_intervals 在哪被调用？"));
    assert!(!wants_test_baseline("where is page_bounds defined"));
}

#[test]
fn no_tool_policy_only_on_explicit_phrase() {
    assert!(forbids_tools("不要调用工具。什么是自由意志？"));
    assert!(forbids_tools("Please do not use tools. Explain Newcomb."));
    assert!(!forbids_tools("fix the parser in src/a.py"));
    assert!(!forbids_tools("if no tools are listed, skip"));
}

#[test]
fn web_check_trigger_is_narrow() {
    assert!(wants_web_check("2026年最新的 Rust 版本是多少？"));
    assert!(wants_web_check("苹果 M5 芯片什么时候发布？"));
    assert!(wants_web_check("看下 https://example.com/post 说了什么"));
    assert!(wants_web_check("what is the latest release of tokio?"));
    assert!(!wants_web_check("fix the parser in src/a.py"));
    assert!(!wants_web_check("把这个函数的价格字段改成 f64"));
    assert!(!wants_web_check("最新版本是多少？不要联网"));
    assert!(!wants_web_check("订单号 2026110234 查一下状态"));
}

#[test]
fn numeric_check_trigger_is_quantitative_and_non_code() {
    assert!(wants_numeric_check(
        "预测者准确率为 99%。比较两种决策论，并讨论错误率是否消除争议。"
    ));
    assert!(wants_numeric_check(
        "Calculate the probability threshold and distinguish percent from percentage points."
    ));
    assert!(!wants_numeric_check("这个模型准确率 99%，挺不错。"));
    assert!(!wants_numeric_check(
        "修复 accuracy.py 中把 99% 写成 0.99 的函数和测试用例。"
    ));
    assert!(!wants_numeric_check("比较两个哲学家的自由意志观点。"));
}

#[test]
fn hints_come_only_where_they_are_wanted() {
    assert!(inject_numeric_check_hint("预测者准确率为 99%。比较两种理论，并讨论概率错误。")
        .unwrap()
        .contains("[verify:numeric]"));
    assert!(inject_numeric_check_hint("你好").is_none());
    assert!(inject_web_hint("2026年最新的 Rust 版本是多少？", true)
        .unwrap()
        .starts_with("[web]"));
    assert!(inject_web_hint("2026年最新的 Rust 版本是多少？", false).is_none());
    assert!(inject_web_hint("你好", true).is_none());
    assert_eq!(inject_locate("fix upgrade_medium", Some("## a.rs")).as_deref(), Some("[locate]\n## a.rs"));
    assert!(inject_locate("fix upgrade_medium", None).is_none());
    assert!(inject_locate("不要调用工具。fix upgrade_medium", Some("x")).is_none());
}

#[test]
fn parallel_safe_batch_only_read_and_view() {
    let call = |id: &str, name: &str| call(id, name, "{}");
    assert!(parallel_safe_batch(&vec![call("r", "read"), call("v", "view")]));
    assert!(parallel_safe_batch(&vec![call("r", "read"), call("s", "search")]));
    assert!(parallel_safe_batch(&vec![call("r", "read"), call("q", "ask")]));
    assert!(!parallel_safe_batch(&vec![call("r", "read")]));
    assert!(!parallel_safe_batch(&vec![call("r", "read"), call("m", "mcp")]));
    assert!(!parallel_safe_batch(&vec![
        call("q", "ask"),
        call("w", "write")
    ]));
    assert!(!parallel_safe_batch(&vec![call("v", "view"), call("s", "skill")]));
    assert!(!parallel_safe_batch(&vec![
        call("a", "read"),
        call("b", "memory_search")
    ]));
}

#[test]
fn compact_soft_does_not_hard_fail() {
    assert!(over_soft(800, 0, 1000, 0.70));
    assert!(!over_hard_threshold(800, 0, 1000));
    assert!(over_hard_threshold(1001, 0, 1000));
    assert!(!over_soft(500, 0, 1000, 0.70));
    assert!(!over_soft(200_000, 0, 0, 0.70));
    assert!(!over_hard_threshold(200_000, 0, 0));
}

fn at_user_turn(prefix: u32, reserve: u32, window: u32, ratio: f64) -> bool {
    should_compact_at_user_turn(prefix, window, over_soft(prefix, reserve, window, ratio))
}

fn follow_up(
    prefix: u32,
    reserve: u32,
    window: u32,
    ratio: f64,
    tools: usize,
    images: u64,
    threshold: usize,
) -> bool {
    let soft = over_soft(prefix, reserve, window, ratio);
    should_compact_follow_up(prefix, window, soft, tools, images, threshold)
}

#[test]
fn turn_start_compact_at_120k_or_soft() {
    // 160k is under 262144 * 0.70 ≈ 183k but must compact on a follow-up.
    assert!(!over_soft(160_000, 0, 262_144, 0.70));
    assert!(at_user_turn(160_000, 0, 262_144, 0.70));
    assert!(!at_user_turn(100_000, 0, 262_144, 0.70));
    // Small-window tests hit the soft path, not a 120k fixture.
    assert!(at_user_turn(800, 0, 1000, 0.70));
    assert!(!at_user_turn(200_000, 0, 0, 0.70));
}

#[test]
fn follow_up_compacts_tool_heavy_even_under_120k() {
    assert!(!at_user_turn(1_000, 0, 500_000, 0.70));
    assert!(follow_up(1_000, 0, 500_000, 0.70, 8, 0, 8));
    assert!(!follow_up(1_000, 0, 500_000, 0.70, 7, 0, 8));
    assert!(follow_up(1_000, 0, 500_000, 0.70, 6, 0, 6));
    assert!(follow_up(1_000, 0, 500_000, 0.70, 0, 5, 8));
    assert!(!follow_up(1_000, 0, 0, 0.70, 8, 5, 8));
}

#[test]
fn estimate_skips_data_uri_payload() {
    let media = vec![MediaPart {
        kind: MediaKind::Image,
        url: format!("data:image/png;base64,{}", "A".repeat(2_000_000)),
        mime: String::new(),
    }];
    let msg = commit_tool("1", "screenshot ok", media, None, 0).message;
    let n = estimate_prefix_tokens(&vec![msg], &vec![], false);
    assert!(
        n < 2_000,
        "data URI must not dominate the compact gate: {n}"
    );
}

fn plain(role: &str, content: &str) -> Message {
    Message {
        role: role.to_owned(),
        content: Some(content.to_owned()),
        reasoning_content: None,
        tool_calls: None,
        tool_call_id: None,
        parts: vec![],
        hidden: false,
    }
}

fn tool(id: &str, content: &str) -> Message {
    commit_tool(id, content, vec![], None, 0).message
}

fn write_call(id: &str, path: &str) -> Message {
    let mut m = plain("assistant", "");
    m.content = None;
    m.tool_calls = Some(vec![js(&format!(
        r#"{{"id": "{id}", "type": "function", "function": {{"name": "write", "arguments": {{"path": "{path}", "content": "x"}}}}}}"#
    ))]);
    m
}

#[test]
fn denied_writes_are_not_marked_observed_on_rebuild() {
    let mut msgs = vec![
        plain("system", "sys"),
        plain("user", "task"),
        write_call("c1", "a.md"),
        tool("c1", "Error: plan mode blocks write."),
        write_call("c2", "b.md"),
        tool(
            "c2",
            "plan mode: `write` blocked. Stay read-only and put the plan in your reply.",
        ),
        write_call("c3", "c.md"),
        tool("c3", "User denied `write`. Continue without that call."),
        write_call("c4", "d.md"),
        tool("c4", "tool task aborted"),
        write_call("c5", "ok.md"),
        tool("c5", "Wrote 1 lines to ok.md"),
    ];
    let ws = workspace(&["a.md", "b.md", "c.md", "d.md", "ok.md", "e.md"]);
    let observed = observed_from_messages(&msgs, &ws);
    for denied in ["a.md", "b.md", "c.md", "d.md"] {
        assert!(
            !observed.contains(&key(&ws, denied)),
            "denied `{denied}` must not be observed: {observed:?}"
        );
    }
    assert!(observed.contains(&key(&ws, "ok.md")));
    assert_eq!(observed, strings(&["/w/ok.md"]));
    msgs.push(write_call("c6", "e.md"));
    msgs.push(tool("c6", "cancelled"));
    let observed = observed_from_messages(&msgs, &ws);
    assert!(!observed.contains(&key(&ws, "e.md")));
}

/// What a workspace at `/w` resolves each path to.
fn workspace(paths: &[&str]) -> Table {
    let mut t = Table::new();
    for p in paths {
        t.insert(p, &format!("/w/{}", p.trim_start_matches("./")));
    }
    t
}

fn key(ws: &Table, path: &str) -> String {
    canon_ws_path(ws.get(path).map(|s| s.as_str()), path)
}

#[test]
fn a_shown_file_may_be_overwritten_by_another_name() {
    let msgs = vec![
        write_call("c1", "./a.md"),
        tool("c1", "Wrote 1 lines to ./a.md"),
        write_call("c2", "out\\\\b.md/"),
        tool("c2", "Wrote 1 lines"),
    ];
    let ws = workspace(&["./a.md", "a.md"]);
    assert_eq!(shown_in_messages(&msgs), strings(&["./a.md", "out\\b.md/"]));
    let observed = observed_from_messages(&msgs, &ws);
    assert_eq!(observed, strings(&["/w/a.md", "out/b.md"]));
    let w = call("1", "write", r#"{"path": "a.md", "content": "x"}"#);
    let at = Target { canon: key(&ws, "a.md"), exists: true };
    assert_eq!(dispatch_one(&w, ToolGate::Run, &observed, &at, HAND), Dispatch::Go(Route::Native));
    let at = Target { canon: key(&ws, "c.md"), exists: true };
    assert!(!matches!(dispatch_one(&w, ToolGate::Run, &observed, &at, HAND), Dispatch::Go(_)));
}

#[test]
fn code_path_skips_office_docs() {
    assert!(is_code_path("src/foo.rs"));
    assert!(is_code_path("pkg/a.py"));
    assert!(!is_code_path("notes.md"));
    assert!(!is_code_path("drafts/memo.txt"));
    assert!(!is_code_path("config.example.toml"));
}

fn cargo_tree() -> Tree {
    Tree {
        root: "/w".to_owned(),
        files: strings(&["/w/Cargo.toml", "/w/crates/pack/Cargo.toml", "/w/crates/pack/src/lib.rs"]),
        dirs: strings(&["/w", "/w/crates", "/w/crates/pack", "/w/crates/pack/src"]),
        manifests: vec![
            (
                "/w/Cargo.toml".to_owned(),
                "[workspace]\nmembers = [\"crates/pack\"]\n".to_owned(),
            ),
            (
                "/w/crates/pack/Cargo.toml".to_owned(),
                "[package]\nname = \"pack\"\nversion = \"0.1.0\"\nedition = \"2021\"\n".to_owned(),
            ),
        ],
        root_names: strings(&["Cargo.toml", "crates"]),
    }
}

#[test]
fn cargo_scoped_uses_package_lib() {
    let tree = cargo_tree();
    let cmd = scoped_test_cmd(&tree, "python3", &strings(&["crates/pack/src/lib.rs"])).unwrap();
    assert_eq!(cmd, "cargo test -p pack --lib");
    assert!(scoped_test_cmd(&tree, "python3", &strings(&["README.md"])).is_none());
}

#[test]
fn pytest_picks_related_file() {
    let tree = Tree {
        root: "/w".to_owned(),
        files: strings(&["/w/pyproject.toml", "/w/mod.py", "/w/tests/test_mod.py"]),
        dirs: strings(&["/w", "/w/tests"]),
        manifests: vec![],
        root_names: strings(&["pyproject.toml", "mod.py", "tests"]),
    };
    let cmd = scoped_test_cmd(&tree, "python3", &strings(&["mod.py"])).unwrap();
    assert!(cmd.contains("pytest"), "{cmd}");
    assert!(cmd.contains("tests/test_mod.py"), "{cmd}");
}

fn unittest_tree() -> Tree {
    Tree {
        root: "/w".to_owned(),
        files: strings(&["/w/app.py", "/w/test_app.py"]),
        dirs: strings(&["/w"]),
        manifests: vec![],
        root_names: strings(&["app.py", "test_app.py"]),
    }
}

#[test]
fn unittest_tree_does_not_claim_pytest() {
    let tree = unittest_tree();
    let cmd = scoped_test_cmd(&tree, "python3", &strings(&["app.py"])).unwrap();
    assert!(cmd.contains("unittest"), "{cmd}");
    assert!(!cmd.contains("pytest"), "{cmd}");
    assert!(workspace_has_tests(&tree));
}

fn settings() -> Settings {
    Settings {
        workspace_write_only: true,
        skills_auto_catalog: false,
        mcp_auto_catalog: false,
        max_steps: 40,
        max_wall_seconds: 900,
        max_steps_unattended: 500,
        max_wall_unattended_seconds: 0,
        max_tokens: 4096,
        max_think_tokens_xhigh: 8192,
        low_precision: false,
        agents_md_max_tokens: 800,
        working_window: 262_144,
        working_window_overlay: Some(WorkingWindowOverlay { from_env: 8192, from_file: 262_144 }),
        code_timeout_s: 60,
        inherit_env: false,
        web_enabled: true,
        media_enabled: true,
        media_max_bytes: 0,
        prompt_file: "AGENT.md".to_owned(),
        prompt_coding: true,
        prompt_narrate: true,
    }
}

fn opts() -> RunOpts {
    RunOpts::from_config(&settings(), "/w".to_owned(), Some("/home/u".to_owned()))
}

#[test]
fn unattended_im_uses_hermes_caps() {
    let mut o = opts();
    o.channel = "wechat".to_owned();
    apply_unattended_policy(&mut o, &settings());
    assert_eq!(o.max_steps, 500);
    assert_eq!(o.max_wall_seconds, 0);
    o.channel = "web".to_owned();
    o.max_steps = 80;
    o.max_wall_seconds = 1800;
    apply_unattended_policy(&mut o, &settings());
    assert_eq!(o.max_steps, 80);
    assert_eq!(o.max_wall_seconds, 1800);
}

#[test]
fn options_follow_the_settings() {
    let o = opts();
    assert_eq!(o.session_id, "print");
    assert_eq!(o.workspace, "/w");
    assert_eq!(o.generation_reserve, 12288);
    assert_eq!(o.tool_set, ToolSet::Agent);
    assert!(o.print && o.confined && o.peripheral && !o.persist_session);
    assert_eq!(o.home.as_deref(), Some("/home/u"));
}

#[test]
fn only_consoles_are_watched() {
    for c in ["", "cli", "tui", "web", "console"] {
        assert!(interactive_channel(c), "{c}");
    }
    assert!(!interactive_channel("feishu"));
    assert!(!interactive_channel("CLI"));
}

#[test]
fn a_session_is_planned_by_its_options() {
    let mut o = opts();
    o.max_steps = 0;
    let p = plan_agent(&o, Some("/home/u/.q38-agent"), "/tmp");
    assert_eq!(
        p.gates,
        vec![
            GateKind::DoomLoop { lossy: false },
            GateKind::Steps(1),
            GateKind::Timeout(900)
        ]
    );
    assert_eq!(p.parse_stop_after, 3);
    assert_eq!(p.media_max_bytes, 1);
    assert!(!p.narrate, "a single prompt never narrates");
    assert_eq!(p.blob_dir, "/home/u/.q38-agent/blobs");
    o.low_precision = true;
    o.print = false;
    o.with_tools = false;
    o.session_dir = Some("/s".to_owned());
    let p = plan_agent(&o, None, "/tmp");
    assert_eq!(p.gates.len(), 6);
    assert_eq!(p.parse_stop_after, 2);
    assert_eq!(p.parse_upgrade_after, Some(1));
    assert_eq!(p.tool_set, ToolSet::NoTools);
    assert!(p.narrate);
    assert_eq!(p.blob_dir, "/s/blobs");
    o.session_dir = Some("/s/".to_owned());
    assert_eq!(plan_agent(&o, None, "/tmp").blob_dir, "/s/blobs");
    o.session_dir = Some(String::new());
    assert_eq!(plan_agent(&o, None, "/tmp").blob_dir, "blobs");
    o.session_dir = None;
    assert_eq!(plan_agent(&o, None, "/tmp").blob_dir, "/tmp/q38-blobs");
    o.blob_dir = Some("/b".to_owned());
    assert_eq!(plan_agent(&o, None, "/tmp").blob_dir, "/b");
}

#[test]
fn fixed_tools_come_first() {
    let mut o = opts();
    o.plan_mode = true;
    assert_eq!(
        bind_periphery(&o, ToolSet::Agent, true, true),
        vec![
            ToolSlot::AgentTools,
            ToolSlot::Search,
            ToolSlot::MemorySearch,
            ToolSlot::Mcp,
            ToolSlot::Web,
            ToolSlot::View,
            ToolSlot::Ask,
        ]
    );
    o.peripheral = false;
    assert_eq!(
        bind_periphery(&o, ToolSet::Agent, true, true),
        vec![ToolSlot::AgentTools, ToolSlot::Search, ToolSlot::View, ToolSlot::Ask]
    );
    assert_eq!(bind_periphery(&o, ToolSet::Code, true, true), vec![ToolSlot::CodeTools]);
    assert!(bind_periphery(&o, ToolSet::NoTools, true, true).is_empty());
}

#[test]
fn recall_is_added_once() {
    let mut tools = vec![ToolSlot::AgentTools];
    assert!(enable_recall(&mut tools));
    assert_eq!(tools, vec![ToolSlot::AgentTools, ToolSlot::Recall]);
    assert!(!enable_recall(&mut tools));
    assert_eq!(tools.len(), 2);
    let mut none: Vec<ToolSlot> = vec![];
    assert!(!enable_recall(&mut none));
}

#[test]
fn agents_md_is_left_out_or_clipped_when_long() {
    assert_eq!(read_agents_md(None, 0, 10, false, ""), AgentsMd::Missing);
    assert_eq!(read_agents_md(Some(" \n"), 1, 10, false, ""), AgentsMd::Missing);
    assert_eq!(
        read_agents_md(Some("be brief"), 2, 10, false, ""),
        AgentsMd::Text("be brief".to_owned())
    );
    assert_eq!(read_agents_md(Some("long"), 20, 10, false, "lo"), AgentsMd::TooLarge);
    assert_eq!(
        read_agents_md(Some("long"), 20, 10, true, "lo"),
        AgentsMd::Text("lo".to_owned())
    );
    assert_eq!(read_agents_md(Some("long"), 20, 10, true, ""), AgentsMd::TooLarge);
    assert_eq!(
        system_text("P", Some(("S", "C")), &AgentsMd::Text("A".to_owned())),
        "PS\nC\n\n\n# AGENTS.md\nA"
    );
    assert_eq!(system_text("P", None, &AgentsMd::TooLarge), "P");
}

#[test]
fn a_session_is_resumed_where_its_log_opens() {
    assert_eq!(bind_session(true, "s", LogState::Opened), SessionBind::Resumed);
    assert_eq!(bind_session(true, "s", LogState::Created), SessionBind::Fresh);
    assert_eq!(bind_session(true, "s", LogState::Failed), SessionBind::Unlogged);
    assert_eq!(bind_session(true, "", LogState::Opened), SessionBind::Unlogged);
    assert_eq!(bind_session(false, "s", LogState::Opened), SessionBind::Unlogged);
}

fn think(enabled: bool, cap: u32, tokens: u32) -> ThinkPolicy {
    ThinkPolicy { enabled, effort: None, max_think_tokens: cap, max_tokens: tokens }
}

#[test]
fn no_tools_widens_the_thought() {
    let ask = "不要调用工具。什么是自由意志？";
    assert_eq!(
        widen_no_tool_think(false, Some(think(true, 2048, 4096)), ask),
        Some(think(true, 8192, 12288))
    );
    assert_eq!(
        widen_no_tool_think(false, Some(think(true, 2048, 20000)), ask),
        Some(think(true, 8192, 20000))
    );
    assert!(widen_no_tool_think(true, Some(think(true, 2048, 4096)), ask).is_none());
    assert!(widen_no_tool_think(false, Some(think(false, 2048, 4096)), ask).is_none());
    assert!(widen_no_tool_think(false, Some(think(true, 8192, 4096)), ask).is_none());
    assert!(widen_no_tool_think(false, Some(think(true, 2048, 4096)), "fix it").is_none());
    assert!(widen_no_tool_think(false, None, ask).is_none());
}

#[test]
fn a_runaway_thought_gets_one_roomy_retry() {
    assert_eq!(retry_with_runaway_room(None), RunawayRetry::Again);
    assert_eq!(retry_with_runaway_room(Some(think(false, 0, 10))), RunawayRetry::No);
    assert_eq!(retry_with_runaway_room(Some(think(false, u32::MAX, 10))), RunawayRetry::No);
    assert_eq!(
        retry_with_runaway_room(Some(think(true, 2048, 4096))),
        RunawayRetry::With(think(true, 8192, 12288))
    );
    assert_eq!(
        retry_with_runaway_room(Some(think(true, 10000, 4096))),
        RunawayRetry::With(think(true, 10000, 14096))
    );
    assert!(retry_is_usable(false, false));
    assert!(!retry_is_usable(true, false));
    assert!(!retry_is_usable(false, true));
}

#[test]
fn transient_failures_are_tried_again() {
    let failed = |transient: bool, out_of_time: bool| HopEvent::Failed { transient, out_of_time };
    assert_eq!(complete_resilient(0, failed(true, false)), HopStep::Retry(1));
    assert_eq!(complete_resilient(3, failed(true, false)), HopStep::Retry(4));
    assert_eq!(complete_resilient(3, failed(true, true)), HopStep::GiveUp);
    assert_eq!(complete_resilient(0, failed(false, false)), HopStep::GiveUp);
    assert_eq!(complete_resilient(0, HopEvent::Cancelled), HopStep::Abort);
    assert_eq!(complete_resilient(0, HopEvent::Done), HopStep::Take);
}

#[test]
fn policies_change_only_when_they_differ() {
    let a = think(true, 1, 2);
    let b = think(true, 3, 4);
    assert_eq!(sync_effort(a, a), None);
    assert_eq!(sync_effort(a, b), Some(b));
    let harder = ThinkPolicy { effort: Some(Effort::Xhigh), ..a };
    assert_eq!(sync_effort(a, harder), Some(harder));
    let low = ThinkPolicy { effort: Some(Effort::Low), ..think(true, 1, 2) };
    let wide = widen_no_tool_think(false, Some(low), "不要调用工具。").unwrap();
    assert_eq!(wide.effort, Some(Effort::Low));
    assert_eq!(start_policy(false, a, Some(b)), b);
    assert_eq!(start_policy(true, a, Some(b)), a);
    assert_eq!(start_policy(false, a, None), a);
    assert_eq!(log_event(true, false), (true, false));
    assert_eq!(log_event(false, true), (false, true));
    assert_eq!(log_event(false, false), (true, true));
}

#[test]
fn a_turn_hands_late_remarks_on() {
    let mut slot = SteerSlot { notes: strings(&["wait"]) };
    let f = finish("hi".to_owned(), None, 3, "s", &mut slot, false);
    assert_eq!(f.logged, "stop");
    assert_eq!(f.effort, EffortEvent::Clean);
    assert!(!f.cancel_background);
    assert_eq!(f.outcome.pending_steer, strings(&["wait"]));
    assert_eq!(f.outcome.steps, 3);
    assert!(slot.notes.is_empty());
    let f = finish(String::new(), Some("aborted".to_owned()), 1, "s", &mut slot, true);
    assert_eq!(f.logged, "aborted");
    assert!(f.cancel_background && f.outcome.streamed_text);
}

#[test]
fn slots_are_found_and_the_last_stays_free() {
    assert_eq!(
        slot_probe_urls("http://h:8080/v1/"),
        strings(&[
            "http://h:8080/v1/props",
            "http://h:8080/v1/slots",
            "http://h:8080/props",
            "http://h:8080/slots"
        ])
    );
    assert_eq!(slot_probe_urls("http://h").len(), 2);
    assert_eq!(total_slots_of(&js(r#"{"total_slots": 4}"#)), Some(4));
    assert_eq!(total_slots_of(&js(r#"{"slots": 2}"#)), Some(2));
    assert_eq!(total_slots_of(&js("[1, 2, 3]")), Some(3));
    assert_eq!(total_slots_of(&js(r#"{"total_slots": 10000}"#)), None);
    assert_eq!(total_slots_of(&js("[]")), None);
    assert_eq!(
        fetch_total_slots(&vec![None, Some(js("{}")), Some(js(r#"{"total_slots": 8}"#))]),
        8
    );
    assert_eq!(fetch_total_slots(&vec![None]), 0);
    // The digest of "abc" begins with ba 78 16 bf.
    assert_eq!(session_slot("abc", 11), Some((0xba7816bf_u64 % 10) as i64));
}

#[test]
fn endpoints_are_asked_as_the_policy_says() {
    assert_eq!(chat_url("http://h/v1//"), "http://h/v1/chat/completions");
    assert_eq!(media_origin("http://h/v1/chat/completions"), "http://h/v1");
    assert_eq!(media_origin("http://h/other"), "http://h/other");
    assert_eq!(ask_plan(think(true, 100, 1), false), (Some(100), true));
    assert_eq!(ask_plan(think(true, 0, 1), false), (None, false));
    assert_eq!(ask_plan(think(false, 100, 1), true), (None, true));
    assert!(reads_stream(true, "text/event-stream"));
    assert!(!reads_stream(true, "application/json; charset=utf-8"));
    assert!(!reads_stream(false, "text/event-stream"));
    assert!(pins_slot(EngineProfile::Auto) && pins_slot(EngineProfile::LlamaCpp));
    assert!(!pins_slot(EngineProfile::Vllm));
    assert_eq!(connect_policy(think(true, 9, 9), false, 5), think(false, 0, 5));
    assert_eq!(connect_policy(think(true, 9, 9), true, 5), think(true, 9, 9));
}

#[test]
fn arguments_of_note_stand_for_a_call() {
    assert_eq!(preview_args(&call("1", "read", r#"{"path": "a.rs", "command": "x"}"#)), "a.rs");
    assert_eq!(preview_args(&call("1", "bash", r#"{"command": "ls"}"#)), "ls");
    assert_eq!(preview_args(&call("1", "recall", r#"{"seq": 7}"#)), "7");
    assert_eq!(preview_args(&call("1", "x", r#"{"path": 3}"#)), "…");
    assert_eq!(preview_args(&call("1", "x", "{}")), "…");
    assert_eq!(bash_cmd(&call("1", "bash", r#"{"command": "ls"}"#)), "ls");
    assert_eq!(bash_cmd(&call("1", "bash", "{}")), "");
    assert_eq!(
        write_path_body(&call("1", "write", r#"{"file_path": "a", "content": "b"}"#)),
        ("a".to_owned(), "b".to_owned())
    );
    assert_eq!(wants_prior(&call("1", "write", r#"{"path": "a"}"#)), Some("a".to_owned()));
    assert_eq!(wants_prior(&call("1", "edit", r#"{"path": "a"}"#)), None);
    let stored = openai_stored(&vec![call("1", "read", r#"{"path": "a"}"#)]);
    assert_eq!(stored[0].id, "1");
    assert_eq!(stored[0].name, "read");
    assert_eq!(stored[0].arguments, r#"{"path":"a"}"#);
}

const HAND: AtHand = AtHand { memory: false, index: true, web: false, ask: false };

fn target(canon: &str, exists: bool) -> Target {
    Target { canon: canon.to_owned(), exists }
}

#[test]
fn blind_overwrites_are_refused_until_the_file_is_read() {
    let w = call("1", "write", r#"{"path": "a.md", "content": "x"}"#);
    let refused = refuse_blind_overwrite(&w, &vec![], "a.md", true).unwrap();
    assert_eq!(
        refused,
        "Error: a.md 已存在，且本会话未读过它。write 会整文件覆盖。先 read(path=\"a.md\") 确认内容；只改局部就用 edit。"
    );
    assert!(refuse_blind_overwrite(&w, &strings(&["a.md"]), "a.md", true).is_none());
    assert!(refuse_blind_overwrite(&w, &vec![], "a.md", false).is_none());
    let e = call("1", "edit", r#"{"path": "a.md"}"#);
    assert!(refuse_blind_overwrite(&e, &vec![], "a.md", true).is_none());
    assert_eq!(
        dispatch_one(&w, ToolGate::Run, &vec![], &target("a.md", true), HAND),
        Dispatch::Blind(refused)
    );
    assert_eq!(
        dispatch_one(&w, ToolGate::PlanDenied, &vec![], &target("a.md", true), HAND),
        Dispatch::PlanDenied
    );
    assert_eq!(
        dispatch_one(&w, ToolGate::UserDenied, &vec![], &target("a.md", true), HAND),
        Dispatch::UserDenied
    );
    let mut files = TurnFiles { read: vec![], observed: vec![] };
    files.record("read", Some("a.md"));
    files.record("read", Some("a.md"));
    assert_eq!(files.read, strings(&["a.md"]));
    assert_eq!(
        dispatch_one(&w, ToolGate::Run, &files.observed, &target("a.md", true), HAND),
        Dispatch::Go(Route::Native)
    );
}

#[test]
fn planning_changes_nothing() {
    assert_eq!(gate_tool(true, true, Some(Permit::Allow)), ToolGate::PlanDenied);
    assert_eq!(gate_tool(true, false, None), ToolGate::Run);
    assert_eq!(gate_tool(false, true, Some(Permit::Deny)), ToolGate::UserDenied);
    assert_eq!(gate_tool(false, true, Some(Permit::Always)), ToolGate::RunAndRemember);
    assert_eq!(gate_tool(false, true, Some(Permit::Allow)), ToolGate::Run);
}

#[test]
fn calls_go_where_their_names_lead() {
    let go = |name: &str| {
        dispatch_one(&call("1", name, "{}"), ToolGate::Run, &vec![], &target("", false), HAND)
    };
    assert_eq!(go("search"), Dispatch::Go(Route::Search));
    assert_eq!(go("mcp"), Dispatch::Go(Route::Mcp));
    assert_eq!(go("view"), Dispatch::Go(Route::View));
    assert_eq!(go("skill"), Dispatch::Go(Route::Skill));
    assert_eq!(go("recall"), Dispatch::Go(Route::Recall));
    assert_eq!(go("bash"), Dispatch::Go(Route::Native));
    let off = |name: &str, text: &str| {
        assert_eq!(go(name), Dispatch::Go(Route::Unavailable(text.to_owned())));
    };
    off("memory_search", "Error: memory store unavailable.");
    off("web", "Error: web 工具未启用（config.toml [web] enabled）。");
    off("ask", "Error: ask is off. Proceed without asking. User can /clarify or /plan.");
    assert_eq!(run_ask(false, false, None, true), AskStep::Off);
    assert_eq!(run_ask(true, false, None, true), AskStep::Skip);
    assert_eq!(run_ask(true, false, Some(true), true), AskStep::Skip);
    assert_eq!(run_ask(false, true, Some(false), true), AskStep::Put);
    assert_eq!(run_ask(false, true, Some(false), false), AskStep::Skip);
}

#[test]
fn long_searches_keep_their_head() {
    let full: String = (0..20).map(|i| format!("l{i}\n")).collect();
    assert_eq!(search_head(&full).lines().count(), 12);
    let folded = search_fold_text(&full, "q", "SPANS", Some("b1"));
    assert!(folded.starts_with("l0\nl1\n"));
    assert!(folded.ends_with(
        "l11\n[20 lines total; head kept; full output in blob b1 — recall(blob=…)]\n\n[index spans for `q`]\nSPANS"
    ));
    assert!(search_fold_text("a", "q", "S", None).starts_with("a\n[1 lines total; head kept]\n"));
    assert_eq!(tail_chars("修改好", 2), "改好");
    assert_eq!(tail_chars("ab", 5), "ab");
}

fn ok_result(text: &str, path: Option<&str>) -> ToolResult {
    ToolResult {
        state: ToolState::Success,
        text: text.to_owned(),
        path: path.map(|p| p.to_owned()),
        prior: None,
    }
}

#[test]
fn a_round_of_calls_is_learned_from() {
    let mut guard = EditGuard::new();
    let mut files = TurnFiles { read: vec![], observed: vec![] };
    let edit = |old_text: &str, new_text: &str| {
        ToolCall {
            id: "e".to_owned(),
            name: "edit".to_owned(),
            arguments: Json::object()
                .with("path", Json::string("src/a.py"))
                .with("old_string", Json::string(old_text))
                .with("new_string", Json::string(new_text)),
        }
    };
    let calls = vec![
        call("r", "read", r#"{"path": "src/a.py"}"#),
        edit("x = 1", "x = 2"),
        edit("x = 2", "x = 1"),
        call("b", "bash", r#"{"command": "pytest"}"#),
        call("w", "web", "{}"),
    ];
    let results = vec![
        ok_result("x = 1", Some("src/a.py")),
        ok_result("edited", Some("src/a.py")),
        ok_result("edited", Some("src/a.py")),
        ToolResult {
            state: ToolState::Error,
            text: "Ran 1 test in 0.001s\n\nFAILED (failures=1)".to_owned(),
            path: None,
            prior: None,
        },
        ToolResult {
            state: ToolState::Interrupted,
            text: "Error: tool task aborted".to_owned(),
            path: None,
            prior: None,
        },
    ];
    let round = settle_round(&mut guard, &mut files, &calls, &results);
    assert_eq!(round.notes, vec![GuardNote::Thrash, GuardNote::TestRed]);
    assert!(round.thrash && round.harness);
    assert_eq!(round.effort, vec![EffortEvent::HarnessFail, EffortEvent::Thrash]);
    assert_eq!(files.read, strings(&["src/a.py"]));
    assert_eq!(files.observed, strings(&["src/a.py"]));
    assert!(!is_harness_fail(ToolState::Error, "Error: tool task aborted"));
}

#[test]
fn tests_run_on_the_models_behalf() {
    let tree = unittest_tree();
    let mut guard = EditGuard::new();
    assert_eq!(
        oracle_tests_if_needed(false, false, &guard, &tree, "python3", None),
        OracleStep::Skip
    );
    let edit = js(r#"{"path": "app.py", "old_string": "x = 1", "new_string": "x = 2"}"#);
    guard.observe("edit", &edit, None);
    let step = oracle_tests_if_needed(false, false, &guard, &tree, "python3", None);
    assert!(matches!(&step, OracleStep::Run(c) if c.contains("unittest")), "{step:?}");
    assert_eq!(
        oracle_tests_if_needed(true, false, &guard, &tree, "python3", None),
        OracleStep::Skip
    );
    let bare = Tree {
        root: "/w".to_owned(),
        files: vec![],
        dirs: vec![],
        manifests: vec![],
        root_names: vec![],
    };
    assert_eq!(
        oracle_tests_if_needed(false, false, &guard, &bare, "python3", None),
        OracleStep::MarkRan
    );
    assert_eq!(
        oracle_tests_if_needed(false, false, &guard, &bare, "python3", Some("make test")),
        OracleStep::Run("make test".to_owned())
    );
    let report = oracle_result(&mut guard, "Ran 1 test in 0.001s\n\nFAILED (failures=1)");
    assert_eq!(report.note, Some(GuardNote::TestRed));
    assert!(report.red && report.keep_cmd);
    assert_eq!(report.effort, EffortEvent::TestFail);
    assert!(report.message.starts_with("[oracle]\nRan 1 test"));
    assert!(!guard.wants_oracle());
    let c = oracle_call(2, "make test");
    assert_eq!(c.id, "oracle-2");
    assert_eq!(c.arguments.text_at("command"), Some("make test"));
}

#[test]
fn the_baseline_is_taken_only_when_nobody_watches() {
    let tree = unittest_tree();
    assert_eq!(
        snapshot_test_baseline(true, false, false, &tree, "python3"),
        workspace_default_test_cmd(&tree, "python3")
    );
    assert!(snapshot_test_baseline(false, false, false, &tree, "python3").is_none());
    assert!(snapshot_test_baseline(true, true, false, &tree, "python3").is_none());
    assert!(snapshot_test_baseline(true, false, true, &tree, "python3").is_none());
    let b = baseline_result("Ran 1 test in 0.001s\n\nFAILED (failures=1)", false).unwrap();
    assert!(b.red && b.keep_cmd);
    assert!(b.message.starts_with("[baseline] 改动前测试已经是红的。\n"));
    let b = baseline_result("Ran 1 test in 0.001s\n\nOK\n", true).unwrap();
    assert!(!b.red && !b.keep_cmd);
    assert!(b.message.starts_with("[baseline] 改动前测试全绿。\n"));
    assert!(baseline_result("hello", false).is_none());
}

#[test]
fn the_model_is_told_of_remarks_and_background_calls() {
    assert_eq!(steer_note("stop it"), "Steer: stop it");
    assert_eq!(
        background_note("bash", ToolState::Success, "c1", "done", Some("b9")),
        "[background bash finished id=c1]\ndone\n[blob b9]"
    );
    assert_eq!(
        background_note("bash", ToolState::Interrupted, "c1", "", None),
        "[background bash interrupted id=c1]\n"
    );
    assert!(background_note("bash", ToolState::Error, "c", "", None).contains("failed"));
}

fn no_notes() -> NoteState {
    NoteState {
        memory_live: false,
        memory_card: None,
        skill_live: false,
        skill: SkillPick::NoSkill,
        mcp_tool: true,
        mcp_live: false,
        mcp_card: None,
        plan_mode: false,
        plan_live: false,
        clarify_mode: false,
        clarify_live: false,
        narrate: false,
        style_live: false,
        wants_cron: false,
        cron_live: false,
    }
}

#[test]
fn notes_come_in_order_and_once() {
    assert!(inject_notes(no_notes()).is_empty());
    let mut s = no_notes();
    s.memory_card = Some("m".to_owned());
    s.skill = SkillPick::Card("s".to_owned());
    s.mcp_card = Some("c".to_owned());
    s.plan_mode = true;
    s.narrate = true;
    s.wants_cron = true;
    assert_eq!(
        inject_notes(s),
        vec![
            Note::Memory("m".to_owned()),
            Note::Skill("s".to_owned()),
            Note::Mcp("c".to_owned()),
            Note::Plan,
            Note::Clarify,
            Note::Style,
            Note::Cron,
        ]
    );
    let mut s = no_notes();
    s.skill = SkillPick::TooLong("big".to_owned());
    s.mcp_card = Some("c".to_owned());
    s.mcp_tool = false;
    s.clarify_mode = true;
    s.clarify_live = true;
    assert_eq!(inject_notes(s), vec![Note::SkillTooLong("big".to_owned())]);
    assert!(inject_skill_from_tools(None, true).is_none());
    let swap = inject_skill_from_tools(Some(Some("card".to_owned())), true).unwrap();
    assert!(swap.stub_old);
    assert_eq!(swap.card.as_deref(), Some("card"));
}

#[test]
fn contexts_are_compacted_twice_at_most() {
    assert_eq!(compact_if_needed(0, 0, true, true), CompactStep::Done);
    assert_eq!(compact_if_needed(100, 0, true, false), CompactStep::Done);
    assert_eq!(compact_if_needed(100, 0, true, true), CompactStep::Pass);
    assert_eq!(compact_if_needed(100, 1, false, true), CompactStep::Judge);
    assert_eq!(compact_if_needed(100, 1, true, true), CompactStep::Pass);
    assert_eq!(compact_if_needed(100, 2, true, true), CompactStep::Judge);
    assert_eq!(
        context_budget(Some(90), 20, 100).as_deref(),
        Some("budget:context (90 prefix + 20 reserve > 100 window)")
    );
    assert!(context_budget(Some(80), 20, 100).is_none());
    assert!(context_budget(None, 20, 100).is_none());
    assert_eq!(sort_texts(&strings(&["b", "a", "b"])), strings(&["a", "b", "b"]));
    assert!(compacted_reads(&vec![]).is_none());
    assert!(compacted_reads(&strings(&["b.rs", "a.rs"])).unwrap().ends_with(":\na.rs\nb.rs"));
    let note = inject_window_overlay_note(8192, 262_144, 8192);
    assert!(note.contains("8192") && note.contains("262144"), "{note}");
    assert!(clamp_generation_reserve(1000, 5000) < 1000);
}

#[test]
fn transcripts_are_counted() {
    let mut hidden = plain("user", "<tool_response>note</tool_response>");
    hidden.hidden = true;
    let msgs = vec![plain("user", "task"), hidden, tool("1", "ok")];
    assert_eq!(last_real_user(&msgs), "task");
    assert_eq!(live_tool_count(&msgs), 1);
    assert_eq!(live_image_count(&msgs), 0);
    assert_eq!(charged_text_len("abc"), 3);
    assert!(tool_text_failed("Error: no"));
    assert!(!tool_text_failed("fine"));
    assert_eq!(canon_read_path("a\\b.rs/"), canon_read_path("a/b.rs"));
    assert_eq!(canon_ws_path(Some("/w/a.md"), "./a.md"), canon_ws_path(Some("/w/a.md"), "a.md"));
    assert_eq!(canon_ws_path(None, "a.md"), canon_read_path("a.md"));
    assert!(assistant_message(&ModelTurn::watchdog()).tool_calls.is_none());
    assert_eq!(print_json(&js("[1, true, null]")), "[1,true,null]");
}

#[test]
fn a_named_skill_takes_the_place_of_a_live_one() {
    let mut s = no_notes();
    s.skill_live = true;
    s.skill = SkillPick::Card("matched".to_owned());
    s.mcp_live = true;
    s.mcp_card = Some("server".to_owned());
    let forced = Forced { skill: Some(SkillPick::Card("named".to_owned())), mcp: true };
    let plan = plan_notes(s, forced);
    assert!(plan.put_away_skill && plan.put_away_mcp);
    assert_eq!(
        plan.notes,
        vec![Note::Skill("named".to_owned()), Note::Mcp("server".to_owned())]
    );
    let mut s = no_notes();
    s.skill_live = true;
    s.skill = SkillPick::Card("matched".to_owned());
    let plan = plan_notes(s, Forced { skill: None, mcp: false });
    assert!(!plan.put_away_skill && plan.notes.is_empty());
    let mut s = no_notes();
    s.skill_live = true;
    s.skill = SkillPick::Card("matched".to_owned());
    let plan = plan_notes(s, Forced { skill: Some(SkillPick::NoSkill), mcp: false });
    assert_eq!(plan.notes, vec![Note::Skill("matched".to_owned())]);
}

#[test]
fn paths_are_compared_by_their_parts() {
    let mut tree = cargo_tree();
    tree.root = "/w/".to_owned();
    let cmd = scoped_test_cmd(&tree, "python3", &strings(&["crates//pack/./src/lib.rs"])).unwrap();
    assert_eq!(cmd, "cargo test -p pack --lib");
    // Nothing above the root is looked at.
    tree.files.push("/Cargo.toml".to_owned());
    tree.manifests.push(("/Cargo.toml".to_owned(), "[package]\nname = \"top\"\n".to_owned()));
    assert!(scoped_test_cmd(&tree, "python3", &strings(&["other/a.rs"])).is_none());
    for (p, parent) in [
        ("p//a", Some("p")),
        ("p/./a", Some("p")),
        ("p/a/", Some("p")),
        ("a", Some("")),
        ("/a", Some("/")),
        ("//a", Some("/")),
        ("./a", Some(".")),
        (".", Some("")),
        ("a/..", Some("a")),
        ("a//b/c", Some("a//b")),
        ("/", None),
        ("", None),
    ] {
        assert_eq!(path_parent(p).as_deref(), parent, "{p}");
        let std_parent = std::path::Path::new(p).parent().map(|q| q.to_str().unwrap());
        assert_eq!(path_parent(p).as_deref(), std_parent, "{p}");
    }
    assert!(same_place("/w/", "/w/./") && same_place("a//b", "a/b"));
    assert!(!same_place("/w", "w"));
}
