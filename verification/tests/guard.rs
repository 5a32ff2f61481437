use q38::guard::{changes_expectation, EditGuard, GuardNote};
use q38::json::Json;
use q38::outside::parse_json;
use q38::paths::is_test_path;

fn js(text: &str) -> Json {
    parse_json(text).expect("json")
}

fn edit(path: &str, before: &str, after: &str) -> Json {
    Json::object()
        .with("path", Json::string(path))
        .with("old_string", Json::string(before))
        .with("new_string", Json::string(after))
}

fn obs(g: &mut EditGuard, name: &str, args: Json) -> Vec<GuardNote> {
    g.observe(name, &args, None)
}

#[test]
fn revert_pair_fires_thrash_once_per_pair() {
    let mut g = EditGuard::new();
    assert!(obs(&mut g, "edit", edit("src/a.py", "x = 1", "x = 2")).is_empty());
    let notes = obs(&mut g, "edit", edit("src/a.py", "x = 2", "x = 1"));
    assert_eq!(notes, vec![GuardNote::Thrash]);
}

#[test]
fn thrash_capped_at_two_notes() {
    let mut g = EditGuard::new();
    obs(&mut g, "edit", edit("a.py", "v1", "v2"));
    assert_eq!(
        obs(&mut g, "edit", edit("a.py", "v2", "v1")),
        vec![GuardNote::Thrash]
    );
    // Ping-pong continues: the forward edit itself reverts the revert.
    assert_eq!(
        obs(&mut g, "edit", edit("a.py", "v1", "v2")),
        vec![GuardNote::Thrash]
    );
    // Cap reached — later flips stay silent.
    assert!(obs(&mut g, "edit", edit("a.py", "v2", "v1")).is_empty());
    assert!(obs(&mut g, "edit", edit("a.py", "v1", "v2")).is_empty());
}

#[test]
fn different_paths_do_not_thrash() {
    let mut g = EditGuard::new();
    obs(&mut g, "edit", edit("a.py", "x", "y"));
    assert!(obs(&mut g, "edit", edit("b.py", "y", "x")).is_empty());
}

#[test]
fn forward_progress_does_not_thrash() {
    let mut g = EditGuard::new();
    obs(&mut g, "edit", edit("a.py", "v1", "v2"));
    assert!(obs(&mut g, "edit", edit("a.py", "v2", "v3")).is_empty());
    assert!(obs(&mut g, "edit", edit("a.py", "v3", "v4")).is_empty());
}

#[test]
fn assertion_literal_change_in_tests_fires_once() {
    let mut g = EditGuard::new();
    let notes = obs(
        &mut g,
        "edit",
        edit(
            "tests/test_report.py",
            "self.assertAlmostEqual(totals[\"2026-08\"], 1932.00)",
            "self.assertAlmostEqual(totals[\"2026-08\"], -1957.50)",
        ),
    );
    assert_eq!(notes, vec![GuardNote::TestExpectation]);
    let again = obs(
        &mut g,
        "edit",
        edit(
            "tests/test_report.py",
            "assertEqual(n, 3)",
            "assertEqual(n, 4)",
        ),
    );
    assert!(again.is_empty());
}

#[test]
fn non_assertion_test_edit_does_not_fire() {
    let mut g = EditGuard::new();
    let notes = obs(
        &mut g,
        "edit",
        edit("tests/test_report.py", "import os", "import os\nimport sys"),
    );
    assert!(notes.is_empty());
}

#[test]
fn assertion_change_outside_tests_does_not_fire() {
    let mut g = EditGuard::new();
    let notes = obs(
        &mut g,
        "edit",
        edit("src/report.py", "assert n == 3", "assert n == 4"),
    );
    assert!(notes.is_empty());
}

#[test]
fn new_test_write_without_prior_is_ignored() {
    let mut g = EditGuard::new();
    assert!(obs(
        &mut g,
        "write",
        js(r##"{"path": "tests/test_x.py", "content": "assert 1 == 2"}"##)
    )
    .is_empty());
    assert!(obs(&mut g, "read", js(r##"{"path": "tests/test_x.py"}"##)).is_empty());
}

#[test]
fn overwrite_test_write_with_changed_literals_fires() {
    let mut g = EditGuard::new();
    let notes = g.observe(
        "write",
        &js(r##"{"path": "tests/test_x.py", "content": "assertEqual(n, 4)"}"##),
        Some("assertEqual(n, 3)"),
    );
    assert_eq!(notes, vec![GuardNote::TestExpectation]);
}

#[test]
fn explicit_test_edit_request_skips_expectation_note() {
    let mut g = EditGuard::new();
    g.reset_turn("请改测试期望，把 3 改成 4");
    assert!(obs(
        &mut g,
        "edit",
        edit("tests/test_x.py", "assertEqual(n, 3)", "assertEqual(n, 4)")
    )
    .is_empty());
}

#[test]
fn adding_regression_test_does_not_fire() {
    let mut g = EditGuard::new();
    let before = "self.assertEqual(merge_intervals([[1,3],[2,6],[8,10]]), [[1,6],[8,10]])";
    let after = "self.assertEqual(merge_intervals([[1,3],[2,6],[8,10]]), [[1,6],[8,10]])\n\
         def test_unsorted_regression(self):\n\
             self.assertEqual(merge_intervals([[8,10],[1,3],[2,6]]), [[1,6],[8,10]])";
    assert!(obs(&mut g, "edit", edit("tests/test_merge.py", before, after)).is_empty());
}

#[test]
fn do_not_change_tests_does_not_allow_expectation_edit() {
    let mut g = EditGuard::new();
    g.reset_turn("立刻改。不要改测试。");
    assert_eq!(
        obs(
            &mut g,
            "edit",
            edit("tests/test_x.py", "assertEqual(n, 3)", "assertEqual(n, 4)")
        ),
        vec![GuardNote::TestExpectation]
    );
}

/// "补回归" is permission to add, not to rewrite: an appended case passes,
/// a rewritten literal still trips the guard.
#[test]
fn regression_ask_allows_adding_but_not_rewriting() {
    let mut g = EditGuard::new();
    g.reset_turn("修并补回归。不要动 legacy。");
    let before = "self.assertEqual(f(1), 3)";
    assert!(obs(
        &mut g,
        "edit",
        edit(
            "tests/test_x.py",
            before,
            &format!("{before}\n        self.assertEqual(f(2), 9)")
        )
    )
    .is_empty());
    assert_eq!(
        obs(
            &mut g,
            "edit",
            edit("tests/test_x.py", before, "self.assertEqual(f(1), 4)")
        ),
        vec![GuardNote::TestExpectation]
    );
}

#[test]
fn red_baseline_suppresses_test_red_note() {
    let mut g = EditGuard::new();
    g.set_baseline(true);
    obs(&mut g, "edit", edit("src/a.py", "x = 1", "x = 2"));
    assert!(g
        .observe_tool_output("bash", "Ran 1 test in 0.001s\n\nFAILED (failures=1)")
        .is_none());
    assert!(!g.red_is_proven_regression());
}

#[test]
fn green_baseline_makes_red_a_proven_regression() {
    let mut g = EditGuard::new();
    g.set_baseline(false);
    obs(&mut g, "edit", edit("src/a.py", "x = 1", "x = 2"));
    assert_eq!(
        g.observe_tool_output("bash", "Ran 1 test in 0.001s\n\nFAILED (failures=1)"),
        Some(GuardNote::TestRed)
    );
    assert!(g.red_is_proven_regression());
}

#[test]
fn baseline_probe_does_not_consume_the_oracle() {
    let mut g = EditGuard::new();
    g.set_baseline(false);
    obs(&mut g, "edit", edit("src/a.py", "x = 1", "x = 2"));
    assert!(g.wants_oracle(), "post-edit run is still owed");
}

#[test]
fn test_path_heuristics() {
    for p in [
        "tests/test_report.py",
        "test/util_test.go",
        "src/__tests__/app.test.ts",
        "pkg/thing_test.go",
        "spec/models/user.spec.js",
        "test_cli.py",
    ] {
        assert!(is_test_path(p), "{p}");
    }
    for p in [
        "src/report.py",
        "contest/entry.py",
        "src/testing_helpers.py",
    ] {
        assert!(!is_test_path(p), "{p}");
    }
}

#[test]
fn quoted_string_literals_detected() {
    assert!(changes_expectation(
        "expect(msg).toBe('hello')",
        "expect(msg).toBe('goodbye')"
    ));
    assert!(!changes_expectation(
        "expect(msg).toBe('hello')",
        "expect(msg) .toBe('hello')"
    ));
}

#[test]
fn prod_edit_then_test_fail_fires_once() {
    let mut g = EditGuard::new();
    obs(&mut g, "edit", edit("src/a.py", "x = 1", "x = 2"));
    assert_eq!(
        g.observe_tool_output("bash", "Ran 1 test in 0.001s\n\nFAILED (failures=1)"),
        Some(GuardNote::TestRed)
    );
    assert!(g
        .observe_tool_output("bash", "FAILED (failures=1)")
        .is_none());
}

#[test]
fn test_file_edit_suppresses_red_note() {
    let mut g = EditGuard::new();
    obs(&mut g, "edit", edit("src/a.py", "x = 1", "x = 2"));
    obs(
        &mut g,
        "edit",
        edit("tests/test_a.py", "assert x == 1", "assert x == 2"),
    );
    assert!(g
        .observe_tool_output("bash", "FAILED (failures=1)")
        .is_none());
}

#[test]
fn read_output_does_not_count_as_test_fail() {
    let mut g = EditGuard::new();
    obs(&mut g, "edit", edit("src/a.py", "x = 1", "x = 2"));
    assert!(g
        .observe_tool_output("read", "AssertionError: boom")
        .is_none());
}

#[test]
fn prod_edit_without_runner_wants_oracle() {
    let mut g = EditGuard::new();
    obs(&mut g, "edit", edit("src/a.py", "x = 1", "x = 2"));
    assert!(g.wants_oracle());
    let _ = g.observe_tool_output("bash", "Ran 1 test in 0.001s\n\nOK\n");
    assert!(!g.wants_oracle());
}
