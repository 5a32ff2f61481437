//! Three small coding tasks, when each counts as solved, and the report on a run.

use vstd::prelude::*;
use crate::json::opt_text;
use crate::oracle::{path_under, under};
use crate::text::{
    at, chars_of, contains, find, has_prefix, holds, lemma_find_from, lemma_with_text_adds_nothing,
    lemma_with_text_clears, lemma_with_text_holds, lemma_with_text_keeps,
    lemma_with_text_keeps_order, replace_text, same, search, string_of, text2, text3, text4, texts,
    with_text,
};

verus! {

pub const EXPECTED_BANNER: &'static str = "q38-ok";

pub const FAT_PREFIX_TARGET_TOKENS: u32 = 12_000;

/// The context that the models of this project are trained for.
pub const CODING_CTX_TOKENS: u32 = 262_144;

/// Twice a length.
pub fn scale(n: i32) -> (r: i32)
    requires
        i32::MIN <= n * 2 <= i32::MAX,
    ensures
        r == n * 2,
{
    n * 2
}

// ---------------------------------------------------------------------------
// The tasks
// ---------------------------------------------------------------------------

/// One task.
#[derive(Debug, PartialEq, Eq)]
pub struct Task {
    pub name: String,
    /// The directory of its files.
    pub dir_name: String,
    /// What the model is asked.
    pub prompt: String,
}

pub ghost struct TaskV {
    pub name: Seq<char>,
    pub dir_name: Seq<char>,
    pub prompt: Seq<char>,
}

impl View for Task {
    type V = TaskV;

    open spec fn view(&self) -> TaskV {
        TaskV { name: self.name@, dir_name: self.dir_name@, prompt: self.prompt@ }
    }
}

pub const READ_EDIT: &'static str = "01-read-edit";

pub const MULTI_FILE: &'static str = "02-multi-file";

pub const TEST_FIX: &'static str = "03-test-fix";

pub const READ_EDIT_PROMPT: &'static str =
    "Read note.txt first. Then edit src/main.rs so it prints new instead of old. The file must contain println!(\"new\") and must not contain old. Change only what is required.";

pub const MULTI_FILE_PROMPT: &'static str =
    "Read hint.txt. Change the BANNER constant in src/lib.rs so the program would print q38-ok. Do not change src/main.rs.";

pub const TEST_FIX_PROMPT: &'static str =
    "src/lib.rs has a failing unit test. Fix the scale implementation so the existing asserts pass. Do not change the test.";

/// The three tasks, in their order.
pub open spec fn all_tasks() -> Seq<TaskV> {
    seq![
        TaskV { name: READ_EDIT@, dir_name: READ_EDIT@, prompt: READ_EDIT_PROMPT@ },
        TaskV { name: MULTI_FILE@, dir_name: MULTI_FILE@, prompt: MULTI_FILE_PROMPT@ },
        TaskV { name: TEST_FIX@, dir_name: TEST_FIX@, prompt: TEST_FIX_PROMPT@ },
    ]
}

fn task(name: &str, prompt: &str) -> (r: Task)
    ensures
        r@ == (TaskV { name: name@, dir_name: name@, prompt: prompt@ }),
{
    Task { name: name.to_owned(), dir_name: name.to_owned(), prompt: prompt.to_owned() }
}

/// The three tasks, in their order.
pub fn tasks() -> (r: Vec<Task>)
    ensures
        r@.map_values(|t: Task| t@) == all_tasks(),
{
    let mut out: Vec<Task> = Vec::new();
    out.push(task(READ_EDIT, READ_EDIT_PROMPT));
    out.push(task(MULTI_FILE, MULTI_FILE_PROMPT));
    out.push(task(TEST_FIX, TEST_FIX_PROMPT));
    assert(out@.map_values(|t: Task| t@) =~= all_tasks());
    out
}

/// Where the files of the tasks are.
pub fn fixtures_root(manifest_dir: &str) -> (r: String)
    ensures
        r@ == under(manifest_dir@, "fixtures"@),
{
    path_under(manifest_dir, "fixtures")
}

/// Where the files of one task are.
pub fn fixture_dir(manifest_dir: &str, task: &Task) -> (r: String)
    ensures
        r@ == under(under(manifest_dir@, "fixtures"@), task.dir_name@),
{
    path_under(fixtures_root(manifest_dir).as_str(), task.dir_name.as_str())
}

/// Whether an entry of a task's directory is copied with it.
pub fn copies_entry(name: &str) -> (r: bool)
    ensures
        r == (name@ != "target"@ && name@ != ".git"@),
{
    !same(name, "target") && !same(name, ".git")
}

/// The file by which a task is judged.
pub open spec fn judged_file(name: Seq<char>) -> Option<Seq<char>> {
    if name == READ_EDIT@ {
        Some("src/main.rs"@)
    } else if name == MULTI_FILE@ || name == TEST_FIX@ {
        Some("src/lib.rs"@)
    } else {
        None
    }
}

/// The file by which a task is judged.
pub fn task_file(name: &str) -> (r: Option<String>)
    ensures
        opt_text(r) == judged_file(name@),
{
    if same(name, READ_EDIT) {
        Some("src/main.rs".to_owned())
    } else if same(name, MULTI_FILE) || same(name, TEST_FIX) {
        Some("src/lib.rs".to_owned())
    } else {
        None
    }
}

// ---------------------------------------------------------------------------
// Finding a function
// ---------------------------------------------------------------------------

/// Behind the brace that closes the ones open at `i`, of which there are `depth`.
pub open spec fn closing(s: Seq<char>, i: int, depth: nat) -> Option<int>
    decreases s.len() - i,
{
    if i < 0 || i >= s.len() {
        None
    } else if s[i] == '{' {
        closing(s, i + 1, depth + 1)
    } else if s[i] == '}' {
        if depth <= 1 {
            Some(i + 1)
        } else {
            closing(s, i + 1, (depth - 1) as nat)
        }
    } else {
        closing(s, i + 1, depth)
    }
}

/// The function `name` in a source text, up to the brace that closes its body; where
/// none does, up to its body.
pub open spec fn fn_text(src: Seq<char>, name: Seq<char>) -> Option<Seq<char>> {
    match find(src, "fn "@ + name) {
        Some(start) => {
            let rest = src.skip(start);
            match find(rest, "{"@) {
                Some(brace) => Some(
                    rest.take(
                        match closing(rest, brace, 0) {
                            Some(end) => end,
                            None => brace,
                        },
                    ),
                ),
                None => None,
            }
        },
        None => None,
    }
}

fn closing_brace(cs: &Vec<char>, from: usize) -> (r: Option<usize>)
    requires
        from < cs@.len(),
        cs@[from as int] == '{',
    ensures
        (match r {
            Some(e) => Some(e as int),
            None => None,
        }) == closing(cs@, from as int, 0),
        r matches Some(e) ==> from < e <= cs@.len(),
{
    let mut i: usize = from;
    let mut depth: usize = 0;
    while i < cs.len()
        invariant
            from <= i <= cs.len(),
            from < cs@.len(),
            cs@[from as int] == '{',
            depth <= i - from,
            i > from ==> depth >= 1,
            closing(cs@, from as int, 0) == closing(cs@, i as int, depth as nat),
        decreases cs.len() - i,
    {
        let c = cs[i];
        if c == '{' {
            depth = depth + 1;
        } else if c == '}' {
            if depth <= 1 {
                return Some(i + 1);
            }
            depth = depth - 1;
        }
        i = i + 1;
    }
    None
}

/// The function `name` in a source text.
pub fn extract_fn(src: &str, name: &str) -> (r: Option<String>)
    ensures
        opt_text(r) == fn_text(src@, name@),
{
    let needle = text2("fn ", name);
    let cs = chars_of(src);
    let ns = chars_of(needle.as_str());
    proof {
        lemma_find_from(src@, needle@, 0);
    }
    let start: usize = match search(&cs, &ns, 0) {
        Some(i) => i,
        None => {
            return None;
        },
    };
    assert(src@.subrange(start as int, src@.len() as int) =~= src@.skip(start as int));
    let rest = string_of(&cs, start, cs.len());
    let rs = chars_of(rest.as_str());
    let open = chars_of("{");
    proof {
        reveal_strlit("{");
        lemma_find_from(rest@, "{"@, 0);
    }
    let brace: usize = match search(&rs, &open, 0) {
        Some(i) => i,
        None => {
            return None;
        },
    };
    assert(at(rest@, "{"@, brace as int));
    assert(rest@.subrange(brace as int, brace + 1)[0] == rest@[brace as int]);
    let end: usize = match closing_brace(&rs, brace) {
        Some(e) => e,
        None => brace,
    };
    assert(rest@.subrange(0, end as int) =~= rest@.take(end as int));
    Some(string_of(&rs, 0, end))
}

// ---------------------------------------------------------------------------
// Judging
// ---------------------------------------------------------------------------

/// Whether a task is solved, and why.
#[derive(Debug, PartialEq, Eq)]
pub struct Eval {
    pub ok: bool,
    pub notes: String,
}

pub ghost struct EvalV {
    pub ok: bool,
    pub notes: Seq<char>,
}

impl View for Eval {
    type V = EvalV;

    open spec fn view(&self) -> EvalV {
        EvalV { ok: self.ok, notes: self.notes@ }
    }
}

pub open spec fn pass_v(notes: Seq<char>) -> EvalV {
    EvalV { ok: true, notes }
}

pub open spec fn fail_v(notes: Seq<char>) -> EvalV {
    EvalV { ok: false, notes }
}

fn pass(notes: &str) -> (r: Eval)
    ensures
        r@ == pass_v(notes@),
{
    Eval { ok: true, notes: notes.to_owned() }
}

fn fail(notes: &str) -> (r: Eval)
    ensures
        r@ == fail_v(notes@),
{
    Eval { ok: false, notes: notes.to_owned() }
}

pub open spec fn judged_read_edit(src: Option<Seq<char>>) -> EvalV {
    match src {
        None => fail_v("missing src/main.rs"@),
        Some(s) => if !holds(s, "println!(\"new\")"@) {
            fail_v("src/main.rs does not contain println!(\"new\")"@)
        } else if holds(s, "old"@) {
            fail_v("src/main.rs still contains old"@)
        } else {
            pass_v("println!(\"new\") and no old"@)
        },
    }
}

pub open spec fn judged_multi_file(src: Option<Seq<char>>) -> EvalV {
    match src {
        None => fail_v("missing src/lib.rs"@),
        Some(s) => if !holds(s, EXPECTED_BANNER@) {
            fail_v("src/lib.rs does not contain "@ + EXPECTED_BANNER@)
        } else if holds(s, "\"alpha\""@) {
            fail_v("src/lib.rs still has BANNER alpha"@)
        } else {
            pass_v("BANNER is "@ + EXPECTED_BANNER@)
        },
    }
}

/// The assertions that must stay in the third task's file.
pub open spec fn asserts() -> Seq<Seq<char>> {
    seq![
        "assert_eq!(scale(3), 6)"@,
        "assert_eq!(scale(0), 0)"@,
        "assert_eq!(scale(-2), -4)"@,
    ]
}

/// The assertions that must stay in the third task's file.
pub fn scale_asserts() -> (r: Vec<String>)
    ensures
        texts(r@) == asserts(),
{
    let mut out: Vec<String> = Vec::new();
    out.push("assert_eq!(scale(3), 6)".to_owned());
    out.push("assert_eq!(scale(0), 0)".to_owned());
    out.push("assert_eq!(scale(-2), -4)".to_owned());
    assert(texts(out@) =~= asserts());
    out
}

/// The first of the texts, from `i` on, that `s` does not hold.
pub open spec fn first_missing(s: Seq<char>, all: Seq<Seq<char>>, i: int) -> Option<Seq<char>>
    decreases all.len() - i,
{
    if i < 0 || i >= all.len() {
        None
    } else if !holds(s, all[i]) {
        Some(all[i])
    } else {
        first_missing(s, all, i + 1)
    }
}

pub open spec fn judged_test_fix(src: Option<Seq<char>>) -> EvalV {
    match src {
        None => fail_v("missing src/lib.rs"@),
        Some(s) => if !holds(s, "#[cfg(test)]"@) || !holds(s, "mod tests"@) {
            fail_v("unit tests were removed"@)
        } else {
            match first_missing(s, asserts(), 0) {
                Some(a) => fail_v("assert changed or missing: "@ + a),
                None => match fn_text(s, "scale"@) {
                    None => fail_v("could not find pub fn scale"@),
                    Some(f) => if holds(f, "n * n"@) || holds(f, "n.pow("@) {
                        fail_v(
                            "scale still squares n (fix the implementation, not the test)"@,
                        )
                    } else {
                        pass_v("scale implementation changed; asserts intact"@)
                    },
                },
            }
        },
    }
}

/// Whether a task is solved, by the content of its file where it can be read.
pub open spec fn judged(name: Seq<char>, src: Option<Seq<char>>) -> EvalV {
    if name == READ_EDIT@ {
        judged_read_edit(src)
    } else if name == MULTI_FILE@ {
        judged_multi_file(src)
    } else if name == TEST_FIX@ {
        judged_test_fix(src)
    } else {
        fail_v("unknown task "@ + name)
    }
}

pub open spec fn opt_str(s: Option<&str>) -> Option<Seq<char>> {
    match s {
        Some(x) => Some(x@),
        None => None,
    }
}

fn check_read_edit(src: Option<&str>) -> (r: Eval)
    ensures
        r@ == judged_read_edit(opt_str(src)),
{
    let s: &str = match src {
        Some(s) => s,
        None => {
            return fail("missing src/main.rs");
        },
    };
    if !contains(s, "println!(\"new\")") {
        return fail("src/main.rs does not contain println!(\"new\")");
    }
    if contains(s, "old") {
        return fail("src/main.rs still contains old");
    }
    pass("println!(\"new\") and no old")
}

fn check_multi_file(src: Option<&str>) -> (r: Eval)
    ensures
        r@ == judged_multi_file(opt_str(src)),
{
    let s: &str = match src {
        Some(s) => s,
        None => {
            return fail("missing src/lib.rs");
        },
    };
    if !contains(s, EXPECTED_BANNER) {
        return fail(text2("src/lib.rs does not contain ", EXPECTED_BANNER).as_str());
    }
    if contains(s, "\"alpha\"") {
        return fail("src/lib.rs still has BANNER alpha");
    }
    pass(text2("BANNER is ", EXPECTED_BANNER).as_str())
}

fn check_test_fix(src: Option<&str>) -> (r: Eval)
    ensures
        r@ == judged_test_fix(opt_str(src)),
{
    let s: &str = match src {
        Some(s) => s,
        None => {
            return fail("missing src/lib.rs");
        },
    };
    if !contains(s, "#[cfg(test)]") || !contains(s, "mod tests") {
        return fail("unit tests were removed");
    }
    let all = scale_asserts();
    let ghost av = asserts();
    let mut i: usize = 0;
    while i < all.len()
        invariant
            i <= all@.len(),
            texts(all@) == av,
            av == asserts(),
            opt_str(src) == Some(s@),
            holds(s@, "#[cfg(test)]"@) && holds(s@, "mod tests"@),
            first_missing(s@, av, 0) == first_missing(s@, av, i as int),
        decreases all.len() - i,
    {
        assert(av[i as int] == all@[i as int]@);
        if !contains(s, all[i].as_str()) {
            return fail(text2("assert changed or missing: ", all[i].as_str()).as_str());
        }
        i = i + 1;
    }
    let func: String = match extract_fn(s, "scale") {
        Some(f) => f,
        None => {
            return fail("could not find pub fn scale");
        },
    };
    if contains(func.as_str(), "n * n") || contains(func.as_str(), "n.pow(") {
        return fail("scale still squares n (fix the implementation, not the test)");
    }
    pass("scale implementation changed; asserts intact")
}

/// Whether a task is solved, by the content of its file where it can be read.
pub fn evaluate(name: &str, src: Option<&str>) -> (r: Eval)
    ensures
        r@ == judged(name@, opt_str(src)),
{
    if same(name, READ_EDIT) {
        check_read_edit(src)
    } else if same(name, MULTI_FILE) {
        check_multi_file(src)
    } else if same(name, TEST_FIX) {
        check_test_fix(src)
    } else {
        fail(text2("unknown task ", name).as_str())
    }
}

/// How a run of the project's own tests went.
#[derive(Debug, PartialEq, Eq)]
pub enum TestRun {
    Passed,
    Failed,
    /// They could not be run, and why.
    Skipped(String),
}

/// Whether the project's own tests are run after a task was judged.
pub open spec fn tests_wanted(name: Seq<char>, ok: bool) -> bool {
    name == TEST_FIX@ && ok
}

/// Whether the project's own tests are run after a task was judged.
pub fn wants_test_run(name: &str, ev: &Eval) -> (r: bool)
    ensures
        r == tests_wanted(name@, ev.ok),
{
    same(name, TEST_FIX) && ev.ok
}

/// The judgement after the tests ran.
pub open spec fn with_run(name: Seq<char>, ev: EvalV, run: TestRun) -> EvalV {
    if !tests_wanted(name, ev.ok) {
        ev
    } else {
        match run {
            TestRun::Passed => EvalV { ok: ev.ok, notes: ev.notes + "; cargo test passed"@ },
            TestRun::Failed => EvalV { ok: false, notes: ev.notes + "; cargo test failed"@ },
            TestRun::Skipped(e) => EvalV {
                ok: ev.ok,
                notes: ev.notes + "; cargo test skipped: "@ + e@,
            },
        }
    }
}

/// The judgement after the tests ran: a red run fails the task; a run that was not
/// possible only says so.
pub fn evaluate_live(name: &str, ev: Eval, run: &TestRun) -> (r: Eval)
    ensures
        r@ == with_run(name@, ev@, *run),
{
    if !wants_test_run(name, &ev) {
        return ev;
    }
    match run {
        TestRun::Passed => Eval {
            ok: ev.ok,
            notes: text2(ev.notes.as_str(), "; cargo test passed"),
        },
        TestRun::Failed => Eval {
            ok: false,
            notes: text2(ev.notes.as_str(), "; cargo test failed"),
        },
        TestRun::Skipped(e) => Eval {
            ok: ev.ok,
            notes: text3(ev.notes.as_str(), "; cargo test skipped: ", e.as_str()),
        },
    }
}

/// The file of a task with its known good change; nothing for a task that is unknown.
pub open spec fn golden(name: Seq<char>, src: Seq<char>) -> Option<Seq<char>> {
    if name == READ_EDIT@ {
        Some(with_text(src, "println!(\"old\")"@, "println!(\"new\")"@))
    } else if name == MULTI_FILE@ {
        Some(with_text(src, "\"alpha\""@, "\"q38-ok\""@))
    } else if name == TEST_FIX@ {
        Some(with_text(src, "n * n"@, "n * 2"@))
    } else {
        None
    }
}

/// The file of a task with its known good change, or what is wrong.
pub fn apply_golden(name: &str, src: &str) -> (r: Result<String, String>)
    ensures
        r is Ok <==> golden(name@, src@) is Some,
        r matches Ok(s) ==> Some(s@) == golden(name@, src@),
        r matches Err(e) ==> e@ == "unknown task "@ + name@,
{
    proof {
        reveal_strlit("println!(\"old\")");
        reveal_strlit("\"alpha\"");
        reveal_strlit("n * n");
    }
    if same(name, READ_EDIT) {
        Ok(replace_text(src, "println!(\"old\")", "println!(\"new\")"))
    } else if same(name, MULTI_FILE) {
        Ok(replace_text(src, "\"alpha\"", "\"q38-ok\""))
    } else if same(name, TEST_FIX) {
        Ok(replace_text(src, "n * n", "n * 2"))
    } else {
        Err(text2("unknown task ", name))
    }
}

/// What is said of a task whose files are as they should be: unsolved at first, solved
/// after the known good change; or what is wrong with them.
pub fn validate_fixture(name: &str, unsolved: &Eval, patched: &Eval) -> (r: Result<String, String>)
    ensures
        r is Ok <==> !unsolved.ok && patched.ok,
        r matches Ok(s) ==> s@ == name@ + "  unsolved=fail  patched=ok  ("@ + patched.notes@ + ")"@,
        r matches Err(e) ==> e@ == (if unsolved.ok {
            name@ + " unsolved fixture already passes the success predicate"@
        } else {
            name@ + " golden patch failed: "@ + patched.notes@
        }),
{
    if unsolved.ok {
        return Err(text2(name, " unsolved fixture already passes the success predicate"));
    }
    if !patched.ok {
        return Err(text3(name, " golden patch failed: ", patched.notes.as_str()));
    }
    Ok(text4(name, "  unsolved=fail  patched=ok  (", patched.notes.as_str(), ")"))
}

/// The file of the third task as it is given, up to its function.
pub const SCALE_HEAD: &'static str =
    "/// Double a length. The unit tests expect 2*n, not n squared.\npub ";

pub const SCALE_SIGNATURE: &'static str = "fn scale(n: i32) -> i32 ";

/// The body that the third task is about.
pub const SCALE_SQUARED: &'static str = "{\n    n * n\n}";

/// The tests of the third task, up to their assertions.
pub const SCALE_TESTS: &'static str =
    " {\n    use super::*;\n\n    #[test]\n    fn scale_doubles() {\n        ";

/// The tests in the file of the third task.
pub open spec fn test_fix_tests() -> Seq<char> {
    "\n\n"@ + "#[cfg(test)]"@ + "\n"@ + "mod tests"@ + SCALE_TESTS@ + asserts()[0] + ";\n        "@
        + asserts()[1] + ";\n        "@ + asserts()[2] + ";\n    }\n}\n"@
}

/// The file of the third task as it is given.
pub open spec fn test_fix_given() -> Seq<char> {
    SCALE_HEAD@ + (SCALE_SIGNATURE@ + (SCALE_SQUARED@ + test_fix_tests()))
}

/// The file of the third task as it is given.
pub fn test_fix_file() -> (r: String)
    ensures
        r@ == test_fix_given(),
{
    let all = scale_asserts();
    let mut tests = text4("\n\n", "#[cfg(test)]", "\n", "mod tests");
    tests.append(SCALE_TESTS);
    assert(texts(all@).len() == asserts().len() == 3);
    assert(texts(all@)[0] == all@[0]@ && texts(all@)[1] == all@[1]@ && texts(all@)[2]
        == all@[2]@);
    tests.append(all[0].as_str());
    tests.append(";\n        ");
    tests.append(all[1].as_str());
    tests.append(";\n        ");
    tests.append(all[2].as_str());
    tests.append(";\n    }\n}\n");
    let r = text4(SCALE_HEAD, SCALE_SIGNATURE, SCALE_SQUARED, tests.as_str());
    assert(r@ =~= test_fix_given());
    r
}

// ---------------------------------------------------------------------------
// Laws
// ---------------------------------------------------------------------------

/// There is a known good change for every task, and for nothing else.
pub proof fn law_every_task_has_a_golden_change(name: Seq<char>, src: Seq<char>)
    ensures
        golden(name, src) is Some <==> exists|i: int|
            0 <= i < all_tasks().len() && (#[trigger] all_tasks()[i]).name == name,
{
    assert(all_tasks()[0].name == READ_EDIT@);
    assert(all_tasks()[1].name == MULTI_FILE@);
    assert(all_tasks()[2].name == TEST_FIX@);
}

/// A file that still prints the old word is not solved; the known good change solves it,
/// unless the word stands elsewhere too.
pub proof fn law_golden_solves_read_edit(src: Seq<char>)
    requires
        holds(src, "println!(\"old\")"@),
    ensures
        !judged(READ_EDIT@, Some(src)).ok,
        judged(READ_EDIT@, golden(READ_EDIT@, src)).ok <==> !holds(
            golden(READ_EDIT@, src)->0,
            "old"@,
        ),
{
    reveal_strlit("println!(\"old\")");
    reveal_strlit("println!(\"new\")");
    reveal_strlit("old");
    let pat = "println!(\"old\")"@;
    let i = choose|i: int| at(src, pat, i);
    assert(at(src, pat, i));
    assert(src.subrange(i + 10, i + 13) =~= "old"@) by {
        assert forall|k: int| 0 <= k < 3 implies src[i + 10 + k] == "old"@[k] by {
            assert(src.subrange(i, i + pat.len())[10 + k] == pat[10 + k]);
        }
    }
    assert(at(src, "old"@, i + 10));
    lemma_with_text_holds(src, pat, "println!(\"new\")"@);
}

/// A file that still has the first banner is not solved; the known good change solves it,
/// unless it makes the first banner anew.
pub proof fn law_golden_solves_multi_file(src: Seq<char>)
    requires
        holds(src, "\"alpha\""@),
    ensures
        !judged(MULTI_FILE@, Some(src)).ok,
        judged(MULTI_FILE@, golden(MULTI_FILE@, src)).ok <==> !holds(
            golden(MULTI_FILE@, src)->0,
            "\"alpha\""@,
        ),
{
    reveal_strlit("01-read-edit");
    reveal_strlit("02-multi-file");
    assert(MULTI_FILE@[1] != READ_EDIT@[1]);
    reveal_strlit("\"alpha\"");
    reveal_strlit("\"q38-ok\"");
    reveal_strlit("q38-ok");
    let by = "\"q38-ok\""@;
    lemma_with_text_holds(src, "\"alpha\""@, by);
    let g = golden(MULTI_FILE@, src)->0;
    let i = choose|i: int| at(g, by, i);
    assert(at(g, by, i));
    assert(g.subrange(i + 1, i + 7) =~= EXPECTED_BANNER@) by {
        assert forall|k: int| 0 <= k < 6 implies g[i + 1 + k] == EXPECTED_BANNER@[k] by {
            assert(g.subrange(i, i + by.len())[1 + k] == by[1 + k]);
        }
    }
    assert(at(g, EXPECTED_BANNER@, i + 1));
}

proof fn lemma_kept(src: Seq<char>, keep: Seq<char>)
    requires
        holds(src, keep),
        keep.len() > 0,
        !keep.contains('*'),
        !"n * n"@.contains(keep[0]),
        !"n * n"@.contains(keep.last()),
    ensures
        holds(with_text(src, "n * n"@, "n * 2"@), keep),
{
    reveal_strlit("n * n");
    let pat = "n * n"@;
    if holds(keep, pat) {
        let i = choose|i: int| at(keep, pat, i);
        assert(at(keep, pat, i));
        assert(keep.subrange(i, i + pat.len())[2] == pat[2]);
        assert(keep[i + 2] == '*');
    }
    lemma_with_text_keeps(src, pat, "n * 2"@, keep);
}

/// A file whose function squares is not solved; the known good change leaves the tests
/// and their assertions standing, the function in its place and no square behind, so it
/// solves the file unless the function raises to a power too.
pub proof fn law_golden_solves_test_fix(src: Seq<char>)
    requires
        holds(src, "#[cfg(test)]"@),
        holds(src, "mod tests"@),
        first_missing(src, asserts(), 0) is None,
        fn_text(src, "scale"@) is Some,
        holds(fn_text(src, "scale"@)->0, "n * n"@),
    ensures
        !judged(TEST_FIX@, Some(src)).ok,
        judged(TEST_FIX@, golden(TEST_FIX@, src)).ok <==> (fn_text(
            golden(TEST_FIX@, src)->0,
            "scale"@,
        ) matches Some(f) && !holds(f, "n.pow("@)),
        fn_text(golden(TEST_FIX@, src)->0, "scale"@) is Some,
        !holds(src, "n.pow("@) ==> judged(TEST_FIX@, golden(TEST_FIX@, src)).ok,
{
    reveal_strlit("01-read-edit");
    reveal_strlit("02-multi-file");
    reveal_strlit("03-test-fix");
    assert(TEST_FIX@[1] != READ_EDIT@[1]);
    assert(TEST_FIX@[1] != MULTI_FILE@[1]);
    reveal_strlit("n * n");
    reveal_strlit("n * 2");
    reveal_strlit("#[cfg(test)]");
    reveal_strlit("mod tests");
    reveal_strlit("assert_eq!(scale(3), 6)");
    reveal_strlit("assert_eq!(scale(0), 0)");
    reveal_strlit("assert_eq!(scale(-2), -4)");
    let pat = "n * n"@;
    let by = "n * 2"@;
    let g = with_text(src, pat, by);
    reveal_with_fuel(first_missing, 5);
    assert(asserts()[0] == "assert_eq!(scale(3), 6)"@);
    assert(asserts()[1] == "assert_eq!(scale(0), 0)"@);
    assert(asserts()[2] == "assert_eq!(scale(-2), -4)"@);
    lemma_kept(src, "#[cfg(test)]"@);
    lemma_kept(src, "mod tests"@);
    lemma_kept(src, asserts()[0]);
    lemma_kept(src, asserts()[1]);
    lemma_kept(src, asserts()[2]);
    assert(first_missing(g, asserts(), 0) is None);
    assert(by.drop_last() =~= pat.drop_last());
    lemma_with_text_clears(src, pat, by);
    lemma_still_found(src);
    let f = fn_text(g, "scale"@)->0;
    if holds(f, pat) {
        lemma_in_fn_text(g, "scale"@, pat);
    }
    if holds(f, "n.pow("@) {
        reveal_strlit("n.pow(");
        lemma_in_fn_text(g, "scale"@, "n.pow("@);
        lemma_with_text_adds_nothing(src, pat, by, "n.pow("@);
    }
}

proof fn lemma_holds_in(a: Seq<char>, b: Seq<char>, c: Seq<char>)
    ensures
        holds(a + b + c, b),
{
    assert((a + b + c).subrange(a.len() as int, (a.len() + b.len()) as int) =~= b);
    assert(at(a + b + c, b, a.len() as int));
}

proof fn lemma_holds_more(a: Seq<char>, b: Seq<char>, pat: Seq<char>)
    requires
        holds(b, pat),
    ensures
        holds(a + b, pat),
{
    let i = choose|i: int| at(b, pat, i);
    assert(at(b, pat, i));
    assert((a + b).subrange(a.len() + i, a.len() + i + pat.len()) =~= b.subrange(
        i,
        i + pat.len(),
    ));
    assert(at(a + b, pat, a.len() + i));
}

/// What stands at the front of `b` is first found there, where nothing in `a` begins like
/// it.
proof fn lemma_first_in(a: Seq<char>, b: Seq<char>, pat: Seq<char>)
    requires
        pat.len() > 0,
        has_prefix(b, pat),
        !a.contains(pat[0]),
    ensures
        find(a + b, pat) == Some(a.len() as int),
{
    let s = a + b;
    lemma_find_from(s, pat, 0);
    assert(s.subrange(a.len() as int, (a.len() + pat.len()) as int) =~= b.subrange(
        0,
        pat.len() as int,
    ));
    assert(at(s, pat, a.len() as int));
    assert forall|j: int| 0 <= j < a.len() implies !at(s, pat, j) by {
        if at(s, pat, j) {
            assert(s.subrange(j, j + pat.len())[0] == a[j]);
            assert(a.contains(a[j]));
        }
    }
}

/// The tests of the third task are all there.
proof fn lemma_given_tests()
    ensures
        holds(test_fix_tests(), "#[cfg(test)]"@),
        holds(test_fix_tests(), "mod tests"@),
        holds(test_fix_tests(), asserts()[0]),
        holds(test_fix_tests(), asserts()[1]),
        holds(test_fix_tests(), asserts()[2]),
{
    let s = test_fix_tests();
    let gap = ";\n        "@;
    let end = ";\n    }\n}\n"@;
    let p1 = "\n\n"@;
    let p2 = p1 + "#[cfg(test)]"@ + "\n"@;
    let p3 = p2 + "mod tests"@ + SCALE_TESTS@;
    let p4 = p3 + asserts()[0] + gap;
    let p5 = p4 + asserts()[1] + gap;
    let t4 = asserts()[2] + end;
    let t3 = asserts()[1] + gap + t4;
    let t2 = asserts()[0] + gap + t3;
    let t1 = "mod tests"@ + SCALE_TESTS@ + t2;
    assert(s =~= p1 + "#[cfg(test)]"@ + ("\n"@ + t1));
    assert(s =~= p2 + "mod tests"@ + (SCALE_TESTS@ + t2));
    assert(s =~= p3 + asserts()[0] + (gap + t3));
    assert(s =~= p4 + asserts()[1] + (gap + t4));
    assert(s =~= p5 + asserts()[2] + end);
    lemma_holds_in(p1, "#[cfg(test)]"@, "\n"@ + t1);
    lemma_holds_in(p2, "mod tests"@, SCALE_TESTS@ + t2);
    lemma_holds_in(p3, asserts()[0], gap + t3);
    lemma_holds_in(p4, asserts()[1], gap + t4);
    lemma_holds_in(p5, asserts()[2], end);
}

proof fn lemma_without(a: Seq<char>, b: Seq<char>, c: char)
    requires
        !a.contains(c),
        !b.contains(c),
    ensures
        !(a + b).contains(c),
{
    let s = a + b;
    assert forall|i: int| 0 <= i < s.len() implies s[i] != c by {
        if i < a.len() {
            assert(a.contains(a[i]));
        } else {
            assert(b.contains(b[i - a.len()]));
        }
    }
}

/// No point is in the tests of the third task.
proof fn lemma_given_tests_without()
    ensures
        !test_fix_tests().contains('.'),
{
    reveal_strlit("\n\n");
    reveal_strlit("#[cfg(test)]");
    reveal_strlit("\n");
    reveal_strlit("mod tests");
    reveal_strlit(" {\n    use super::*;\n\n    #[test]\n    fn scale_doubles() {\n        ");
    reveal_strlit("assert_eq!(scale(3), 6)");
    reveal_strlit("assert_eq!(scale(0), 0)");
    reveal_strlit("assert_eq!(scale(-2), -4)");
    reveal_strlit(";\n        ");
    reveal_strlit(";\n    }\n}\n");
    let gap = ";\n        "@;
    let p1 = "\n\n"@ + "#[cfg(test)]"@;
    let p2 = p1 + "\n"@;
    let p3 = p2 + "mod tests"@;
    let p4 = p3 + SCALE_TESTS@;
    let p5 = p4 + asserts()[0];
    let p6 = p5 + gap;
    let p7 = p6 + asserts()[1];
    let p8 = p7 + gap;
    let p9 = p8 + asserts()[2];
    lemma_without("\n\n"@, "#[cfg(test)]"@, '.');
    lemma_without(p1, "\n"@, '.');
    lemma_without(p2, "mod tests"@, '.');
    lemma_without(p3, SCALE_TESTS@, '.');
    lemma_without(p4, asserts()[0], '.');
    lemma_without(p5, gap, '.');
    lemma_without(p6, asserts()[1], '.');
    lemma_without(p7, gap, '.');
    lemma_without(p8, asserts()[2], '.');
    lemma_without(p9, ";\n    }\n}\n"@, '.');
}

/// The function of the third task, as it is given, squares.
proof fn lemma_given_function()
    ensures
        fn_text(test_fix_given(), "scale"@) == Some(SCALE_SIGNATURE@ + SCALE_SQUARED@),
        holds(SCALE_SIGNATURE@ + SCALE_SQUARED@, "n * n"@),
{
    reveal_strlit("fn ");
    reveal_strlit("scale");
    reveal_strlit("{");
    reveal_strlit("n * n");
    reveal_strlit("/// Double a length. The unit tests expect 2*n, not n squared.\npub ");
    reveal_strlit("fn scale(n: i32) -> i32 ");
    reveal_strlit("{\n    n * n\n}");
    let sig = SCALE_SIGNATURE@;
    let body = SCALE_SQUARED@;
    let behind = body + test_fix_tests();
    let rest = sig + behind;
    let pat = "fn "@ + "scale"@;
    assert(pat.len() == 8);
    assert(rest.subrange(0, 8) =~= pat);
    assert(has_prefix(rest, pat));
    assert(!SCALE_HEAD@.contains('f'));
    lemma_first_in(SCALE_HEAD@, rest, pat);
    assert(test_fix_given().skip(SCALE_HEAD@.len() as int) =~= rest);
    assert(behind.subrange(0, 1) =~= "{"@);
    assert(has_prefix(behind, "{"@));
    assert(!sig.contains('{'));
    lemma_first_in(sig, behind, "{"@);
    assert(sig.len() == 24 && body.len() == 13);
    assert forall|k: int| 0 <= k < 13 implies rest[24 + k] == body[k] by {}
    assert(rest[24] == body[0] && rest[25] == body[1] && rest[26] == body[2] && rest[27] == body[3]
        && rest[28] == body[4] && rest[29] == body[5] && rest[30] == body[6] && rest[31] == body[7]
        && rest[32] == body[8] && rest[33] == body[9] && rest[34] == body[10] && rest[35]
        == body[11] && rest[36] == body[12]);
    reveal_with_fuel(closing, 14);
    assert(closing(rest, 24, 0) == Some(37int));
    assert(rest.take(37) =~= sig + body);
    assert((sig + body).subrange(30, 35) =~= "n * n"@);
    assert(at(sig + body, "n * n"@, 30));
}

/// The third task's file as it is given is not solved, and the known good change solves
/// it.
pub proof fn law_golden_solves_the_given_test_fix()
    ensures
        !judged(TEST_FIX@, Some(test_fix_given())).ok,
        judged(TEST_FIX@, golden(TEST_FIX@, test_fix_given())).ok,
{
    let s = test_fix_given();
    let front = SCALE_HEAD@ + (SCALE_SIGNATURE@ + SCALE_SQUARED@);
    let tests = test_fix_tests();
    assert(s =~= front + tests);
    lemma_given_tests();
    lemma_holds_more(front, tests, "#[cfg(test)]"@);
    lemma_holds_more(front, tests, "mod tests"@);
    lemma_holds_more(front, tests, asserts()[0]);
    lemma_holds_more(front, tests, asserts()[1]);
    lemma_holds_more(front, tests, asserts()[2]);
    reveal_with_fuel(first_missing, 5);
    assert(first_missing(s, asserts(), 0) is None);
    lemma_given_function();
    reveal_strlit("n.pow(");
    if holds(s, "n.pow("@) {
        let i = choose|i: int| at(s, "n.pow("@, i);
        assert(at(s, "n.pow("@, i));
        let m = s.subrange(i, i + 6);
        assert(m[1] == s[i + 1] && m[2] == s[i + 2]);
        assert(s[i + 1] == '.' && s[i + 2] == 'p');
        lemma_points_in_front(i + 1);
    }
    law_golden_solves_test_fix(s);
}

/// No point in the third task's file has a `p` behind it.
proof fn lemma_points_in_front(j: int)
    requires
        0 <= j < test_fix_given().len() - 1,
        test_fix_given()[j] == '.',
    ensures
        test_fix_given()[j + 1] != 'p',
{
    reveal_strlit("/// Double a length. The unit tests expect 2*n, not n squared.\npub ");
    reveal_strlit("fn scale(n: i32) -> i32 ");
    reveal_strlit("{\n    n * n\n}");
    lemma_given_tests_without();
    let s = test_fix_given();
    let head = SCALE_HEAD@;
    let sig = SCALE_SIGNATURE@;
    let body = SCALE_SQUARED@;
    let tests = test_fix_tests();
    assert(!sig.contains('.') && !body.contains('.'));
    if j < head.len() {
        assert(head[j] == '.');
        assert(head[head.len() - 1] == ' ');
        assert(s[j + 1] == head[j + 1]);
        assert(head[j + 1] == ' ' || head[j + 1] == '\n');
    } else if j < head.len() + sig.len() {
        assert(sig[j - head.len()] == '.');
    } else if j < head.len() + sig.len() + body.len() {
        assert(body[j - head.len() - sig.len()] == '.');
    } else {
        assert(tests[j - head.len() - sig.len() - body.len()] == '.');
    }
}

proof fn lemma_still_found(src: Seq<char>)
    requires
        fn_text(src, "scale"@) is Some,
    ensures
        fn_text(with_text(src, "n * n"@, "n * 2"@), "scale"@) is Some,
{
    reveal_strlit("n * n");
    reveal_strlit("fn ");
    reveal_strlit("scale");
    reveal_strlit("{");
    let pat = "n * n"@;
    let by = "n * 2"@;
    let g = with_text(src, pat, by);
    let head = "fn "@ + "scale"@;
    let open = "{"@;
    lemma_find_from(src, head, 0);
    let start = find(src, head)->0;
    let rest = src.skip(start);
    lemma_find_from(rest, open, 0);
    let brace = find(rest, open)->0;
    assert(at(src, head, start));
    assert(src.subrange(start + brace, start + brace + 1) =~= rest.subrange(brace, brace + 1));
    assert(at(src, open, start + brace));
    if holds(head, pat) {
        let i = choose|i: int| at(head, pat, i);
        assert(at(head, pat, i));
        assert(head.subrange(i, i + pat.len())[2] == pat[2]);
        assert(head[i + 2] == '*');
    }
    if holds(open, pat) {
        let i = choose|i: int| at(open, pat, i);
        assert(at(open, pat, i));
    }
    lemma_with_text_keeps_order(src, pat, by, head, start, open, start + brace);
    let (a, b) = choose|a: int, b: int|
        a <= b && #[trigger] at(g, head, a) && #[trigger] at(g, open, b);
    lemma_find_from(g, head, 0);
    let first = find(g, head)->0;
    assert(first <= a);
    let later = g.skip(first);
    assert(later.subrange(b - first, b - first + 1) =~= g.subrange(b, b + 1));
    assert(at(later, open, b - first));
    lemma_find_from(later, open, 0);
}

/// What a function's text holds, the whole source holds.
proof fn lemma_in_fn_text(src: Seq<char>, name: Seq<char>, pat: Seq<char>)
    requires
        fn_text(src, name) is Some,
        holds(fn_text(src, name)->0, pat),
    ensures
        holds(src, pat),
{
    lemma_find_from(src, "fn "@ + name, 0);
    let start = find(src, "fn "@ + name)->0;
    let rest = src.skip(start);
    lemma_find_from(rest, "{"@, 0);
    let brace = find(rest, "{"@)->0;
    lemma_closing(rest, brace, 0);
    let f = fn_text(src, name)->0;
    let i = choose|i: int| at(f, pat, i);
    assert(at(f, pat, i));
    assert(src.subrange(start + i, start + i + pat.len()) =~= f.subrange(i, i + pat.len()));
    assert(at(src, pat, start + i));
}

proof fn lemma_closing(s: Seq<char>, i: int, depth: nat)
    ensures
        closing(s, i, depth) matches Some(e) ==> i < e <= s.len(),
    decreases s.len() - i,
{
    if 0 <= i < s.len() {
        if s[i] == '{' {
            lemma_closing(s, i + 1, depth + 1);
        } else if s[i] == '}' {
            if depth > 1 {
                lemma_closing(s, i + 1, (depth - 1) as nat);
            }
        } else {
            lemma_closing(s, i + 1, depth);
        }
    }
}

/// When each task is solved: the new word is there and the old one nowhere; the new banner
/// is there and the old one gone; the tests and their assertions stand, and the function
/// squares no more.
pub proof fn law_when_a_task_is_solved(src: Seq<char>)
    ensures
        judged(READ_EDIT@, Some(src)).ok <==> holds(src, "println!(\"new\")"@) && !holds(
            src,
            "old"@,
        ),
        judged(MULTI_FILE@, Some(src)).ok <==> holds(src, "q38-ok"@) && !holds(src, "\"alpha\""@),
        judged(TEST_FIX@, Some(src)).ok <==> holds(src, "#[cfg(test)]"@) && holds(src, "mod tests"@)
            && holds(src, "assert_eq!(scale(3), 6)"@) && holds(src, "assert_eq!(scale(0), 0)"@)
            && holds(src, "assert_eq!(scale(-2), -4)"@) && fn_text(src, "scale"@) is Some && !holds(
            fn_text(src, "scale"@)->0,
            "n * n"@,
        ) && !holds(fn_text(src, "scale"@)->0, "n.pow("@),
        !judged(READ_EDIT@, None).ok && !judged(MULTI_FILE@, None).ok && !judged(TEST_FIX@, None).ok,
{
    reveal_strlit("01-read-edit");
    reveal_strlit("02-multi-file");
    reveal_strlit("03-test-fix");
    assert(MULTI_FILE@[1] != READ_EDIT@[1] && TEST_FIX@[1] != READ_EDIT@[1] && TEST_FIX@[1]
        != MULTI_FILE@[1]);
    reveal_with_fuel(first_missing, 5);
    let all = asserts();
    assert(all.len() == 3 && all[0] == "assert_eq!(scale(3), 6)"@ && all[1]
        == "assert_eq!(scale(0), 0)"@ && all[2] == "assert_eq!(scale(-2), -4)"@);
}

/// A function is found by its name, and reaches to the brace that closes its body.
pub proof fn law_a_function_reaches_to_its_brace(
    a: Seq<char>,
    name: Seq<char>,
    sig: Seq<char>,
    body: Seq<char>,
    rest: Seq<char>,
)
    requires
        !a.contains('f'),
        !name.contains('{') && !sig.contains('{'),
        !body.contains('{') && !body.contains('}'),
    ensures
        fn_text(a + ("fn "@ + name + sig + seq!['{'] + body + seq!['}'] + rest), name) == Some(
            "fn "@ + name + sig + seq!['{'] + body + seq!['}'],
        ),
{
    reveal_strlit("fn ");
    reveal_strlit("{");
    let head = "fn "@ + name;
    let later = head + sig + seq!['{'] + body + seq!['}'] + rest;
    let src = a + later;
    assert(later.subrange(0, head.len() as int) =~= head);
    lemma_first_in(a, later, head);
    assert(src.skip(a.len() as int) =~= later);
    let front = head + sig;
    let behind = seq!['{'] + body + seq!['}'] + rest;
    assert(later =~= front + behind);
    assert(!front.contains('{')) by {
        assert forall|i: int| 0 <= i < front.len() implies front[i] != '{' by {
            if 3 <= i < 3 + name.len() {
                assert(name.contains(name[i - 3]));
            } else if i >= 3 + name.len() {
                assert(sig.contains(sig[i - 3 - name.len()]));
            }
        }
    }
    assert(behind.subrange(0, 1) =~= "{"@);
    lemma_first_in(front, behind, "{"@);
    let k = front.len() as int;
    assert(later[k] == '{');
    lemma_closing_past(later, k + 1, k + 1 + body.len());
    let e = k + 1 + body.len();
    assert forall|j: int| k + 1 <= j < e implies later[j] != '{' && later[j] != '}' by {
        assert(later[j] == body[j - k - 1]);
        assert(body.contains(body[j - k - 1]));
    }
    lemma_closing_past(later, k + 1, e as int);
    assert(later[e as int] == '}');
    assert(closing(later, k, 0) == Some(e + 1));
    assert(later.take(e + 1) =~= head + sig + seq!['{'] + body + seq!['}']);
}

proof fn lemma_closing_past(s: Seq<char>, i: int, e: int)
    requires
        0 <= i <= e < s.len(),
    ensures
        (forall|j: int| i <= j < e ==> #[trigger] s[j] != '{' && s[j] != '}') ==> closing(s, i, 1)
            == closing(s, e, 1),
    decreases e - i,
{
    if i < e && (forall|j: int| i <= j < e ==> #[trigger] s[j] != '{' && s[j] != '}') {
        assert(s[i] != '{' && s[i] != '}');
        lemma_closing_past(s, i + 1, e);
    }
}

/// The tests of the third task are run where it counts as solved, and a red run fails it; no
/// other judgement changes.
pub proof fn law_what_a_test_run_changes(name: Seq<char>, ev: EvalV, run: TestRun)
    ensures
        name != "03-test-fix"@ || !ev.ok ==> with_run(name, ev, run) == ev,
        name == "03-test-fix"@ && ev.ok ==> (with_run(name, ev, run).ok <==> !(run is Failed)),
        name == "03-test-fix"@ && ev.ok && run is Passed ==> with_run(name, ev, run).notes
            == ev.notes + "; cargo test passed"@,
        name == "03-test-fix"@ && ev.ok && run is Failed ==> with_run(name, ev, run).notes
            == ev.notes + "; cargo test failed"@,
{
}

/// Each task is judged by its own file.
pub proof fn law_which_file_is_judged(name: Seq<char>)
    ensures
        judged_file("01-read-edit"@) == Some("src/main.rs"@),
        judged_file("02-multi-file"@) == Some("src/lib.rs"@),
        judged_file("03-test-fix"@) == Some("src/lib.rs"@),
        name != "01-read-edit"@ && name != "02-multi-file"@ && name != "03-test-fix"@
            ==> judged_file(name) is None,
{
    reveal_strlit("01-read-edit");
    reveal_strlit("02-multi-file");
    reveal_strlit("03-test-fix");
    assert("02-multi-file"@[1] == '2' && "01-read-edit"@[1] == '1' && "03-test-fix"@[1] == '3');
}

} // verus!
