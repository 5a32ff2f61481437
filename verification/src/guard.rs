//! Guards over executed edits: they notice rewritten test expectations, edits that
//! undo each other, and tests that turn red after production code alone changed.
//!
//! A note is a hidden message after the live query, and each kind is rationed.

use vstd::prelude::*;
use crate::json::{Json, JsonV};
use crate::outside::{lowercased, to_lowercase};
use crate::paths::{code_path, is_code_path, is_test_path, normalize_path, normalized, test_path};
use crate::text::{
    chars_of, clone_texts, digit, find_from, holds, in_chars, is_digit, lemma_find_from, list_has,
    lower, same, search, string_of, texts, to_lower,
};

verus! {

/// How many edits are remembered.
pub const EDIT_HISTORY_MAX: usize = 64;

/// How often a session is told that it undoes its own edits.
pub const THRASH_NOTE_MAX: u8 = 2;

/// For an edit that changes what a test expects.
pub const TEST_EXPECTATION_NOTE: &'static str =
    "[guard] 你在修改测试的期望值。测试即规格：若用户描述的 bug 与现有测试/文档一致，这可能是设计行为——先向用户指出矛盾并等确认，不要静默改期望。用户明确要求改测试时忽略本条。";

/// For an edit that undoes an earlier one.
pub const THRASH_NOTE: &'static str =
    "[guard] 你撤销了自己刚才的修改（同一位置改了又改回）。停下：先用一句话说明选定的方案和理由，再按它执行，不要继续来回改。";

/// For tests that went red after an edit of code alone.
pub const TEST_RED_NOTE: &'static str =
    "[guard] 代码改了、测试红了、测试文件没动。这通常是指令和规格打架——先向用户指出矛盾并等确认，不要继续改代码或改期望把测试改绿。";

/// Why a run that nobody watches stops after an edit of an expectation.
pub const STOP_TEST_EXPECTATION: &'static str = "guard:test-expectation";

/// Why a run that nobody watches stops on red tests.
pub const STOP_TEST_RED: &'static str = "guard:test-red";

/// What the guard has to say.
#[derive(Debug, Clone, Copy, PartialEq, Eq, Structural)]
pub enum GuardNote {
    TestExpectation,
    Thrash,
    TestRed,
}

impl GuardNote {
    /// What the model is told.
    pub open spec fn text_of(self) -> Seq<char> {
        match self {
            GuardNote::TestExpectation => TEST_EXPECTATION_NOTE@,
            GuardNote::Thrash => THRASH_NOTE@,
            GuardNote::TestRed => TEST_RED_NOTE@,
        }
    }

    /// What the model is told.
    pub fn text(&self) -> (r: &'static str)
        ensures
            r@ == self.text_of(),
    {
        match self {
            GuardNote::TestExpectation => TEST_EXPECTATION_NOTE,
            GuardNote::Thrash => THRASH_NOTE,
            GuardNote::TestRed => TEST_RED_NOTE,
        }
    }

    pub open spec fn label_of(self) -> Seq<char> {
        match self {
            GuardNote::TestExpectation => "test-expectation"@,
            GuardNote::Thrash => "edit-thrash"@,
            GuardNote::TestRed => "test-red"@,
        }
    }

    pub fn label(&self) -> (r: &'static str)
        ensures
            r@ == self.label_of(),
    {
        match self {
            GuardNote::TestExpectation => "test-expectation",
            GuardNote::Thrash => "edit-thrash",
            GuardNote::TestRed => "test-red",
        }
    }

    /// Why a run that nobody watches stops on the note, where it does.
    pub open spec fn stop_of(self) -> Option<Seq<char>> {
        match self {
            GuardNote::TestExpectation => Some(STOP_TEST_EXPECTATION@),
            GuardNote::TestRed => Some(STOP_TEST_RED@),
            GuardNote::Thrash => None,
        }
    }

    /// Why a run that nobody watches stops on the note, where it does.
    pub fn unattended_stop(self) -> (r: Option<&'static str>)
        ensures
            r is Some <==> self.stop_of() is Some,
            r matches Some(s) ==> self.stop_of() == Some(s@),
    {
        match self {
            GuardNote::TestExpectation => Some(STOP_TEST_EXPECTATION),
            GuardNote::TestRed => Some(STOP_TEST_RED),
            GuardNote::Thrash => None,
        }
    }
}

// ---------------------------------------------------------------------------
// Literals
// ---------------------------------------------------------------------------

/// The end of the number that has begun before `i`.
pub open spec fn number_end(s: Seq<char>, i: int) -> int
    decreases s.len() - i,
{
    if 0 <= i < s.len() && (digit(s[i]) || s[i] == '.' || s[i] == '_') {
        number_end(s, i + 1)
    } else {
        i
    }
}

pub proof fn lemma_number_end(s: Seq<char>, i: int)
    requires
        0 <= i <= s.len(),
    ensures
        i <= number_end(s, i) <= s.len(),
    decreases s.len() - i,
{
    if i < s.len() && (digit(s[i]) || s[i] == '.' || s[i] == '_') {
        lemma_number_end(s, i + 1);
    }
}

/// The numbers of a text from `i` on: a digit and the digits, points and
/// underscores after it.
pub open spec fn numbers_from(s: Seq<char>, i: int) -> Seq<Seq<char>>
    decreases s.len() - i,
{
    if i < 0 || i >= s.len() {
        Seq::empty()
    } else if digit(s[i]) {
        let e = number_end(s, i + 1);
        proof {
            lemma_number_end(s, i + 1);
        }
        seq![s.subrange(i, e)] + numbers_from(s, e)
    } else {
        numbers_from(s, i + 1)
    }
}

/// The texts between pairs of the quote `q`, from `from` on.
pub open spec fn quoted_from(s: Seq<char>, q: char, from: int) -> Seq<Seq<char>>
    decreases s.len() - from,
{
    if from < 0 {
        Seq::empty()
    } else {
        proof {
            lemma_find_from(s, seq![q], from);
        }
        match find_from(s, seq![q], from) {
            None => Seq::empty(),
            Some(a) => {
                proof {
                    lemma_find_from(s, seq![q], a + 1);
                }
                match find_from(s, seq![q], a + 1) {
                    None => Seq::empty(),
                    Some(b) => seq![s.subrange(a + 1, b)] + quoted_from(s, q, b + 1),
                }
            },
        }
    }
}

/// The values that a text pins down: its numbers, then its quoted texts.
pub open spec fn literals_of(s: Seq<char>) -> Seq<Seq<char>> {
    numbers_from(s, 0) + quoted_from(s, '"', 0) + quoted_from(s, '\'', 0)
}

fn push_numbers(cs: &Vec<char>, out: &mut Vec<String>)
    ensures
        texts(final(out)@) == texts(old(out)@) + numbers_from(cs@, 0),
{
    let ghost first = texts(out@);
    let mut i: usize = 0;
    assert(texts(out@) + numbers_from(cs@, 0) =~= first + numbers_from(cs@, 0));
    while i < cs.len()
        invariant
            i <= cs@.len(),
            texts(out@) + numbers_from(cs@, i as int) == first + numbers_from(cs@, 0),
        decreases cs.len() - i,
    {
        if is_digit(cs[i]) {
            let mut e: usize = i + 1;
            proof {
                lemma_number_end(cs@, i + 1);
            }
            while e < cs.len() && (is_digit(cs[e]) || cs[e] == '.' || cs[e] == '_')
                invariant
                    i < e <= cs@.len(),
                    number_end(cs@, i + 1) == number_end(cs@, e as int),
                decreases cs.len() - e,
            {
                e = e + 1;
            }
            let ghost before = out@;
            let t = string_of(cs, i, e);
            out.push(t);
            proof {
                assert(texts(out@) =~= texts(before).push(t@));
                let rest = numbers_from(cs@, e as int);
                assert(texts(before).push(t@) + rest =~= texts(before) + (seq![t@] + rest));
            }
            i = e;
        } else {
            i = i + 1;
        }
    }
    assert(texts(out@) + Seq::<Seq<char>>::empty() =~= texts(out@));
}

fn push_quoted(cs: &Vec<char>, q: char, out: &mut Vec<String>)
    ensures
        texts(final(out)@) == texts(old(out)@) + quoted_from(cs@, q, 0),
{
    let ghost first = texts(out@);
    let mut pat: Vec<char> = Vec::new();
    pat.push(q);
    assert(pat@ =~= seq![q]);
    let mut from: usize = 0;
    assert(texts(out@) + quoted_from(cs@, q, 0) =~= first + quoted_from(cs@, q, 0));
    loop
        invariant
            from <= cs@.len(),
            pat@ == seq![q],
            first == texts(old(out)@),
            texts(out@) + quoted_from(cs@, q, from as int) == first + quoted_from(cs@, q, 0),
        decreases cs.len() - from,
    {
        proof {
            lemma_find_from(cs@, seq![q], from as int);
        }
        let a: usize = match search(cs, &pat, from) {
            Some(a) => a,
            None => {
                assert(texts(out@) + Seq::<Seq<char>>::empty() =~= texts(out@));
                return;
            },
        };
        proof {
            lemma_find_from(cs@, seq![q], a + 1);
        }
        let b: usize = match search(cs, &pat, a + 1) {
            Some(b) => b,
            None => {
                assert(texts(out@) + Seq::<Seq<char>>::empty() =~= texts(out@));
                return;
            },
        };
        let ghost before = out@;
        let t = string_of(cs, a + 1, b);
        out.push(t);
        proof {
            assert(texts(out@) =~= texts(before).push(t@));
            let rest = quoted_from(cs@, q, b + 1);
            assert(texts(before).push(t@) + rest =~= texts(before) + (seq![t@] + rest));
        }
        from = b + 1;
    }
}

/// The values that a text pins down.
pub fn literals(s: &str) -> (r: Vec<String>)
    ensures
        texts(r@) == literals_of(s@),
{
    let cs = chars_of(s);
    let mut out: Vec<String> = Vec::new();
    assert(texts(out@) =~= Seq::empty());
    push_numbers(&cs, &mut out);
    assert(Seq::<Seq<char>>::empty() + numbers_from(cs@, 0) =~= numbers_from(cs@, 0));
    push_quoted(&cs, '"', &mut out);
    push_quoted(&cs, '\'', &mut out);
    out
}

/// Every text of `small` is in `big`, at least as often.
pub open spec fn submultiset(small: Seq<Seq<char>>, big: Seq<Seq<char>>) -> bool {
    small.to_multiset().subset_of(big.to_multiset())
}

proof fn lemma_push_multiset(s: Seq<Seq<char>>, x: Seq<char>)
    ensures
        s.push(x).to_multiset() == s.to_multiset().insert(x),
{
    s.to_multiset_ensures();
}

/// Whether every text of `small` is in `big`, at least as often.
pub fn is_submultiset(small: &Vec<String>, big: &Vec<String>) -> (r: bool)
    ensures
        r == submultiset(texts(small@), texts(big@)),
{
    let mut rest: Vec<String> = clone_texts(big);
    let ghost sm = texts(small@);
    let ghost bm = texts(big@).to_multiset();
    let mut i: usize = 0;
    proof {
        sm.take(0).to_multiset_ensures();
        assert(sm.take(0) =~= Seq::empty());
        assert(sm.take(0).to_multiset() =~= vstd::multiset::Multiset::empty());
        assert(bm.sub(sm.take(0).to_multiset()) =~= bm);
    }
    while i < small.len()
        invariant
            i <= small@.len(),
            sm == texts(small@),
            bm == texts(big@).to_multiset(),
            sm.take(i as int).to_multiset().subset_of(bm),
            texts(rest@).to_multiset() == bm.sub(sm.take(i as int).to_multiset()),
        decreases small.len() - i,
    {
        let ghost cur = sm.take(i as int).to_multiset();
        let ghost x = small@[i as int]@;
        assert(sm[i as int] == x);
        proof {
            lemma_push_multiset(sm.take(i as int), x);
            assert(sm.take(i + 1) =~= sm.take(i as int).push(x));
        }
        let mut k: usize = 0;
        while k < rest.len() && !same(rest[k].as_str(), small[i].as_str())
            invariant
                k <= rest@.len(),
                i < small@.len(),
                x == small@[i as int]@,
                forall|j: int| 0 <= j < k ==> #[trigger] rest@[j]@ != x,
            decreases rest.len() - k,
        {
            k = k + 1;
        }
        if k == rest.len() {
            proof {
                texts(rest@).to_multiset_ensures();
                assert(!texts(rest@).contains(x)) by {
                    if texts(rest@).contains(x) {
                        let j = choose|j: int| 0 <= j < texts(rest@).len() && texts(rest@)[j] == x;
                        assert(rest@[j]@ == x);
                    }
                }
                assert(texts(rest@).to_multiset().count(x) == 0);
                assert(bm.count(x) == cur.count(x));
                assert(cur.insert(x).count(x) == cur.count(x) + 1);
                lemma_prefix_counts(sm, i + 1, x);
                assert(!sm.to_multiset().subset_of(bm)) by {
                    assert(sm.to_multiset().count(x) > bm.count(x));
                }
            }
            return false;
        }
        let ghost before = rest@;
        rest.remove(k);
        proof {
            assert(texts(before)[k as int] == x);
            texts(before).to_multiset_ensures();
            assert(texts(rest@) =~= texts(before).remove(k as int));
            assert(texts(rest@).to_multiset() =~= texts(before).to_multiset().remove(x));
            assert(texts(before).contains(x));
            assert(texts(before).to_multiset().count(x) > 0);
            assert(cur.insert(x).subset_of(bm)) by {
                assert forall|v: Seq<char>| cur.insert(x).count(v) <= bm.count(v) by {
                    if v == x {
                        assert(bm.sub(cur).count(x) > 0);
                    }
                }
            }
            assert(bm.sub(cur).remove(x) =~= bm.sub(cur.insert(x)));
        }
        i = i + 1;
    }
    assert(sm.take(i as int) =~= sm);
    true
}

proof fn lemma_prefix_counts(s: Seq<Seq<char>>, k: int, x: Seq<char>)
    requires
        0 <= k <= s.len(),
    ensures
        s.take(k).to_multiset().count(x) <= s.to_multiset().count(x),
    decreases s.len() - k,
{
    if k < s.len() {
        lemma_prefix_counts(s, k + 1, x);
        assert(s.take(k + 1) =~= s.take(k).push(s[k]));
        lemma_push_multiset(s.take(k), s[k]);
    } else {
        assert(s.take(k) =~= s);
    }
}

/// A text in small letters that speaks of assertions.
pub open spec fn asserts(l: Seq<char>) -> bool {
    holds(l, "assert"@) || holds(l, "expect"@) || holds(l, ".should"@) || holds(l, "verify("@)
}

fn looks_assert(l: &str) -> (r: bool)
    ensures
        r == asserts(l@),
{
    let cs = chars_of(l);
    in_chars(&cs, "assert") || in_chars(&cs, "expect") || in_chars(&cs, ".should") || in_chars(
        &cs,
        "verify(",
    )
}

/// Existing assertion values were rewritten, not merely added to.
pub open spec fn expectation_changed(old: Seq<char>, new: Seq<char>) -> bool {
    &&& old != new
    &&& asserts(lowercased(old))
    &&& asserts(lowercased(new))
    &&& !submultiset(literals_of(old), literals_of(new))
}

/// Whether existing assertion values were rewritten, of two texts and what they are
/// in small letters.
pub fn expectation_differs(old: &str, new: &str, old_lower: &str, new_lower: &str) -> (r: bool)
    ensures
        r == (old@ != new@ && asserts(old_lower@) && asserts(new_lower@) && !submultiset(
            literals_of(old@),
            literals_of(new@),
        )),
{
    !same(old, new) && looks_assert(old_lower) && looks_assert(new_lower) && !is_submultiset(
        &literals(old),
        &literals(new),
    )
}

/// Whether existing assertion values were rewritten, not merely added to.
pub fn changes_expectation(old: &str, new: &str) -> (r: bool)
    ensures
        r == expectation_changed(old@, new@),
{
    let a = to_lowercase(old);
    let b = to_lowercase(new);
    expectation_differs(old, new, a.as_str(), b.as_str())
}

// ---------------------------------------------------------------------------
// Texts that mean something
// ---------------------------------------------------------------------------

pub open spec fn runs_code(name: Seq<char>) -> bool {
    name == "bash"@ || name == "run_code"@
}

/// The output of a test run that failed.
pub open spec fn test_fail(name: Seq<char>, output: Seq<char>) -> bool {
    let l = lower(output);
    runs_code(name) && (holds(l, "assertionerror"@) || holds(l, "failed (failures"@) || holds(
        l,
        "failed (errors"@,
    ) || holds(l, "test failed"@) || (holds(l, "ran "@) && holds(l, "failed"@)))
}

/// The output of a test run, of any colour.
pub open spec fn test_output(name: Seq<char>, output: Seq<char>) -> bool {
    let l = lower(output);
    runs_code(name) && ((holds(l, "ran "@) && holds(l, "test"@)) || holds(l, "failed (failures"@)
        || holds(l, "failed (errors"@) || holds(l, "short test summary"@))
}

/// Whether a tool's output is that of a test run, of any colour.
pub fn is_test_output(name: &str, output: &str) -> (r: bool)
    ensures
        r == test_output(name@, output@),
{
    if !same(name, "bash") && !same(name, "run_code") {
        return false;
    }
    let l = chars_of(to_lower(output).as_str());
    (in_chars(&l, "ran ") && in_chars(&l, "test")) || in_chars(&l, "failed (failures") || in_chars(
        &l,
        "failed (errors",
    ) || in_chars(&l, "short test summary")
}

/// Whether a tool's output is that of a test run that failed.
pub fn is_test_fail(name: &str, output: &str) -> (r: bool)
    ensures
        r == test_fail(name@, output@),
{
    if !same(name, "bash") && !same(name, "run_code") {
        return false;
    }
    let l = chars_of(to_lower(output).as_str());
    in_chars(&l, "assertionerror") || in_chars(&l, "failed (failures") || in_chars(
        &l,
        "failed (errors",
    ) || in_chars(&l, "test failed") || (in_chars(&l, "ran ") && in_chars(&l, "failed"))
}

/// A request, in small letters, that forbids changing tests.
pub open spec fn forbids_test_edit(l: Seq<char>) -> bool {
    ||| holds(l, "不要改测试"@)
    ||| holds(l, "别改测试"@)
    ||| holds(l, "不许改测试"@)
    ||| holds(l, "不准改测试"@)
    ||| holds(l, "不要修改测试"@)
    ||| holds(l, "不要改期望"@)
    ||| holds(l, "不要改断言"@)
    ||| holds(l, "don't change the test"@)
    ||| holds(l, "do not change the test"@)
    ||| holds(l, "don't edit the test"@)
    ||| holds(l, "do not edit the test"@)
    ||| holds(l, "don't change the assertion"@)
    ||| holds(l, "don't update the test"@)
}

/// A request, in small letters, that asks for an existing expectation to be
/// rewritten. Asking for a new test is no such request.
pub open spec fn asks_test_edit(l: Seq<char>) -> bool {
    ||| holds(l, "改测试"@)
    ||| holds(l, "修改测试"@)
    ||| holds(l, "更新测试"@)
    ||| holds(l, "改断言"@)
    ||| holds(l, "改期望"@)
    ||| holds(l, "允许改测试"@)
    ||| holds(l, "可以改测试"@)
    ||| holds(l, "change the test"@)
    ||| holds(l, "update the test"@)
    ||| holds(l, "edit the test"@)
    ||| holds(l, "change the assertion"@)
    ||| holds(l, "update the assertion"@)
    ||| holds(l, "rewrite the test"@)
}

/// The user asked for tests to be changed.
pub open spec fn test_edit_allowed(user: Seq<char>) -> bool {
    !forbids_test_edit(lower(user)) && asks_test_edit(lower(user))
}

/// Whether the user asked for tests to be changed.
pub fn allows_test_edit(user: &str) -> (r: bool)
    ensures
        r == test_edit_allowed(user@),
{
    let l = chars_of(to_lower(user).as_str());
    let forbids: bool = in_chars(&l, "不要改测试") || in_chars(&l, "别改测试") || in_chars(
        &l,
        "不许改测试",
    ) || in_chars(&l, "不准改测试") || in_chars(&l, "不要修改测试") || in_chars(&l, "不要改期望")
        || in_chars(&l, "不要改断言") || in_chars(&l, "don't change the test") || in_chars(
        &l,
        "do not change the test",
    ) || in_chars(&l, "don't edit the test") || in_chars(&l, "do not edit the test") || in_chars(
        &l,
        "don't change the assertion",
    ) || in_chars(&l, "don't update the test");
    if forbids {
        return false;
    }
    in_chars(&l, "改测试") || in_chars(&l, "修改测试") || in_chars(&l, "更新测试") || in_chars(
        &l,
        "改断言",
    ) || in_chars(&l, "改期望") || in_chars(&l, "允许改测试") || in_chars(&l, "可以改测试")
        || in_chars(&l, "change the test") || in_chars(&l, "update the test") || in_chars(
        &l,
        "edit the test",
    ) || in_chars(&l, "change the assertion") || in_chars(&l, "update the assertion") || in_chars(
        &l,
        "rewrite the test",
    )
}

// ---------------------------------------------------------------------------
// The guard
// ---------------------------------------------------------------------------

/// An edit as it is remembered: where, what it took away and what it put there.
#[derive(Debug, PartialEq, Eq)]
pub struct EditFp {
    pub path: String,
    pub old: String,
    pub new: String,
}

pub ghost struct EditV {
    pub path: Seq<char>,
    pub old: Seq<char>,
    pub new: Seq<char>,
}

impl View for EditFp {
    type V = EditV;

    open spec fn view(&self) -> EditV {
        EditV { path: self.path@, old: self.old@, new: self.new@ }
    }
}

pub open spec fn edits_view(v: Seq<EditFp>) -> Seq<EditV> {
    v.map_values(|e: EditFp| e@)
}

/// What a guard has seen.
#[derive(Debug, PartialEq, Eq)]
pub struct EditGuard {
    pub edits: Vec<EditFp>,
    pub test_note_fired: bool,
    pub thrash_notes: u8,
    pub red_note_fired: bool,
    pub prod_this_turn: bool,
    pub test_this_turn: bool,
    pub tests_seen_this_turn: bool,
    pub user_allows_test_edit: bool,
    /// Whether the tests were red before this turn's first edit, where it is known.
    pub baseline_red: Option<bool>,
    /// The files of production code that were edited in this turn.
    pub code: Vec<String>,
}

pub ghost struct GuardV {
    pub edits: Seq<EditV>,
    pub test_note_fired: bool,
    pub thrash_notes: nat,
    pub red_note_fired: bool,
    pub prod: bool,
    pub test: bool,
    pub seen: bool,
    pub allows: bool,
    pub baseline: Option<bool>,
    pub code: Seq<Seq<char>>,
}

impl View for EditGuard {
    type V = GuardV;

    open spec fn view(&self) -> GuardV {
        GuardV {
            edits: edits_view(self.edits@),
            test_note_fired: self.test_note_fired,
            thrash_notes: self.thrash_notes as nat,
            red_note_fired: self.red_note_fired,
            prod: self.prod_this_turn,
            test: self.test_this_turn,
            seen: self.tests_seen_this_turn,
            allows: self.user_allows_test_edit,
            baseline: self.baseline_red,
            code: texts(self.code@),
        }
    }
}

/// What every guard keeps to: its memory and its rations are bounded.
pub open spec fn guard_wf(g: GuardV) -> bool {
    g.edits.len() <= 64 && g.thrash_notes <= 2
}

/// A guard that has seen nothing.
pub open spec fn fresh_guard() -> GuardV {
    GuardV {
        edits: Seq::empty(),
        test_note_fired: false,
        thrash_notes: 0,
        red_note_fired: false,
        prod: false,
        test: false,
        seen: false,
        allows: false,
        baseline: None,
        code: Seq::empty(),
    }
}

/// The file that an edit or a write names.
pub open spec fn edited_path(args: JsonV) -> Option<Seq<char>> {
    match args.text_at("path"@) {
        Some(p) => Some(p),
        None => args.text_at("file_path"@),
    }
}

pub open spec fn edits_files(name: Seq<char>) -> bool {
    name == "edit"@ || name == "write"@
}

/// The guard after a file was touched.
pub open spec fn touched(g: GuardV, name: Seq<char>, args: JsonV) -> GuardV {
    match edited_path(args) {
        Some(p) => if !edits_files(name) {
            g
        } else if test_path(p) {
            GuardV { test: true, ..g }
        } else {
            GuardV {
                prod: true,
                code: if code_path(p) && !g.code.contains(p) {
                    g.code.push(p)
                } else {
                    g.code
                },
                ..g
            }
        },
        None => g,
    }
}

/// The expectation note is due: a test's values were rewritten, nobody asked for
/// that, and nothing has been said about it yet.
pub open spec fn expectation_due(g: GuardV, path: Seq<char>, old: Seq<char>, new: Seq<char>) -> bool {
    !g.test_note_fired && !g.allows && test_path(path) && expectation_changed(old, new)
}

/// An earlier edit did the opposite at the same place.
pub open spec fn undoes(edits: Seq<EditV>, e: EditV) -> bool {
    exists|i: int|
        0 <= i < edits.len() && (#[trigger] edits[i]).path == e.path && edits[i].old == e.new
            && edits[i].new == e.old
}

/// The memory with one more edit, the oldest dropped where it is full.
pub open spec fn remembered(edits: Seq<EditV>, e: EditV) -> Seq<EditV> {
    (if edits.len() == 64 {
        edits.skip(1)
    } else {
        edits
    }).push(e)
}

/// The guard and its notes after an edit.
pub open spec fn edit_seen(g: GuardV, path: Seq<char>, old: Seq<char>, new: Seq<char>) -> (
    GuardV,
    Seq<GuardNote>,
) {
    let due = expectation_due(g, path, old, new);
    let e = EditV { path: normalized(path), old, new };
    let thrash = undoes(g.edits, e) && g.thrash_notes < 2;
    (
        GuardV {
            test_note_fired: g.test_note_fired || due,
            thrash_notes: g.thrash_notes + if thrash {
                1nat
            } else {
                0nat
            },
            edits: remembered(g.edits, e),
            ..g
        },
        (if due {
            seq![GuardNote::TestExpectation]
        } else {
            Seq::empty()
        }) + (if thrash {
            seq![GuardNote::Thrash]
        } else {
            Seq::empty()
        }),
    )
}

/// The guard and its notes after a file was overwritten.
pub open spec fn write_seen(g: GuardV, path: Seq<char>, old: Seq<char>, new: Seq<char>) -> (
    GuardV,
    Seq<GuardNote>,
) {
    if expectation_due(g, path, old, new) {
        (GuardV { test_note_fired: true, ..g }, seq![GuardNote::TestExpectation])
    } else {
        (g, Seq::empty())
    }
}

/// The guard and its notes after a tool call was executed.
pub open spec fn observed(
    g: GuardV,
    name: Seq<char>,
    args: JsonV,
    prior: Option<Seq<char>>,
) -> (GuardV, Seq<GuardNote>) {
    let t = touched(g, name, args);
    if name == "write"@ {
        match (edited_path(args), args.text_at("content"@), prior) {
            (Some(path), Some(new), Some(old)) => write_seen(t, path, old, new),
            _ => (t, Seq::empty()),
        }
    } else if name == "edit"@ {
        match (edited_path(args), args.text_at("old_string"@), args.text_at("new_string"@)) {
            (Some(path), Some(old), Some(new)) => edit_seen(t, path, old, new),
            _ => (t, Seq::empty()),
        }
    } else {
        (t, Seq::empty())
    }
}

/// The red note is due: only production code changed, the tests were not red
/// before, they are now, and nothing has been said about it yet.
pub open spec fn red_due(g: GuardV, name: Seq<char>, output: Seq<char>) -> bool {
    !g.red_note_fired && g.prod && !g.test && g.baseline != Some(true) && test_fail(name, output)
}

/// The guard after a tool's output was seen.
pub open spec fn output_seen(g: GuardV, name: Seq<char>, output: Seq<char>) -> GuardV {
    GuardV {
        seen: g.seen || test_output(name, output),
        red_note_fired: g.red_note_fired || red_due(g, name, output),
        ..g
    }
}

/// A file that an edit or a write names.
pub fn fs_edit_path(args: &Json) -> (r: Option<String>)
    ensures
        r is Some <==> edited_path(args@) is Some,
        r matches Some(p) ==> edited_path(args@) == Some(p@),
{
    match args.text_at("path") {
        Some(p) => Some(p.to_owned()),
        None => match args.text_at("file_path") {
            Some(p) => Some(p.to_owned()),
            None => None,
        },
    }
}

impl EditGuard {
    pub fn new() -> (r: EditGuard)
        ensures
            r@ == fresh_guard(),
    {
        let edits: Vec<EditFp> = Vec::new();
        let code: Vec<String> = Vec::new();
        assert(edits_view(edits@) =~= Seq::empty());
        assert(texts(code@) =~= Seq::empty());
        EditGuard {
            edits,
            test_note_fired: false,
            thrash_notes: 0,
            red_note_fired: false,
            prod_this_turn: false,
            test_this_turn: false,
            tests_seen_this_turn: false,
            user_allows_test_edit: false,
            baseline_red: None,
            code,
        }
    }

    /// A new request of the user: what was seen in the last turn does not count any
    /// more, what was said in the session does.
    pub fn reset_turn(&mut self, user: &str)
        ensures
            final(self)@ == (GuardV {
                prod: false,
                test: false,
                seen: false,
                baseline: None,
                allows: test_edit_allowed(user@),
                code: Seq::empty(),
                ..old(self)@
            }),
    {
        self.prod_this_turn = false;
        self.test_this_turn = false;
        self.tests_seen_this_turn = false;
        self.baseline_red = None;
        self.user_allows_test_edit = allows_test_edit(user);
        self.code = Vec::new();
        assert(texts(self.code@) =~= Seq::empty());
    }

    /// The tests ran before any edit of this turn. That is no run that counts for
    /// `wants_oracle`: the one after the edits is what is judged.
    pub fn set_baseline(&mut self, red: bool)
        ensures
            final(self)@ == (GuardV { baseline: Some(red), ..old(self)@ }),
    {
        self.baseline_red = Some(red);
    }

    /// Whether red tests prove that this turn broke something: only where they were
    /// green before it.
    pub fn red_is_proven_regression(&self) -> (r: bool)
        ensures
            r == (self@.baseline == Some(false)),
    {
        match self.baseline_red {
            Some(red) => !red,
            None => false,
        }
    }

    /// Whether the tests should be run on the model's behalf: production code
    /// changed, no test did, and no run has been seen.
    pub fn wants_oracle(&self) -> (r: bool)
        ensures
            r == (self@.prod && !self@.test && !self@.red_note_fired && !self@.seen),
    {
        self.prod_this_turn && !self.test_this_turn && !self.red_note_fired
            && !self.tests_seen_this_turn
    }

    /// The files of production code that were edited in this turn.
    pub fn code_paths(&self) -> (r: &Vec<String>)
        ensures
            texts(r@) == self@.code,
    {
        &self.code
    }

    /// No run could be made on the model's behalf; none is owed any more.
    pub fn mark_oracle_ran(&mut self)
        ensures
            final(self)@ == (GuardV { seen: true, ..old(self)@ }),
    {
        self.tests_seen_this_turn = true;
    }

    fn touch(&mut self, name: &str, args: &Json)
        ensures
            final(self)@ == touched(old(self)@, name@, args@),
    {
        if !same(name, "edit") && !same(name, "write") {
            return;
        }
        if let Some(p) = fs_edit_path(args) {
            if is_test_path(p.as_str()) {
                self.test_this_turn = true;
            } else {
                self.prod_this_turn = true;
                if is_code_path(p.as_str()) && !list_has(&self.code, p.as_str()) {
                    let ghost before = self.code@;
                    self.code.push(p);
                    assert(texts(self.code@) =~= texts(before).push(p@));
                }
            }
        }
    }

    fn expectation_note_due(&self, path: &str, before: &str, after: &str) -> (r: bool)
        ensures
            r == expectation_due(self@, path@, before@, after@),
    {
        !self.test_note_fired && !self.user_allows_test_edit && is_test_path(path)
            && changes_expectation(before, after)
    }

    fn has_opposite(&self, e: &EditFp) -> (r: bool)
        ensures
            r == undoes(self@.edits, e@),
    {
        let mut i: usize = 0;
        while i < self.edits.len()
            invariant
                i <= self.edits@.len(),
                forall|j: int|
                    0 <= j < i ==> !((#[trigger] self@.edits[j]).path == e@.path
                        && self@.edits[j].old == e@.new && self@.edits[j].new == e@.old),
            decreases self.edits.len() - i,
        {
            let f = &self.edits[i];
            assert(self@.edits[i as int] == f@);
            if same(f.path.as_str(), e.path.as_str()) && same(f.old.as_str(), e.new.as_str())
                && same(f.new.as_str(), e.old.as_str()) {
                return true;
            }
            i = i + 1;
        }
        false
    }

    fn remember(&mut self, e: EditFp)
        requires
            guard_wf(old(self)@),
        ensures
            final(self)@ == (GuardV { edits: remembered(old(self)@.edits, e@), ..old(self)@ }),
    {
        let ghost before = self.edits@;
        if self.edits.len() == EDIT_HISTORY_MAX {
            self.edits.remove(0);
        }
        self.edits.push(e);
        assert(edits_view(self.edits@) =~= remembered(edits_view(before), e@));
    }

    fn observe_write(&mut self, path: &str, before: &str, after: &str) -> (r: Vec<GuardNote>)
        ensures
            (final(self)@, r@) == write_seen(old(self)@, path@, before@, after@),
    {
        let mut notes: Vec<GuardNote> = Vec::new();
        if self.expectation_note_due(path, before, after) {
            self.test_note_fired = true;
            notes.push(GuardNote::TestExpectation);
        }
        assert(notes@ =~= write_seen(old(self)@, path@, before@, after@).1);
        notes
    }

    fn observe_edit(&mut self, path: &str, before: &str, after: &str) -> (r: Vec<GuardNote>)
        requires
            guard_wf(old(self)@),
        ensures
            (final(self)@, r@) == edit_seen(old(self)@, path@, before@, after@),
    {
        let mut notes: Vec<GuardNote> = Vec::new();
        if self.expectation_note_due(path, before, after) {
            self.test_note_fired = true;
            notes.push(GuardNote::TestExpectation);
        }
        let e = EditFp {
            path: normalize_path(path),
            old: before.to_owned(),
            new: after.to_owned(),
        };
        if self.has_opposite(&e) && self.thrash_notes < THRASH_NOTE_MAX {
            self.thrash_notes = self.thrash_notes + 1;
            notes.push(GuardNote::Thrash);
        }
        self.remember(e);
        assert(notes@ =~= edit_seen(old(self)@, path@, before@, after@).1);
        notes
    }

    /// One tool call was executed. Gives the notes to add after the round.
    ///
    /// `prior_write` is what a file held before it was overwritten, `None` where it
    /// was new.
    pub fn observe(&mut self, name: &str, args: &Json, prior_write: Option<&str>) -> (r: Vec<
        GuardNote,
    >)
        requires
            guard_wf(old(self)@),
        ensures
            (final(self)@, r@) == observed(
                old(self)@,
                name@,
                args@,
                match prior_write {
                    Some(s) => Some(s@),
                    None => None,
                },
            ),
            guard_wf(final(self)@),
    {
        let ghost g0 = self@;
        self.touch(name, args);
        let none: Vec<GuardNote> = Vec::new();
        assert(none@ =~= Seq::empty());
        let path: String = match fs_edit_path(args) {
            Some(p) => p,
            None => {
                return none;
            },
        };
        if same(name, "write") {
            return match (args.text_at("content"), prior_write) {
                (Some(new), Some(old)) => self.observe_write(path.as_str(), old, new),
                _ => none,
            };
        }
        if !same(name, "edit") {
            return none;
        }
        match (args.text_at("old_string"), args.text_at("new_string")) {
            (Some(old), Some(new)) => self.observe_edit(path.as_str(), old, new),
            _ => none,
        }
    }

    /// A tool gave output. Gives a note where tests turned red although only
    /// production code changed.
    pub fn observe_tool_output(&mut self, name: &str, output: &str) -> (r: Option<GuardNote>)
        ensures
            final(self)@ == output_seen(old(self)@, name@, output@),
            r == (if red_due(old(self)@, name@, output@) {
                Some(GuardNote::TestRed)
            } else {
                None
            }),
    {
        if is_test_output(name, output) {
            self.tests_seen_this_turn = true;
        }
        if self.red_note_fired || !self.prod_this_turn || self.test_this_turn {
            return None;
        }
        if let Some(red) = self.baseline_red {
            if red {
                return None;
            }
        }
        if !is_test_fail(name, output) {
            return None;
        }
        self.red_note_fired = true;
        Some(GuardNote::TestRed)
    }

    /// A run made on the model's behalf gave output. It counts as a run whatever it
    /// gave.
    pub fn observe_oracle_output(&mut self, output: &str) -> (r: Option<GuardNote>)
        ensures
            final(self)@ == (GuardV { seen: true, ..output_seen(old(self)@, "bash"@, output@) }),
            r == (if red_due(old(self)@, "bash"@, output@) {
                Some(GuardNote::TestRed)
            } else {
                None
            }),
    {
        let note = self.observe_tool_output("bash", output);
        self.tests_seen_this_turn = true;
        note
    }
}

// ---------------------------------------------------------------------------
// Laws
// ---------------------------------------------------------------------------

/// The notes about one call are rationed: the expectation note comes at most once
/// in a session, the thrash note twice, and the memory stays bounded.
pub proof fn law_notes_are_rationed(
    g: GuardV,
    name: Seq<char>,
    args: JsonV,
    prior: Option<Seq<char>>,
)
    requires
        guard_wf(g),
    ensures
        ({
            let (h, notes) = observed(g, name, args, prior);
            &&& guard_wf(h)
            &&& g.test_note_fired ==> h.test_note_fired && !notes.contains(
                GuardNote::TestExpectation,
            )
            &&& notes.contains(GuardNote::TestExpectation) ==> h.test_note_fired
            &&& g.thrash_notes <= h.thrash_notes
            &&& notes.contains(GuardNote::Thrash) <==> h.thrash_notes == g.thrash_notes + 1
            &&& g.thrash_notes == 2 ==> !notes.contains(GuardNote::Thrash)
            &&& !notes.contains(GuardNote::TestRed)
        }),
{
    reveal_strlit("edit");
    reveal_strlit("write");
    assert("edit"@.len() == 4 && "write"@.len() == 5);
    let (h, notes) = observed(g, name, args, prior);
    let t = touched(g, name, args);
    if name == "edit"@ {
        match (edited_path(args), args.text_at("old_string"@), args.text_at("new_string"@)) {
            (Some(path), Some(old), Some(new)) => {
                let due = expectation_due(t, path, old, new);
                let e = EditV { path: normalized(path), old, new };
                let thrash = undoes(t.edits, e) && t.thrash_notes < 2;
                if due {
                    assert(notes[0] == GuardNote::TestExpectation);
                }
                if thrash {
                    assert(notes[notes.len() - 1] == GuardNote::Thrash);
                }
            },
            _ => {},
        }
    } else if name == "write"@ {
        match (edited_path(args), args.text_at("content"@), prior) {
            (Some(path), Some(new), Some(old)) => {
                if expectation_due(t, path, old, new) {
                    assert(notes[0] == GuardNote::TestExpectation);
                }
            },
            _ => {},
        }
    }
}

/// The red note comes at most once, and never where tests were red before.
pub proof fn law_red_note_once(
    g: GuardV,
    name: Seq<char>,
    output: Seq<char>,
    name2: Seq<char>,
    output2: Seq<char>,
)
    ensures
        red_due(g, name, output) ==> !red_due(output_seen(g, name, output), name2, output2),
        g.baseline == Some(true) ==> !red_due(g, name, output),
{
}

/// Undoing an edit that was just made is noticed, as long as the ration lasts.
pub proof fn law_undoing_is_noticed(g: GuardV, path: Seq<char>, a: Seq<char>, b: Seq<char>)
    requires
        guard_wf(g),
        edit_seen(g, path, a, b).0.thrash_notes < 2,
    ensures
        edit_seen(edit_seen(g, path, a, b).0, path, b, a).1.contains(GuardNote::Thrash),
{
    let h = edit_seen(g, path, a, b).0;
    let e = EditV { path: normalized(path), old: b, new: a };
    assert(h.edits[h.edits.len() - 1] == (EditV { path: normalized(path), old: a, new: b }));
    assert(undoes(h.edits, e));
    let notes = edit_seen(h, path, b, a).1;
    assert(notes[notes.len() - 1] == GuardNote::Thrash);
}

/// The output of a test run that failed is noticed by each of its marks, in letters of any
/// case, and by no other; and where only production code was edited, the tests were not
/// known to be red before and nothing was said yet, it is remarked upon.
pub proof fn law_red_tests_are_noticed(g: GuardV, name: Seq<char>, output: Seq<char>)
    requires
        name == "bash"@ || name == "run_code"@,
    ensures
        ({
            let l = lower(output);
            let failed = holds(l, "assertionerror"@) || holds(l, "failed (failures"@) || holds(
                l,
                "failed (errors"@,
            ) || holds(l, "test failed"@) || (holds(l, "ran "@) && holds(l, "failed"@));
            let alone = g.prod && !g.test && g.baseline != Some(true) && !g.red_note_fired;
            &&& failed <==> test_fail(name, output)
            &&& failed && alone ==> red_due(g, name, output) && output_seen(
                g,
                name,
                output,
            ).red_note_fired
            &&& !failed || !alone ==> !red_due(g, name, output) && output_seen(
                g,
                name,
                output,
            ).red_note_fired == g.red_note_fired
        }),
{
}

/// A mark of a failed run is found however its letters are written.
pub proof fn law_marks_are_found_in_any_case(a: Seq<char>, mark: Seq<char>, b: Seq<char>)
    ensures
        holds(lower(a + mark + b), lower(mark)),
        holds(a + "AssertionError"@ + b, "AssertionError"@) && (test_fail(
            "bash"@,
            a + "AssertionError"@ + b,
        )),
        test_fail("run_code"@, a + "FAILED (failures"@ + b),
        test_fail("run_code"@, a + "FAILED (errors"@ + b),
        test_fail("bash"@, a + "Test failed"@ + b),
{
    lemma_lower_holds(a, mark, b);
    reveal_strlit("AssertionError");
    reveal_strlit("assertionerror");
    reveal_strlit("FAILED (failures");
    reveal_strlit("failed (failures");
    reveal_strlit("FAILED (errors");
    reveal_strlit("failed (errors");
    reveal_strlit("Test failed");
    reveal_strlit("test failed");
    lemma_lower_holds(a, "AssertionError"@, b);
    assert(lower("AssertionError"@) =~= "assertionerror"@);
    lemma_lower_holds(a, "FAILED (failures"@, b);
    assert(lower("FAILED (failures"@) =~= "failed (failures"@);
    lemma_lower_holds(a, "FAILED (errors"@, b);
    assert(lower("FAILED (errors"@) =~= "failed (errors"@);
    lemma_lower_holds(a, "Test failed"@, b);
    assert(lower("Test failed"@) =~= "test failed"@);
    let s = a + "AssertionError"@ + b;
    assert(s.subrange(a.len() as int, (a.len() + 14) as int) =~= "AssertionError"@);
    assert(crate::text::at(s, "AssertionError"@, a.len() as int));
}

proof fn lemma_lower_holds(a: Seq<char>, mark: Seq<char>, b: Seq<char>)
    ensures
        holds(lower(a + mark + b), lower(mark)),
{
    let s = lower(a + mark + b);
    let n = a.len() as int;
    assert(s.subrange(n, n + mark.len()) =~= lower(mark));
    assert(crate::text::at(s, lower(mark), n));
}

/// Only the output of tools that run something can be that of tests.
pub proof fn law_only_runs_are_judged(g: GuardV, name: Seq<char>, output: Seq<char>)
    requires
        name != "bash"@,
        name != "run_code"@,
    ensures
        !red_due(g, name, output),
        output_seen(g, name, output) == g,
{
}

/// A run of tests is seen by its marks, whatever its colour, and nothing else of the guard
/// changes but what was said of red.
pub proof fn law_test_runs_are_seen(g: GuardV, name: Seq<char>, output: Seq<char>)
    requires
        name == "bash"@ || name == "run_code"@,
    ensures
        ({
            let l = lower(output);
            let run = (holds(l, "ran "@) && holds(l, "test"@)) || holds(l, "failed (failures"@)
                || holds(l, "failed (errors"@) || holds(l, "short test summary"@);
            let h = output_seen(g, name, output);
            &&& h.seen == (g.seen || run)
            &&& h == GuardV { seen: h.seen, red_note_fired: h.red_note_fired, ..g }
        }),
{
}

/// What an executed call touches: an edit or a write of a test marks the tests, of any
/// other file the production code, whose code files are listed once each; no other call
/// touches anything.
pub proof fn law_edits_are_marked(
    g: GuardV,
    name: Seq<char>,
    args: JsonV,
    prior: Option<Seq<char>>,
    p: Seq<char>,
)
    requires
        args.text_at("path"@) == Some(p) || (args.text_at("path"@) is None && args.text_at(
            "file_path"@,
        ) == Some(p)),
    ensures
        ({
            let h = observed(g, name, args, prior).0;
            let edits = name == "edit"@ || name == "write"@;
            &&& !edits ==> h == g && observed(g, name, args, prior).1.len() == 0
            &&& edits && test_path(p) ==> h.test && h.prod == g.prod && h.code == g.code
            &&& edits && !test_path(p) ==> h.prod && h.test == g.test
            &&& edits && !test_path(p) && code_path(p) ==> h.code.contains(p)
            &&& edits && !test_path(p) && (!code_path(p) || g.code.contains(p)) ==> h.code == g.code
            &&& edits && !test_path(p) && code_path(p) && !g.code.contains(p) ==> h.code
                == g.code.push(p)
            &&& h.seen == g.seen && h.baseline == g.baseline && h.allows == g.allows
                && h.red_note_fired == g.red_note_fired
        }),
{
    let t = touched(g, name, args);
    if !test_path(p) && code_path(p) && !g.code.contains(p) && (name == "edit"@ || name
        == "write"@) {
        assert(t.code[t.code.len() - 1] == p);
    }
}

/// A test's expectation counts as rewritten where a text that asserts something is replaced
/// by one that does too, and a value of the old one is not in the new one as often.
pub proof fn law_rewritten_expectations_are_noticed(old: Seq<char>, new: Seq<char>, x: Seq<char>)
    ensures
        ({
            let a = lowercased(old);
            let b = lowercased(new);
            let both = (holds(a, "assert"@) || holds(a, "expect"@) || holds(a, ".should"@) || holds(
                a,
                "verify("@,
            )) && (holds(b, "assert"@) || holds(b, "expect"@) || holds(b, ".should"@) || holds(
                b,
                "verify("@,
            ));
            &&& both && literals_of(old).to_multiset().count(x) > literals_of(
                new,
            ).to_multiset().count(x) ==> expectation_changed(old, new)
            &&& !both ==> !expectation_changed(old, new)
            &&& (forall|y: Seq<char>| #[trigger]
                literals_of(old).to_multiset().count(y) <= literals_of(new).to_multiset().count(y))
                ==> !expectation_changed(old, new)
        }),
{
    let a = literals_of(old).to_multiset();
    let b = literals_of(new).to_multiset();
    if a.count(x) > b.count(x) {
        assert(!a.subset_of(b));
    }
    if forall|y: Seq<char>| #[trigger] a.count(y) <= b.count(y) {
        assert(a.subset_of(b));
    }
}

/// What the guard says of an edit: that a test's expectation was rewritten, where nobody
/// asked for it and it was not said before; and that an earlier edit was undone, where one
/// that is remembered did the opposite at the same place and it was not said twice.
pub proof fn law_what_is_said_of_an_edit(
    g: GuardV,
    args: JsonV,
    prior: Option<Seq<char>>,
    p: Seq<char>,
    old: Seq<char>,
    new: Seq<char>,
)
    requires
        args.text_at("path"@) == Some(p),
        args.text_at("old_string"@) == Some(old),
        args.text_at("new_string"@) == Some(new),
    ensures
        ({
            let (h, notes) = observed(g, "edit"@, args, prior);
            let rewritten = test_path(p) && expectation_changed(old, new);
            let undone = exists|i: int|
                0 <= i < g.edits.len() && (#[trigger] g.edits[i]).path == normalized(p)
                    && g.edits[i].old == new && g.edits[i].new == old;
            &&& notes.contains(GuardNote::TestExpectation) <==> rewritten && !g.allows
                && !g.test_note_fired
            &&& notes.contains(GuardNote::Thrash) <==> undone && g.thrash_notes < 2
            &&& !notes.contains(GuardNote::TestRed)
            &&& h.edits.len() > 0 && h.edits.last() == (EditV { path: normalized(p), old, new })
            &&& g.edits.len() < 64 ==> h.edits.drop_last() == g.edits
            &&& g.edits.len() == 64 ==> h.edits.drop_last() == g.edits.skip(1)
        }),
{
    reveal_strlit("edit");
    reveal_strlit("write");
    assert("edit"@.len() == 4 && "write"@.len() == 5);
    let t = touched(g, "edit"@, args);
    assert(t.edits == g.edits && t.thrash_notes == g.thrash_notes && t.allows == g.allows
        && t.test_note_fired == g.test_note_fired);
    let (h, notes) = observed(g, "edit"@, args, prior);
    let due = expectation_due(t, p, old, new);
    let e = EditV { path: normalized(p), old, new };
    let thrash = undoes(t.edits, e) && t.thrash_notes < 2;
    if due {
        assert(notes[0] == GuardNote::TestExpectation);
    }
    if thrash {
        assert(notes[notes.len() - 1] == GuardNote::Thrash);
    }
    if g.edits.len() == 64 {
        assert(h.edits.drop_last() =~= g.edits.skip(1));
    } else {
        assert(h.edits.drop_last() =~= g.edits);
    }
}

/// What the guard says of a file that was overwritten: that a test's expectation was
/// rewritten, under the same conditions as of an edit.
pub proof fn law_what_is_said_of_a_write(
    g: GuardV,
    args: JsonV,
    prior: Option<Seq<char>>,
    p: Seq<char>,
    new: Seq<char>,
)
    requires
        args.text_at("path"@) == Some(p),
        args.text_at("content"@) == Some(new),
    ensures
        ({
            let (h, notes) = observed(g, "write"@, args, prior);
            let rewritten = prior is Some && test_path(p) && expectation_changed(prior->0, new);
            &&& notes == (if rewritten && !g.allows && !g.test_note_fired {
                seq![GuardNote::TestExpectation]
            } else {
                Seq::empty()
            })
            &&& h.edits == g.edits && h.thrash_notes == g.thrash_notes
        }),
{
}

/// The numbers that a text pins down: each row of digits, with the points and underscores
/// in it, in order.
pub proof fn law_numbers_are_literals(a: Seq<char>, n: Seq<char>, b: Seq<char>)
    requires
        forall|i: int| 0 <= i < a.len() ==> !digit(#[trigger] a[i]),
        n.len() > 0 && digit(n[0]),
        forall|i: int| 0 <= i < n.len() ==> digit(#[trigger] n[i]) || n[i] == '.' || n[i] == '_',
        b.len() > 0 ==> !digit(b[0]) && b[0] != '.' && b[0] != '_',
    ensures
        numbers_from(a + n + b, 0) == seq![n] + numbers_from(b, 0),
        numbers_from(a, 0) == Seq::<Seq<char>>::empty(),
{
    let s = a + n + b;
    lemma_no_digits(a, n + b, 0);
    assert(s =~= a + (n + b));
    let k = a.len() as int;
    assert(s[k] == n[0]);
    lemma_number_runs(a, n, b, 1);
    assert(number_end(s, k + 1) == k + n.len());
    assert(s.subrange(k, k + n.len()) =~= n);
    assert(s =~= (a + n) + b);
    lemma_numbers_behind(a + n, b, 0);
    lemma_no_digits(a, Seq::empty(), 0);
    assert(a + Seq::<char>::empty() =~= a);
}

proof fn lemma_no_digits(a: Seq<char>, b: Seq<char>, i: int)
    requires
        0 <= i <= a.len(),
        forall|j: int| 0 <= j < a.len() ==> !digit(#[trigger] a[j]),
    ensures
        numbers_from(a + b, i) == numbers_from(a + b, a.len() as int),
    decreases a.len() - i,
{
    if i < a.len() {
        assert((a + b)[i] == a[i]);
        lemma_no_digits(a, b, i + 1);
    }
}

proof fn lemma_number_runs(a: Seq<char>, n: Seq<char>, b: Seq<char>, i: int)
    requires
        0 <= i <= n.len(),
        forall|j: int| 0 <= j < n.len() ==> digit(#[trigger] n[j]) || n[j] == '.' || n[j] == '_',
        b.len() > 0 ==> !digit(b[0]) && b[0] != '.' && b[0] != '_',
    ensures
        number_end(a + n + b, a.len() + i) == a.len() + n.len(),
    decreases n.len() - i,
{
    let s = a + n + b;
    if i < n.len() {
        assert(s[a.len() + i] == n[i]);
        lemma_number_runs(a, n, b, i + 1);
    } else if b.len() > 0 {
        assert(s[a.len() + i] == b[0]);
    }
}

proof fn lemma_number_behind(a: Seq<char>, b: Seq<char>, i: int)
    requires
        0 <= i,
    ensures
        number_end(a + b, a.len() + i) == a.len() + number_end(b, i),
    decreases b.len() - i,
{
    if i < b.len() {
        assert((a + b)[a.len() + i] == b[i]);
        lemma_number_behind(a, b, i + 1);
    }
}

proof fn lemma_numbers_behind(a: Seq<char>, b: Seq<char>, i: int)
    requires
        0 <= i,
    ensures
        numbers_from(a + b, a.len() + i) == numbers_from(b, i),
    decreases b.len() - i,
{
    let s = a + b;
    let k = a.len() as int;
    if i < b.len() {
        assert(s[k + i] == b[i]);
        if digit(b[i]) {
            lemma_number_behind(a, b, i + 1);
            lemma_number_end(b, i + 1);
            let e = number_end(b, i + 1);
            assert(s.subrange(k + i, k + e) =~= b.subrange(i, e));
            lemma_numbers_behind(a, b, e);
        } else {
            lemma_numbers_behind(a, b, i + 1);
        }
    }
}

proof fn lemma_quoted_behind(a: Seq<char>, b: Seq<char>, q: char, from: int)
    requires
        0 <= from,
    ensures
        quoted_from(a + b, q, a.len() + from) == quoted_from(b, q, from),
    decreases b.len() - from,
{
    let s = a + b;
    let k = a.len() as int;
    crate::text::lemma_find_behind(a, b, seq![q], from);
    lemma_find_from(b, seq![q], from);
    if let Some(i) = find_from(b, seq![q], from) {
        crate::text::lemma_find_behind(a, b, seq![q], i + 1);
        lemma_find_from(b, seq![q], i + 1);
        if let Some(j) = find_from(b, seq![q], i + 1) {
            assert(s.subrange(k + i + 1, k + j) =~= b.subrange(i + 1, j));
            lemma_quoted_behind(a, b, q, j + 1);
        }
    }
}

/// The texts that a text pins down: what stands between two quotes, pair by pair.
pub proof fn law_quoted_texts_are_literals(a: Seq<char>, t: Seq<char>, b: Seq<char>, q: char)
    requires
        !a.contains(q),
        !t.contains(q),
    ensures
        quoted_from(a.push(q) + t.push(q) + b, q, 0) == seq![t] + quoted_from(b, q, 0),
        quoted_from(a, q, 0) == Seq::<Seq<char>>::empty(),
{
    let pat = seq![q];
    let s = a.push(q) + t.push(q) + b;
    let rest = seq![q] + t.push(q) + b;
    assert(s =~= a + rest);
    let k = a.len() as int;
    crate::text::lemma_find_past(a, rest, pat, 0);
    crate::text::lemma_find_behind(a, rest, pat, 0);
    assert(rest.subrange(0, 1) =~= pat);
    assert(crate::text::at(rest, pat, 0));
    assert(find_from(s, pat, 0) == Some(k));
    let front = a.push(q);
    let later = seq![q] + b;
    assert(s =~= front + (t + later));
    crate::text::lemma_find_behind(front, t + later, pat, 0);
    crate::text::lemma_find_past(t, later, pat, 0);
    crate::text::lemma_find_behind(t, later, pat, 0);
    assert(later.subrange(0, 1) =~= pat);
    assert(crate::text::at(later, pat, 0));
    let e = k + 1 + t.len();
    assert(find_from(s, pat, k + 1) == Some(e as int));
    assert(s.subrange(k + 1, e as int) =~= t);
    let all = a.push(q) + t.push(q);
    lemma_quoted_behind(all, b, q, 0);
    lemma_find_from(a, pat, 0);
    if let Some(i) = find_from(a, pat, 0) {
        assert(a.subrange(i, i + 1)[0] == a[i]);
        assert(a.contains(a[i]));
    }
}

/// The user allows tests to be changed by asking for it, and not by forbidding it.
pub proof fn law_tests_may_be_changed_on_request(user: Seq<char>, i: int)
    ensures
        ({
            let l = lower(user);
            let forbids = seq![
                "不要改测试"@,
                "别改测试"@,
                "不许改测试"@,
                "不准改测试"@,
                "不要修改测试"@,
                "不要改期望"@,
                "不要改断言"@,
                "don't change the test"@,
                "do not change the test"@,
                "don't edit the test"@,
                "do not edit the test"@,
                "don't change the assertion"@,
                "don't update the test"@,
            ];
            let asks = seq![
                "改测试"@,
                "修改测试"@,
                "更新测试"@,
                "改断言"@,
                "改期望"@,
                "允许改测试"@,
                "可以改测试"@,
                "change the test"@,
                "update the test"@,
                "edit the test"@,
                "change the assertion"@,
                "update the assertion"@,
                "rewrite the test"@,
            ];
            &&& 0 <= i < forbids.len() && holds(l, forbids[i]) ==> !test_edit_allowed(user)
            &&& 0 <= i < asks.len() && holds(l, asks[i]) && (forall|j: int|
                0 <= j < forbids.len() ==> !holds(l, #[trigger] forbids[j])) ==> test_edit_allowed(
                user,
            )
            &&& (forall|j: int| 0 <= j < asks.len() ==> !holds(l, #[trigger] asks[j]))
                ==> !test_edit_allowed(user)
        }),
{
    let l = lower(user);
    let forbids = seq![
        "不要改测试"@,
        "别改测试"@,
        "不许改测试"@,
        "不准改测试"@,
        "不要修改测试"@,
        "不要改期望"@,
        "不要改断言"@,
        "don't change the test"@,
        "do not change the test"@,
        "don't edit the test"@,
        "do not edit the test"@,
        "don't change the assertion"@,
        "don't update the test"@,
    ];
    let asks = seq![
        "改测试"@,
        "修改测试"@,
        "更新测试"@,
        "改断言"@,
        "改期望"@,
        "允许改测试"@,
        "可以改测试"@,
        "change the test"@,
        "update the test"@,
        "edit the test"@,
        "change the assertion"@,
        "update the assertion"@,
        "rewrite the test"@,
    ];
    assert(forbids[0] == "不要改测试"@ && forbids[1] == "别改测试"@ && forbids[2] == "不许改测试"@
        && forbids[3] == "不准改测试"@ && forbids[4] == "不要修改测试"@ && forbids[5]
        == "不要改期望"@ && forbids[6] == "不要改断言"@ && forbids[7] == "don't change the test"@
        && forbids[8] == "do not change the test"@ && forbids[9] == "don't edit the test"@
        && forbids[10] == "do not edit the test"@ && forbids[11] == "don't change the assertion"@
        && forbids[12] == "don't update the test"@);
    assert(asks[0] == "改测试"@ && asks[1] == "修改测试"@ && asks[2] == "更新测试"@ && asks[3]
        == "改断言"@ && asks[4] == "改期望"@ && asks[5] == "允许改测试"@ && asks[6]
        == "可以改测试"@ && asks[7] == "change the test"@ && asks[8] == "update the test"@
        && asks[9] == "edit the test"@ && asks[10] == "change the assertion"@ && asks[11]
        == "update the assertion"@ && asks[12] == "rewrite the test"@);
}

/// Tests that turn red after an edit of production code alone are remarked upon.
pub proof fn law_a_red_run_after_an_edit_is_noticed(
    g: GuardV,
    name: Seq<char>,
    args: JsonV,
    prior: Option<Seq<char>>,
    p: Seq<char>,
    a: Seq<char>,
    b: Seq<char>,
)
    requires
        name == "edit"@ || name == "write"@,
        args.text_at("path"@) == Some(p),
        !test_path(p),
        !g.test,
        !g.red_note_fired,
        g.baseline != Some(true),
    ensures
        red_due(observed(g, name, args, prior).0, "bash"@, a + "AssertionError"@ + b),
        red_due(observed(g, name, args, prior).0, "run_code"@, a + "FAILED (failures"@ + b),
{
    law_edits_are_marked(g, name, args, prior, p);
    law_marks_are_found_in_any_case(a, Seq::empty(), b);
}

/// What each note is called, and on which of them a run that nobody watches stops.
pub proof fn law_what_the_notes_are(n: GuardNote)
    ensures
        GuardNote::TestExpectation.label_of() == "test-expectation"@,
        GuardNote::Thrash.label_of() == "edit-thrash"@,
        GuardNote::TestRed.label_of() == "test-red"@,
        GuardNote::TestExpectation.stop_of() == Some("guard:test-expectation"@),
        GuardNote::TestRed.stop_of() == Some("guard:test-red"@),
        GuardNote::Thrash.stop_of() is None,
        n.text_of() == TEST_EXPECTATION_NOTE@ || n.text_of() == THRASH_NOTE@ || n.text_of()
            == TEST_RED_NOTE@,
{
}

/// A guard that has seen nothing has nothing to say and owes nothing.
pub proof fn law_a_fresh_guard_has_seen_nothing(name: Seq<char>, output: Seq<char>)
    ensures
        ({
            let g = fresh_guard();
            &&& g.edits.len() == 0 && g.code.len() == 0
            &&& !g.prod && !g.test && !g.seen && !g.allows
            &&& !g.test_note_fired && !g.red_note_fired && g.thrash_notes == 0
            &&& g.baseline is None
            &&& !red_due(g, name, output)
        }),
{
}

} // verus!
