//! What a request asks for, judged by the words in it: whether it is about code,
//! about numbers, about fresh facts, or forbids tools.

use vstd::prelude::*;
use crate::outside::{lowercased, to_lowercase};
use crate::text::{
    chars_of, contains, digit, holds, in_chars, is_digit, is_letter, letter, lower, text2, to_lower,
};

verus! {

// ---------------------------------------------------------------------------
// Calls
// ---------------------------------------------------------------------------

/// A character that a name goes on with.
pub open spec fn name_char(c: char) -> bool {
    letter(c) || digit(c) || c == '_'
}

/// A character that a name begins with.
pub open spec fn name_start(c: char) -> bool {
    letter(c) || c == '_'
}

/// The end of the name that has begun before `i`.
pub open spec fn name_end(s: Seq<char>, i: int) -> int
    decreases s.len() - i,
{
    if 0 <= i < s.len() && name_char(s[i]) {
        name_end(s, i + 1)
    } else {
        i
    }
}

pub proof fn lemma_name_end(s: Seq<char>, i: int)
    requires
        0 <= i <= s.len(),
    ensures
        i <= name_end(s, i) <= s.len(),
    decreases s.len() - i,
{
    if i < s.len() && name_char(s[i]) {
        lemma_name_end(s, i + 1);
    }
}

/// From `i` on, a name of at least three characters stands before a bracket.
pub open spec fn call_from(s: Seq<char>, i: int) -> bool
    decreases s.len() - i,
{
    if i < 0 || i >= s.len() {
        false
    } else if name_start(s[i]) {
        let e = name_end(s, i + 1);
        proof {
            lemma_name_end(s, i + 1);
        }
        (e < s.len() && s[e] == '(' && e - i >= 3) || call_from(s, e)
    } else {
        call_from(s, i + 1)
    }
}

fn is_name_char(c: char) -> (r: bool)
    ensures
        r == name_char(c),
{
    is_letter(c) || is_digit(c) || c == '_'
}

/// Whether a text writes a call: a name of at least three characters before a bracket.
pub fn has_call_ident(user: &str) -> (r: bool)
    ensures
        r == call_from(user@, 0),
{
    let cs = chars_of(user);
    let mut i: usize = 0;
    while i < cs.len()
        invariant
            i <= cs@.len(),
            cs@ == user@,
            call_from(user@, 0) == call_from(user@, i as int),
        decreases cs.len() - i,
    {
        if is_letter(cs[i]) || cs[i] == '_' {
            let mut e: usize = i + 1;
            proof {
                lemma_name_end(user@, i + 1);
            }
            while e < cs.len() && is_name_char(cs[e])
                invariant
                    i < e <= cs@.len(),
                    cs@ == user@,
                    name_end(user@, i + 1) == name_end(user@, e as int),
                decreases cs.len() - e,
            {
                e = e + 1;
            }
            if e < cs.len() && cs[e] == '(' && e - i >= 3 {
                return true;
            }
            i = e;
        } else {
            i = i + 1;
        }
    }
    false
}

// ---------------------------------------------------------------------------
// Numbers
// ---------------------------------------------------------------------------

/// Words, in small letters, that speak of code.
pub open spec fn code_marks(s: Seq<char>) -> bool {
    ||| holds(s, "代码"@)
    ||| holds(s, "函数"@)
    ||| holds(s, "源码"@)
    ||| holds(s, "编译"@)
    ||| holds(s, "单测"@)
    ||| holds(s, "测试用例"@)
    ||| holds(s, "正则"@)
    ||| holds(s, ".py"@)
    ||| holds(s, ".rs"@)
    ||| holds(s, ".js"@)
    ||| holds(s, ".ts"@)
    ||| holds(s, " code"@)
    ||| holds(s, "function"@)
    ||| holds(s, "compile"@)
    ||| holds(s, "unit test"@)
    ||| holds(s, "regex"@)
    ||| holds(s, " bug"@)
}

/// Words, in small letters, that speak of a quantity.
pub open spec fn quantity_marks(s: Seq<char>) -> bool {
    ||| holds(s, "%"@)
    ||| holds(s, "％"@)
    ||| holds(s, "概率"@)
    ||| holds(s, "准确率"@)
    ||| holds(s, "百分"@)
    ||| holds(s, "百分点"@)
    ||| holds(s, "阈值"@)
    ||| holds(s, "临界"@)
    ||| holds(s, "期望值"@)
    ||| holds(s, "赔率"@)
    ||| holds(s, "比率"@)
    ||| holds(s, "比例"@)
    ||| holds(s, "方差"@)
    ||| holds(s, "置信区间"@)
    ||| holds(s, "probability"@)
    ||| holds(s, "accuracy"@)
    ||| holds(s, "percent"@)
    ||| holds(s, "percentage point"@)
    ||| holds(s, "threshold"@)
    ||| holds(s, "expected value"@)
    ||| holds(s, "odds"@)
    ||| holds(s, "variance"@)
    ||| holds(s, "confidence interval"@)
}

/// Words, in small letters, that ask for a derivation.
pub open spec fn reasoning_marks(s: Seq<char>) -> bool {
    ||| holds(s, "求"@)
    ||| holds(s, "计算"@)
    ||| holds(s, "比较"@)
    ||| holds(s, "推导"@)
    ||| holds(s, "证明"@)
    ||| holds(s, "估计"@)
    ||| holds(s, "判断"@)
    ||| holds(s, "讨论"@)
    ||| holds(s, "边界"@)
    ||| holds(s, "阈值"@)
    ||| holds(s, "临界"@)
    ||| holds(s, "期望"@)
    ||| holds(s, "calculate"@)
    ||| holds(s, "compare"@)
    ||| holds(s, "derive"@)
    ||| holds(s, "prove"@)
    ||| holds(s, "estimate"@)
    ||| holds(s, "evaluate"@)
    ||| holds(s, "discuss"@)
    ||| holds(s, "boundary"@)
    ||| holds(s, "threshold"@)
    ||| holds(s, "expected"@)
}

fn has_code_mark(cs: &Vec<char>) -> (r: bool)
    ensures
        r == code_marks(cs@),
{
    in_chars(cs, "代码")
        || in_chars(cs, "函数")
        || in_chars(cs, "源码")
        || in_chars(cs, "编译")
        || in_chars(cs, "单测")
        || in_chars(cs, "测试用例")
        || in_chars(cs, "正则")
        || in_chars(cs, ".py")
        || in_chars(cs, ".rs")
        || in_chars(cs, ".js")
        || in_chars(cs, ".ts")
        || in_chars(cs, " code")
        || in_chars(cs, "function")
        || in_chars(cs, "compile")
        || in_chars(cs, "unit test")
        || in_chars(cs, "regex")
        || in_chars(cs, " bug")
}

fn has_quantity_mark(cs: &Vec<char>) -> (r: bool)
    ensures
        r == quantity_marks(cs@),
{
    in_chars(cs, "%")
        || in_chars(cs, "％")
        || in_chars(cs, "概率")
        || in_chars(cs, "准确率")
        || in_chars(cs, "百分")
        || in_chars(cs, "百分点")
        || in_chars(cs, "阈值")
        || in_chars(cs, "临界")
        || in_chars(cs, "期望值")
        || in_chars(cs, "赔率")
        || in_chars(cs, "比率")
        || in_chars(cs, "比例")
        || in_chars(cs, "方差")
        || in_chars(cs, "置信区间")
        || in_chars(cs, "probability")
        || in_chars(cs, "accuracy")
        || in_chars(cs, "percent")
        || in_chars(cs, "percentage point")
        || in_chars(cs, "threshold")
        || in_chars(cs, "expected value")
        || in_chars(cs, "odds")
        || in_chars(cs, "variance")
        || in_chars(cs, "confidence interval")
}

fn has_reasoning_mark(cs: &Vec<char>) -> (r: bool)
    ensures
        r == reasoning_marks(cs@),
{
    in_chars(cs, "求")
        || in_chars(cs, "计算")
        || in_chars(cs, "比较")
        || in_chars(cs, "推导")
        || in_chars(cs, "证明")
        || in_chars(cs, "估计")
        || in_chars(cs, "判断")
        || in_chars(cs, "讨论")
        || in_chars(cs, "边界")
        || in_chars(cs, "阈值")
        || in_chars(cs, "临界")
        || in_chars(cs, "期望")
        || in_chars(cs, "calculate")
        || in_chars(cs, "compare")
        || in_chars(cs, "derive")
        || in_chars(cs, "prove")
        || in_chars(cs, "estimate")
        || in_chars(cs, "evaluate")
        || in_chars(cs, "discuss")
        || in_chars(cs, "boundary")
        || in_chars(cs, "threshold")
        || in_chars(cs, "expected")
}

/// A request, and what it is in small letters, that asks for a derived quantity and
/// is not about code.
pub open spec fn numeric_ask(user: Seq<char>, l: Seq<char>) -> bool {
    !code_marks(l) && !call_from(user, 0) && quantity_marks(l) && reasoning_marks(l)
}

/// Whether a request, given also in small letters, asks for a derived quantity.
pub fn numeric_check_in(user: &str, l: &str) -> (r: bool)
    ensures
        r == numeric_ask(user@, l@),
{
    let cs = chars_of(l);
    if has_code_mark(&cs) || has_call_ident(user) {
        return false;
    }
    has_quantity_mark(&cs) && has_reasoning_mark(&cs)
}

/// Whether a request asks for a derived quantity and is not about code.
pub fn wants_numeric_check(user: &str) -> (r: bool)
    ensures
        r == numeric_ask(user@, lowercased(user@)),
{
    numeric_check_in(user, to_lowercase(user).as_str())
}

// ---------------------------------------------------------------------------
// Fresh facts
// ---------------------------------------------------------------------------

/// Words, in small letters, that ask for what is new.
pub open spec fn fresh_marks(s: Seq<char>) -> bool {
    ||| holds(s, "最新"@)
    ||| holds(s, "近期"@)
    ||| holds(s, "最近发布"@)
    ||| holds(s, "今天"@)
    ||| holds(s, "今年"@)
    ||| holds(s, "现在的"@)
    ||| holds(s, "目前的"@)
    ||| holds(s, "新闻"@)
    ||| holds(s, "行情"@)
    ||| holds(s, "股价"@)
    ||| holds(s, "汇率"@)
    ||| holds(s, "多少钱"@)
    ||| holds(s, "价格是多少"@)
    ||| holds(s, "什么时候发布"@)
    ||| holds(s, "发布了吗"@)
    ||| holds(s, "上市了吗"@)
    ||| holds(s, "latest version"@)
    ||| holds(s, "latest release"@)
    ||| holds(s, "release date"@)
    ||| holds(s, "what's new in"@)
    ||| holds(s, "recent news"@)
    ||| holds(s, "price of"@)
}

fn has_fresh_mark(cs: &Vec<char>) -> (r: bool)
    ensures
        r == fresh_marks(cs@),
{
    in_chars(cs, "最新")
        || in_chars(cs, "近期")
        || in_chars(cs, "最近发布")
        || in_chars(cs, "今天")
        || in_chars(cs, "今年")
        || in_chars(cs, "现在的")
        || in_chars(cs, "目前的")
        || in_chars(cs, "新闻")
        || in_chars(cs, "行情")
        || in_chars(cs, "股价")
        || in_chars(cs, "汇率")
        || in_chars(cs, "多少钱")
        || in_chars(cs, "价格是多少")
        || in_chars(cs, "什么时候发布")
        || in_chars(cs, "发布了吗")
        || in_chars(cs, "上市了吗")
        || in_chars(cs, "latest version")
        || in_chars(cs, "latest release")
        || in_chars(cs, "release date")
        || in_chars(cs, "what's new in")
        || in_chars(cs, "recent news")
        || in_chars(cs, "price of")
}

/// At `i` stands a year from 2025 to 2099 that is not the beginning of a longer number.
pub open spec fn recent_year_at(s: Seq<char>, i: int) -> bool {
    &&& 0 <= i
    &&& i + 4 <= s.len()
    &&& s[i] == '2'
    &&& s[i + 1] == '0'
    &&& digit(s[i + 2])
    &&& digit(s[i + 3])
    &&& (s[i + 2] as int - 48) * 10 + (s[i + 3] as int - 48) >= 25
    &&& i + 4 == s.len() || !digit(s[i + 4])
}

/// A text with such a year in it.
pub open spec fn recent_year(s: Seq<char>) -> bool {
    exists|i: int| recent_year_at(s, i)
}

/// Whether a text speaks of a year from 2025 to 2099.
pub fn mentions_recent_year(user: &str) -> (r: bool)
    ensures
        r == recent_year(user@),
{
    let cs = chars_of(user);
    if cs.len() < 4 {
        return false;
    }
    let last: usize = cs.len() - 4;
    let mut i: usize = 0;
    loop
        invariant
            i <= last,
            last + 4 == cs.len(),
            cs@ == user@,
            forall|j: int| 0 <= j < i ==> !recent_year_at(user@, j),
        decreases last - i,
    {
        if cs[i] == '2' && cs[i + 1] == '0' && is_digit(cs[i + 2]) && is_digit(cs[i + 3]) {
            let y: u32 = (cs[i + 2] as u32 - 48) * 10 + (cs[i + 3] as u32 - 48);
            if y >= 25 && (i == last || !is_digit(cs[i + 4])) {
                assert(recent_year_at(user@, i as int));
                return true;
            }
        }
        assert(!recent_year_at(user@, i as int));
        if i == last {
            return false;
        }
        i = i + 1;
    }
}

/// A request that forbids looking anything up.
pub open spec fn forbids_web(user: Seq<char>) -> bool {
    holds(user, "不要联网"@) || holds(user, "不要搜索"@) || holds(user, "别联网"@)
}

/// A request, and what it is in small letters, that may need fresh facts: it gives an
/// address, asks for what is new, or speaks of a recent year.
pub open spec fn web_ask(user: Seq<char>, l: Seq<char>) -> bool {
    !forbids_web(user) && (holds(user, "http://"@) || holds(user, "https://"@) || fresh_marks(l)
        || recent_year(user))
}

/// Whether a request, given also in small letters, may need fresh facts.
pub fn web_check_in(user: &str, l: &str) -> (r: bool)
    ensures
        r == web_ask(user@, l@),
{
    let us = chars_of(user);
    if in_chars(&us, "不要联网") || in_chars(&us, "不要搜索") || in_chars(&us, "别联网") {
        return false;
    }
    in_chars(&us, "http://") || in_chars(&us, "https://") || has_fresh_mark(&chars_of(l))
        || mentions_recent_year(user)
}

/// Whether a request may need fresh facts.
pub fn wants_web_check(user: &str) -> (r: bool)
    ensures
        r == web_ask(user@, lowercased(user@)),
{
    web_check_in(user, to_lowercase(user).as_str())
}

// ---------------------------------------------------------------------------
// Tools and code
// ---------------------------------------------------------------------------

/// A request that forbids tools.
pub open spec fn tools_forbidden(user: Seq<char>) -> bool {
    ||| holds(user, "不要调用工具"@)
    ||| holds(user, "不要用工具"@)
    ||| holds(user, "不要开工具"@)
    ||| holds(lower(user), "don't use tools"@)
    ||| holds(lower(user), "do not use tools"@)
}

/// Whether a request forbids tools.
pub fn forbids_tools(user: &str) -> (r: bool)
    ensures
        r == tools_forbidden(user@),
{
    let us = chars_of(user);
    if in_chars(&us, "不要调用工具") || in_chars(&us, "不要用工具") || in_chars(
        &us,
        "不要开工具",
    ) {
        return true;
    }
    let l = chars_of(to_lower(user).as_str());
    in_chars(&l, "don't use tools") || in_chars(&l, "do not use tools")
}

/// Words that ask for something in the code to be found or mended.
pub open spec fn locate_marks(s: Seq<char>) -> bool {
    ||| holds(s, "修"@)
    ||| holds(s, "实现"@)
    ||| holds(s, "定位"@)
    ||| holds(s, "在哪"@)
    ||| holds(s, "哪里"@)
    ||| holds(s, "缺陷"@)
    ||| holds(s, "崩溃"@)
    ||| holds(s, "bug"@)
    ||| holds(s, "立刻改"@)
    ||| holds(s, "必须改"@)
}

fn has_locate_mark(cs: &Vec<char>) -> (r: bool)
    ensures
        r == locate_marks(cs@),
{
    in_chars(cs, "修")
        || in_chars(cs, "实现")
        || in_chars(cs, "定位")
        || in_chars(cs, "在哪")
        || in_chars(cs, "哪里")
        || in_chars(cs, "缺陷")
        || in_chars(cs, "崩溃")
        || in_chars(cs, "bug")
        || in_chars(cs, "立刻改")
        || in_chars(cs, "必须改")
}

/// A character of a word of code: a path, a file name or an identifier.
pub open spec fn word_char(c: char) -> bool {
    letter(c) || digit(c) || c == '_' || c == '/' || c == '.'
}

pub open spec fn capital(c: char) -> bool {
    'A' <= c <= 'Z'
}

pub open spec fn small(c: char) -> bool {
    'a' <= c <= 'z'
}

/// A word that looks like code: at least three characters, with an underscore, a
/// slash, a point that is not its first character, or mixed case.
pub open spec fn code_word(t: Seq<char>) -> bool {
    t.len() >= 3 && (t.contains('_') || t.contains('/') || (t.contains('.') && t[0] != '.') || ((
    exists|i: int| 0 <= i < t.len() && capital(#[trigger] t[i])) && (exists|i: int|
        0 <= i < t.len() && small(#[trigger] t[i]))))
}

/// The end of the word that stands at `i`.
pub open spec fn word_end(s: Seq<char>, i: int) -> int
    decreases s.len() - i,
{
    if 0 <= i < s.len() && word_char(s[i]) {
        word_end(s, i + 1)
    } else {
        i
    }
}

pub proof fn lemma_word_end(s: Seq<char>, i: int)
    requires
        0 <= i <= s.len(),
    ensures
        i <= word_end(s, i) <= s.len(),
        i < s.len() && word_char(s[i]) ==> i < word_end(s, i),
    decreases s.len() - i,
{
    if i < s.len() && word_char(s[i]) {
        lemma_word_end(s, i + 1);
    }
}

/// From `i` on, a word looks like code.
pub open spec fn code_word_from(s: Seq<char>, i: int) -> bool
    decreases s.len() - i,
{
    if i < 0 || i >= s.len() {
        false
    } else if word_char(s[i]) {
        let e = word_end(s, i);
        proof {
            lemma_word_end(s, i);
        }
        code_word(s.subrange(i, e)) || code_word_from(s, e)
    } else {
        code_word_from(s, i + 1)
    }
}

fn is_word_char(c: char) -> (r: bool)
    ensures
        r == word_char(c),
{
    is_letter(c) || is_digit(c) || c == '_' || c == '/' || c == '.'
}

fn is_code_word(cs: &Vec<char>, from: usize, to: usize) -> (r: bool)
    requires
        from <= to <= cs@.len(),
    ensures
        r == code_word(cs@.subrange(from as int, to as int)),
{
    let ghost t = cs@.subrange(from as int, to as int);
    if to - from < 3 {
        return false;
    }
    let mut has_upper: bool = false;
    let mut has_lower: bool = false;
    let mut has_dot: bool = false;
    let mut i: usize = from;
    while i < to
        invariant
            from <= i <= to <= cs@.len(),
            t == cs@.subrange(from as int, to as int),
            t.len() >= 3,
            forall|j: int| 0 <= j < i - from ==> #[trigger] t[j] != '_' && t[j] != '/',
            has_upper == exists|j: int| 0 <= j < i - from && capital(#[trigger] t[j]),
            has_lower == exists|j: int| 0 <= j < i - from && small(#[trigger] t[j]),
            has_dot == exists|j: int| 0 <= j < i - from && #[trigger] t[j] == '.',
        decreases to - i,
    {
        let c = cs[i];
        assert(t[i - from] == c);
        if c == '_' || c == '/' {
            return true;
        }
        if 'A' <= c && c <= 'Z' {
            has_upper = true;
        }
        if 'a' <= c && c <= 'z' {
            has_lower = true;
        }
        if c == '.' {
            has_dot = true;
        }
        i = i + 1;
    }
    assert(t[0] == cs@[from as int]);
    (has_dot && cs[from] != '.') || (has_upper && has_lower)
}

fn has_code_word(cs: &Vec<char>) -> (r: bool)
    ensures
        r == code_word_from(cs@, 0),
{
    let mut i: usize = 0;
    while i < cs.len()
        invariant
            i <= cs@.len(),
            code_word_from(cs@, 0) == code_word_from(cs@, i as int),
        decreases cs.len() - i,
    {
        if is_word_char(cs[i]) {
            let mut e: usize = i;
            proof {
                lemma_word_end(cs@, i as int);
            }
            while e < cs.len() && is_word_char(cs[e])
                invariant
                    i <= e <= cs@.len(),
                    word_end(cs@, i as int) == word_end(cs@, e as int),
                decreases cs.len() - e,
            {
                e = e + 1;
            }
            if is_code_word(cs, i, e) {
                return true;
            }
            i = e;
        } else {
            i = i + 1;
        }
    }
    false
}

/// A request that is about something in the code.
pub open spec fn locate_ask(user: Seq<char>) -> bool {
    locate_marks(user) || holds(lower(user), "fix "@) || holds(lower(user), "implement "@)
        || call_from(user, 0) || code_word_from(user, 0)
}

/// Whether a request is about something in the code.
pub fn wants_auto_locate(user: &str) -> (r: bool)
    ensures
        r == locate_ask(user@),
{
    let us = chars_of(user);
    if has_locate_mark(&us) {
        return true;
    }
    let l = chars_of(to_lower(user).as_str());
    if in_chars(&l, "fix ") || in_chars(&l, "implement ") {
        return true;
    }
    has_call_ident(user) || has_code_word(&us)
}

/// Words that ask for something to be changed.
pub open spec fn change_marks(s: Seq<char>) -> bool {
    ||| holds(s, "修"@)
    ||| holds(s, "改"@)
    ||| holds(s, "实现"@)
    ||| holds(s, "补"@)
    ||| holds(s, "重构"@)
    ||| holds(s, "优化"@)
    ||| holds(s, "加上"@)
}

/// English words, in small letters, that ask for something to be changed.
pub open spec fn change_verbs(s: Seq<char>) -> bool {
    ||| holds(s, "fix "@)
    ||| holds(s, "implement "@)
    ||| holds(s, "refactor "@)
    ||| holds(s, "rewrite "@)
    ||| holds(s, "make it "@)
}

fn has_change_mark(cs: &Vec<char>) -> (r: bool)
    ensures
        r == change_marks(cs@),
{
    in_chars(cs, "修")
        || in_chars(cs, "改")
        || in_chars(cs, "实现")
        || in_chars(cs, "补")
        || in_chars(cs, "重构")
        || in_chars(cs, "优化")
        || in_chars(cs, "加上")
}

fn has_change_verb(cs: &Vec<char>) -> (r: bool)
    ensures
        r == change_verbs(cs@),
{
    in_chars(cs, "fix ")
        || in_chars(cs, "implement ")
        || in_chars(cs, "refactor ")
        || in_chars(cs, "rewrite ")
        || in_chars(cs, "make it ")
}

/// Whether a request asks for a change, so that it is worth running the tests before.
pub fn wants_test_baseline(user: &str) -> (r: bool)
    ensures
        r == (change_marks(user@) || change_verbs(lower(user@))),
{
    has_change_mark(&chars_of(user)) || has_change_verb(&chars_of(to_lower(user).as_str()))
}

// ---------------------------------------------------------------------------
// Hints
// ---------------------------------------------------------------------------

/// What the model is told of a request that may need fresh facts.
pub open spec fn web_hint_text() -> Seq<char> {
    "[web] 这个问题可能涉及时效信息，训练记忆可能过时。先用 web(query=…) 搜索或 web(url=…) 抓正文核实，回答附来源链接。"@
}

/// What the model is told of a request that asks for a derived quantity.
pub open spec fn numeric_hint_text() -> Seq<char> {
    "[verify:numeric] 若结论含由题面推导的概率、百分比或阈值，定稿前内部回代一次，区分百分比、百分点和被求变量；一致就直接作答，不新增复核章节。"@
}

/// The hint that a request gets where the web can be searched: none where it forbids
/// tools.
pub fn inject_web_hint(user: &str, has_web: bool) -> (r: Option<String>)
    ensures
        r is Some <==> has_web && !tools_forbidden(user@) && web_ask(user@, lowercased(user@)),
        r matches Some(s) ==> s@ == web_hint_text(),
{
    if has_web && !forbids_tools(user) && wants_web_check(user) {
        Some(
            "[web] 这个问题可能涉及时效信息，训练记忆可能过时。先用 web(query=…) 搜索或 web(url=…) 抓正文核实，回答附来源链接。".to_owned(),
        )
    } else {
        None
    }
}

/// The hint that a request for a derived quantity gets.
pub fn inject_numeric_check_hint(user: &str) -> (r: Option<String>)
    ensures
        r is Some <==> numeric_ask(user@, lowercased(user@)),
        r matches Some(s) ==> s@ == numeric_hint_text(),
{
    if wants_numeric_check(user) {
        Some(
            "[verify:numeric] 若结论含由题面推导的概率、百分比或阈值，定稿前内部回代一次，区分百分比、百分点和被求变量；一致就直接作答，不新增复核章节。".to_owned(),
        )
    } else {
        None
    }
}

/// Whether the index is asked about a request: not where it forbids tools.
pub open spec fn locates(user: Seq<char>) -> bool {
    !tools_forbidden(user) && locate_ask(user)
}

/// Whether the index is asked about a request.
pub fn asks_index(user: &str) -> (r: bool)
    ensures
        r == locates(user@),
{
    !forbids_tools(user) && wants_auto_locate(user)
}

/// What the model is told of the places that the index knows, where it was asked and
/// knows some.
pub fn inject_locate(user: &str, spans: Option<&str>) -> (r: Option<String>)
    ensures
        r is Some <==> locates(user@) && spans is Some,
        r matches Some(s) ==> s@ == "[locate]\n"@ + spans->0@,
{
    if !asks_index(user) {
        return None;
    }
    match spans {
        Some(s) => Some(text2("[locate]\n", s)),
        None => None,
    }
}

// ---------------------------------------------------------------------------
// Laws
// ---------------------------------------------------------------------------

/// A request that forbids looking anything up gets no hint to do so, whatever else
/// it says.
pub proof fn law_no_web_against_the_user(user: Seq<char>, l: Seq<char>)
    requires
        forbids_web(user),
    ensures
        !web_ask(user, l),
{
}

/// A request about code gets no hint about numbers.
pub proof fn law_code_gets_no_numeric_check(user: Seq<char>, l: Seq<char>)
    requires
        code_marks(l) || call_from(user, 0),
    ensures
        !numeric_ask(user, l),
{
}

/// The words by which a request is known to be about code.
pub proof fn law_words_that_speak_of_code(s: Seq<char>)
    ensures
        ({
            let all = seq![
                "代码"@,
                "函数"@,
                "源码"@,
                "编译"@,
                "单测"@,
                "测试用例"@,
                "正则"@,
                ".py"@,
                ".rs"@,
                ".js"@,
                ".ts"@,
                " code"@,
                "function"@,
                "compile"@,
                "unit test"@,
                "regex"@,
                " bug"@,
            ];
            code_marks(s) <==> exists|i: int| 0 <= i < all.len() && holds(s, #[trigger] all[i])
        }),
{
    let all = seq![
        "代码"@,
        "函数"@,
        "源码"@,
        "编译"@,
        "单测"@,
        "测试用例"@,
        "正则"@,
        ".py"@,
        ".rs"@,
        ".js"@,
        ".ts"@,
        " code"@,
        "function"@,
        "compile"@,
        "unit test"@,
        "regex"@,
        " bug"@,
    ];
    assert(all[0] == "代码"@);
    assert(all[1] == "函数"@);
    assert(all[2] == "源码"@);
    assert(all[3] == "编译"@);
    assert(all[4] == "单测"@);
    assert(all[5] == "测试用例"@);
    assert(all[6] == "正则"@);
    assert(all[7] == ".py"@);
    assert(all[8] == ".rs"@);
    assert(all[9] == ".js"@);
    assert(all[10] == ".ts"@);
    assert(all[11] == " code"@);
    assert(all[12] == "function"@);
    assert(all[13] == "compile"@);
    assert(all[14] == "unit test"@);
    assert(all[15] == "regex"@);
    assert(all[16] == " bug"@);
    if holds(s, "代码"@) {
        assert(holds(s, all[0]));
    }
    if holds(s, "函数"@) {
        assert(holds(s, all[1]));
    }
    if holds(s, "源码"@) {
        assert(holds(s, all[2]));
    }
    if holds(s, "编译"@) {
        assert(holds(s, all[3]));
    }
    if holds(s, "单测"@) {
        assert(holds(s, all[4]));
    }
    if holds(s, "测试用例"@) {
        assert(holds(s, all[5]));
    }
    if holds(s, "正则"@) {
        assert(holds(s, all[6]));
    }
    if holds(s, ".py"@) {
        assert(holds(s, all[7]));
    }
    if holds(s, ".rs"@) {
        assert(holds(s, all[8]));
    }
    if holds(s, ".js"@) {
        assert(holds(s, all[9]));
    }
    if holds(s, ".ts"@) {
        assert(holds(s, all[10]));
    }
    if holds(s, " code"@) {
        assert(holds(s, all[11]));
    }
    if holds(s, "function"@) {
        assert(holds(s, all[12]));
    }
    if holds(s, "compile"@) {
        assert(holds(s, all[13]));
    }
    if holds(s, "unit test"@) {
        assert(holds(s, all[14]));
    }
    if holds(s, "regex"@) {
        assert(holds(s, all[15]));
    }
    if holds(s, " bug"@) {
        assert(holds(s, all[16]));
    }
}

/// The words by which a request is known to speak of a quantity.
pub proof fn law_words_that_speak_of_quantities(s: Seq<char>)
    ensures
        ({
            let all = seq![
                "%"@,
                "％"@,
                "概率"@,
                "准确率"@,
                "百分"@,
                "百分点"@,
                "阈值"@,
                "临界"@,
                "期望值"@,
                "赔率"@,
                "比率"@,
                "比例"@,
                "方差"@,
                "置信区间"@,
                "probability"@,
                "accuracy"@,
                "percent"@,
                "percentage point"@,
                "threshold"@,
                "expected value"@,
                "odds"@,
                "variance"@,
                "confidence interval"@,
            ];
            quantity_marks(s) <==> exists|i: int| 0 <= i < all.len() && holds(s, #[trigger] all[i])
        }),
{
    let all = seq![
        "%"@,
        "％"@,
        "概率"@,
        "准确率"@,
        "百分"@,
        "百分点"@,
        "阈值"@,
        "临界"@,
        "期望值"@,
        "赔率"@,
        "比率"@,
        "比例"@,
        "方差"@,
        "置信区间"@,
        "probability"@,
        "accuracy"@,
        "percent"@,
        "percentage point"@,
        "threshold"@,
        "expected value"@,
        "odds"@,
        "variance"@,
        "confidence interval"@,
    ];
    assert(all[0] == "%"@);
    assert(all[1] == "％"@);
    assert(all[2] == "概率"@);
    assert(all[3] == "准确率"@);
    assert(all[4] == "百分"@);
    assert(all[5] == "百分点"@);
    assert(all[6] == "阈值"@);
    assert(all[7] == "临界"@);
    assert(all[8] == "期望值"@);
    assert(all[9] == "赔率"@);
    assert(all[10] == "比率"@);
    assert(all[11] == "比例"@);
    assert(all[12] == "方差"@);
    assert(all[13] == "置信区间"@);
    assert(all[14] == "probability"@);
    assert(all[15] == "accuracy"@);
    assert(all[16] == "percent"@);
    assert(all[17] == "percentage point"@);
    assert(all[18] == "threshold"@);
    assert(all[19] == "expected value"@);
    assert(all[20] == "odds"@);
    assert(all[21] == "variance"@);
    assert(all[22] == "confidence interval"@);
    if holds(s, "%"@) {
        assert(holds(s, all[0]));
    }
    if holds(s, "％"@) {
        assert(holds(s, all[1]));
    }
    if holds(s, "概率"@) {
        assert(holds(s, all[2]));
    }
    if holds(s, "准确率"@) {
        assert(holds(s, all[3]));
    }
    if holds(s, "百分"@) {
        assert(holds(s, all[4]));
    }
    if holds(s, "百分点"@) {
        assert(holds(s, all[5]));
    }
    if holds(s, "阈值"@) {
        assert(holds(s, all[6]));
    }
    if holds(s, "临界"@) {
        assert(holds(s, all[7]));
    }
    if holds(s, "期望值"@) {
        assert(holds(s, all[8]));
    }
    if holds(s, "赔率"@) {
        assert(holds(s, all[9]));
    }
    if holds(s, "比率"@) {
        assert(holds(s, all[10]));
    }
    if holds(s, "比例"@) {
        assert(holds(s, all[11]));
    }
    if holds(s, "方差"@) {
        assert(holds(s, all[12]));
    }
    if holds(s, "置信区间"@) {
        assert(holds(s, all[13]));
    }
    if holds(s, "probability"@) {
        assert(holds(s, all[14]));
    }
    if holds(s, "accuracy"@) {
        assert(holds(s, all[15]));
    }
    if holds(s, "percent"@) {
        assert(holds(s, all[16]));
    }
    if holds(s, "percentage point"@) {
        assert(holds(s, all[17]));
    }
    if holds(s, "threshold"@) {
        assert(holds(s, all[18]));
    }
    if holds(s, "expected value"@) {
        assert(holds(s, all[19]));
    }
    if holds(s, "odds"@) {
        assert(holds(s, all[20]));
    }
    if holds(s, "variance"@) {
        assert(holds(s, all[21]));
    }
    if holds(s, "confidence interval"@) {
        assert(holds(s, all[22]));
    }
}

/// The words by which a request is known to ask for a derivation.
pub proof fn law_words_that_ask_for_a_derivation(s: Seq<char>)
    ensures
        ({
            let all = seq![
                "求"@,
                "计算"@,
                "比较"@,
                "推导"@,
                "证明"@,
                "估计"@,
                "判断"@,
                "讨论"@,
                "边界"@,
                "阈值"@,
                "临界"@,
                "期望"@,
                "calculate"@,
                "compare"@,
                "derive"@,
                "prove"@,
                "estimate"@,
                "evaluate"@,
                "discuss"@,
                "boundary"@,
                "threshold"@,
                "expected"@,
            ];
            reasoning_marks(s) <==> exists|i: int| 0 <= i < all.len() && holds(s, #[trigger] all[i])
        }),
{
    let all = seq![
        "求"@,
        "计算"@,
        "比较"@,
        "推导"@,
        "证明"@,
        "估计"@,
        "判断"@,
        "讨论"@,
        "边界"@,
        "阈值"@,
        "临界"@,
        "期望"@,
        "calculate"@,
        "compare"@,
        "derive"@,
        "prove"@,
        "estimate"@,
        "evaluate"@,
        "discuss"@,
        "boundary"@,
        "threshold"@,
        "expected"@,
    ];
    assert(all[0] == "求"@);
    assert(all[1] == "计算"@);
    assert(all[2] == "比较"@);
    assert(all[3] == "推导"@);
    assert(all[4] == "证明"@);
    assert(all[5] == "估计"@);
    assert(all[6] == "判断"@);
    assert(all[7] == "讨论"@);
    assert(all[8] == "边界"@);
    assert(all[9] == "阈值"@);
    assert(all[10] == "临界"@);
    assert(all[11] == "期望"@);
    assert(all[12] == "calculate"@);
    assert(all[13] == "compare"@);
    assert(all[14] == "derive"@);
    assert(all[15] == "prove"@);
    assert(all[16] == "estimate"@);
    assert(all[17] == "evaluate"@);
    assert(all[18] == "discuss"@);
    assert(all[19] == "boundary"@);
    assert(all[20] == "threshold"@);
    assert(all[21] == "expected"@);
    if holds(s, "求"@) {
        assert(holds(s, all[0]));
    }
    if holds(s, "计算"@) {
        assert(holds(s, all[1]));
    }
    if holds(s, "比较"@) {
        assert(holds(s, all[2]));
    }
    if holds(s, "推导"@) {
        assert(holds(s, all[3]));
    }
    if holds(s, "证明"@) {
        assert(holds(s, all[4]));
    }
    if holds(s, "估计"@) {
        assert(holds(s, all[5]));
    }
    if holds(s, "判断"@) {
        assert(holds(s, all[6]));
    }
    if holds(s, "讨论"@) {
        assert(holds(s, all[7]));
    }
    if holds(s, "边界"@) {
        assert(holds(s, all[8]));
    }
    if holds(s, "阈值"@) {
        assert(holds(s, all[9]));
    }
    if holds(s, "临界"@) {
        assert(holds(s, all[10]));
    }
    if holds(s, "期望"@) {
        assert(holds(s, all[11]));
    }
    if holds(s, "calculate"@) {
        assert(holds(s, all[12]));
    }
    if holds(s, "compare"@) {
        assert(holds(s, all[13]));
    }
    if holds(s, "derive"@) {
        assert(holds(s, all[14]));
    }
    if holds(s, "prove"@) {
        assert(holds(s, all[15]));
    }
    if holds(s, "estimate"@) {
        assert(holds(s, all[16]));
    }
    if holds(s, "evaluate"@) {
        assert(holds(s, all[17]));
    }
    if holds(s, "discuss"@) {
        assert(holds(s, all[18]));
    }
    if holds(s, "boundary"@) {
        assert(holds(s, all[19]));
    }
    if holds(s, "threshold"@) {
        assert(holds(s, all[20]));
    }
    if holds(s, "expected"@) {
        assert(holds(s, all[21]));
    }
}

/// The words by which a request is known to ask for what is new.
pub proof fn law_words_that_ask_for_news(s: Seq<char>)
    ensures
        ({
            let all = seq![
                "最新"@,
                "近期"@,
                "最近发布"@,
                "今天"@,
                "今年"@,
                "现在的"@,
                "目前的"@,
                "新闻"@,
                "行情"@,
                "股价"@,
                "汇率"@,
                "多少钱"@,
                "价格是多少"@,
                "什么时候发布"@,
                "发布了吗"@,
                "上市了吗"@,
                "latest version"@,
                "latest release"@,
                "release date"@,
                "what's new in"@,
                "recent news"@,
                "price of"@,
            ];
            fresh_marks(s) <==> exists|i: int| 0 <= i < all.len() && holds(s, #[trigger] all[i])
        }),
{
    let all = seq![
        "最新"@,
        "近期"@,
        "最近发布"@,
        "今天"@,
        "今年"@,
        "现在的"@,
        "目前的"@,
        "新闻"@,
        "行情"@,
        "股价"@,
        "汇率"@,
        "多少钱"@,
        "价格是多少"@,
        "什么时候发布"@,
        "发布了吗"@,
        "上市了吗"@,
        "latest version"@,
        "latest release"@,
        "release date"@,
        "what's new in"@,
        "recent news"@,
        "price of"@,
    ];
    assert(all[0] == "最新"@);
    assert(all[1] == "近期"@);
    assert(all[2] == "最近发布"@);
    assert(all[3] == "今天"@);
    assert(all[4] == "今年"@);
    assert(all[5] == "现在的"@);
    assert(all[6] == "目前的"@);
    assert(all[7] == "新闻"@);
    assert(all[8] == "行情"@);
    assert(all[9] == "股价"@);
    assert(all[10] == "汇率"@);
    assert(all[11] == "多少钱"@);
    assert(all[12] == "价格是多少"@);
    assert(all[13] == "什么时候发布"@);
    assert(all[14] == "发布了吗"@);
    assert(all[15] == "上市了吗"@);
    assert(all[16] == "latest version"@);
    assert(all[17] == "latest release"@);
    assert(all[18] == "release date"@);
    assert(all[19] == "what's new in"@);
    assert(all[20] == "recent news"@);
    assert(all[21] == "price of"@);
    if holds(s, "最新"@) {
        assert(holds(s, all[0]));
    }
    if holds(s, "近期"@) {
        assert(holds(s, all[1]));
    }
    if holds(s, "最近发布"@) {
        assert(holds(s, all[2]));
    }
    if holds(s, "今天"@) {
        assert(holds(s, all[3]));
    }
    if holds(s, "今年"@) {
        assert(holds(s, all[4]));
    }
    if holds(s, "现在的"@) {
        assert(holds(s, all[5]));
    }
    if holds(s, "目前的"@) {
        assert(holds(s, all[6]));
    }
    if holds(s, "新闻"@) {
        assert(holds(s, all[7]));
    }
    if holds(s, "行情"@) {
        assert(holds(s, all[8]));
    }
    if holds(s, "股价"@) {
        assert(holds(s, all[9]));
    }
    if holds(s, "汇率"@) {
        assert(holds(s, all[10]));
    }
    if holds(s, "多少钱"@) {
        assert(holds(s, all[11]));
    }
    if holds(s, "价格是多少"@) {
        assert(holds(s, all[12]));
    }
    if holds(s, "什么时候发布"@) {
        assert(holds(s, all[13]));
    }
    if holds(s, "发布了吗"@) {
        assert(holds(s, all[14]));
    }
    if holds(s, "上市了吗"@) {
        assert(holds(s, all[15]));
    }
    if holds(s, "latest version"@) {
        assert(holds(s, all[16]));
    }
    if holds(s, "latest release"@) {
        assert(holds(s, all[17]));
    }
    if holds(s, "release date"@) {
        assert(holds(s, all[18]));
    }
    if holds(s, "what's new in"@) {
        assert(holds(s, all[19]));
    }
    if holds(s, "recent news"@) {
        assert(holds(s, all[20]));
    }
    if holds(s, "price of"@) {
        assert(holds(s, all[21]));
    }
}

/// The words by which a request is known to ask for a place in the code.
pub proof fn law_words_that_ask_where(s: Seq<char>)
    ensures
        ({
            let all = seq![
                "修"@,
                "实现"@,
                "定位"@,
                "在哪"@,
                "哪里"@,
                "缺陷"@,
                "崩溃"@,
                "bug"@,
                "立刻改"@,
                "必须改"@,
            ];
            locate_marks(s) <==> exists|i: int| 0 <= i < all.len() && holds(s, #[trigger] all[i])
        }),
{
    let all = seq![
        "修"@,
        "实现"@,
        "定位"@,
        "在哪"@,
        "哪里"@,
        "缺陷"@,
        "崩溃"@,
        "bug"@,
        "立刻改"@,
        "必须改"@,
    ];
    assert(all[0] == "修"@);
    assert(all[1] == "实现"@);
    assert(all[2] == "定位"@);
    assert(all[3] == "在哪"@);
    assert(all[4] == "哪里"@);
    assert(all[5] == "缺陷"@);
    assert(all[6] == "崩溃"@);
    assert(all[7] == "bug"@);
    assert(all[8] == "立刻改"@);
    assert(all[9] == "必须改"@);
    if holds(s, "修"@) {
        assert(holds(s, all[0]));
    }
    if holds(s, "实现"@) {
        assert(holds(s, all[1]));
    }
    if holds(s, "定位"@) {
        assert(holds(s, all[2]));
    }
    if holds(s, "在哪"@) {
        assert(holds(s, all[3]));
    }
    if holds(s, "哪里"@) {
        assert(holds(s, all[4]));
    }
    if holds(s, "缺陷"@) {
        assert(holds(s, all[5]));
    }
    if holds(s, "崩溃"@) {
        assert(holds(s, all[6]));
    }
    if holds(s, "bug"@) {
        assert(holds(s, all[7]));
    }
    if holds(s, "立刻改"@) {
        assert(holds(s, all[8]));
    }
    if holds(s, "必须改"@) {
        assert(holds(s, all[9]));
    }
}

/// The words by which a request is known to ask for a change.
pub proof fn law_words_that_ask_for_a_change(s: Seq<char>)
    ensures
        ({
            let all = seq![
                "修"@,
                "改"@,
                "实现"@,
                "补"@,
                "重构"@,
                "优化"@,
                "加上"@,
            ];
            change_marks(s) <==> exists|i: int| 0 <= i < all.len() && holds(s, #[trigger] all[i])
        }),
{
    let all = seq![
        "修"@,
        "改"@,
        "实现"@,
        "补"@,
        "重构"@,
        "优化"@,
        "加上"@,
    ];
    assert(all[0] == "修"@);
    assert(all[1] == "改"@);
    assert(all[2] == "实现"@);
    assert(all[3] == "补"@);
    assert(all[4] == "重构"@);
    assert(all[5] == "优化"@);
    assert(all[6] == "加上"@);
    if holds(s, "修"@) {
        assert(holds(s, all[0]));
    }
    if holds(s, "改"@) {
        assert(holds(s, all[1]));
    }
    if holds(s, "实现"@) {
        assert(holds(s, all[2]));
    }
    if holds(s, "补"@) {
        assert(holds(s, all[3]));
    }
    if holds(s, "重构"@) {
        assert(holds(s, all[4]));
    }
    if holds(s, "优化"@) {
        assert(holds(s, all[5]));
    }
    if holds(s, "加上"@) {
        assert(holds(s, all[6]));
    }
}

/// The English words by which a request is known to ask for a change.
pub proof fn law_verbs_that_ask_for_a_change(s: Seq<char>)
    ensures
        ({
            let all = seq![
                "fix "@,
                "implement "@,
                "refactor "@,
                "rewrite "@,
                "make it "@,
            ];
            change_verbs(s) <==> exists|i: int| 0 <= i < all.len() && holds(s, #[trigger] all[i])
        }),
{
    let all = seq![
        "fix "@,
        "implement "@,
        "refactor "@,
        "rewrite "@,
        "make it "@,
    ];
    assert(all[0] == "fix "@);
    assert(all[1] == "implement "@);
    assert(all[2] == "refactor "@);
    assert(all[3] == "rewrite "@);
    assert(all[4] == "make it "@);
    if holds(s, "fix "@) {
        assert(holds(s, all[0]));
    }
    if holds(s, "implement "@) {
        assert(holds(s, all[1]));
    }
    if holds(s, "refactor "@) {
        assert(holds(s, all[2]));
    }
    if holds(s, "rewrite "@) {
        assert(holds(s, all[3]));
    }
    if holds(s, "make it "@) {
        assert(holds(s, all[4]));
    }
}

/// What a request must be to get a hint that it may need fresh facts: it gives an address,
/// asks for what is new or speaks of a recent year, and does not forbid to look.
pub proof fn law_when_fresh_facts_are_needed(user: Seq<char>, l: Seq<char>)
    ensures
        ({
            let forbids = holds(user, "不要联网"@) || holds(user, "不要搜索"@) || holds(
                user,
                "别联网"@,
            );
            &&& forbids ==> !web_ask(user, l)
            &&& !forbids && (holds(user, "http://"@) || holds(user, "https://"@)) ==> web_ask(
                user,
                l,
            )
            &&& !forbids && (fresh_marks(l) || recent_year(user)) ==> web_ask(user, l)
            &&& !holds(user, "http://"@) && !holds(user, "https://"@) && !fresh_marks(l)
                && !recent_year(user) ==> !web_ask(user, l)
        }),
{
}

/// A year from 2025 on is a recent one, where it is not the beginning of a longer number; an
/// earlier one is not.
pub proof fn law_recent_years(a: Seq<char>, x: char, y: char, b: Seq<char>)
    requires
        digit(x) && digit(y),
        b.len() > 0 ==> !digit(b[0]),
    ensures
        x >= '3' || (x == '2' && y >= '5') ==> recent_year(a + seq!['2', '0', x, y] + b),
        (forall|i: int| 0 <= i < a.len() ==> !digit(#[trigger] a[i])) && (x < '2' || (x == '2' && y
            < '5')) ==> !recent_year(a + seq!['2', '0', x, y]),
{
    let s = a + seq!['2', '0', x, y] + b;
    let n = a.len() as int;
    assert(s[n] == '2' && s[n + 1] == '0' && s[n + 2] == x && s[n + 3] == y);
    if b.len() > 0 {
        assert(s[n + 4] == b[0]);
    }
    if x >= '3' || (x == '2' && y >= '5') {
        assert(recent_year_at(s, n));
    }
    let t = a + seq!['2', '0', x, y];
    if (forall|i: int| 0 <= i < a.len() ==> !digit(#[trigger] a[i])) && recent_year(t) {
        let i = choose|i: int| recent_year_at(t, i);
        if i < n {
            assert(t[i] == a[i]);
        }
        assert(t[n + 2] == x && t[n + 3] == y);
    }
}

/// What forbids tools: a word to that effect, and nothing else.
pub proof fn law_when_tools_are_forbidden(user: Seq<char>)
    ensures
        tools_forbidden(user) <==> holds(user, "不要调用工具"@) || holds(user, "不要用工具"@)
            || holds(user, "不要开工具"@) || holds(lower(user), "don't use tools"@) || holds(
            lower(user),
            "do not use tools"@,
        ),
        tools_forbidden(user) ==> !locates(user),
        !tools_forbidden(user) && locate_marks(user) ==> locates(user),
        !tools_forbidden(user) && holds(lower(user), "fix "@) ==> locates(user),
        !tools_forbidden(user) && holds(lower(user), "implement "@) ==> locates(user),
        !tools_forbidden(user) && call_from(user, 0) ==> locates(user),
        !tools_forbidden(user) && code_word_from(user, 0) ==> locates(user),
{
}

/// A request for a derived quantity gets a hint, where it is not about code.
pub proof fn law_when_numbers_are_checked(user: Seq<char>, l: Seq<char>)
    ensures
        numeric_ask(user, l) <==> quantity_marks(l) && reasoning_marks(l) && !code_marks(l)
            && !call_from(user, 0),
{
}

proof fn lemma_name_runs(a: Seq<char>, n: Seq<char>, b: Seq<char>, i: int)
    requires
        0 <= i <= n.len(),
        forall|j: int| 0 <= j < n.len() ==> name_char(#[trigger] n[j]),
        b.len() > 0 ==> !name_char(b[0]),
    ensures
        name_end(a + n + b, a.len() + i) == a.len() + n.len(),
    decreases n.len() - i,
{
    let s = a + n + b;
    if i < n.len() {
        assert(s[a.len() + i] == n[i]);
        lemma_name_runs(a, n, b, i + 1);
    } else if b.len() > 0 {
        assert(s[a.len() + i] == b[0]);
    }
}

proof fn lemma_call_reached(a: Seq<char>, rest: Seq<char>, i: int)
    requires
        0 <= i <= a.len(),
        forall|j: int| 0 <= j < a.len() ==> !name_char(#[trigger] a[j]),
    ensures
        call_from(a + rest, i) == call_from(a + rest, a.len() as int),
    decreases a.len() - i,
{
    if i < a.len() {
        assert((a + rest)[i] == a[i]);
        assert(!name_char(a[i]));
        lemma_call_reached(a, rest, i + 1);
    }
}

/// A name of at least three characters before a bracket is a call; without a bracket there
/// is none.
pub proof fn law_calls_are_known_by_their_bracket(a: Seq<char>, n: Seq<char>, b: Seq<char>)
    requires
        forall|j: int| 0 <= j < a.len() ==> !name_char(#[trigger] a[j]),
        n.len() >= 3,
        name_start(n[0]),
        forall|j: int| 0 <= j < n.len() ==> name_char(#[trigger] n[j]),
    ensures
        call_from(a + n + seq!['('] + b, 0),
        !b.contains('(') ==> !call_from(b, 0),
{
    let c = seq!['('] + b;
    let s = a + n + c;
    assert(a + n + seq!['('] + b =~= s);
    lemma_call_reached(a, n + c, 0);
    assert(s =~= a + (n + c));
    let k = a.len() as int;
    assert(s[k] == n[0]);
    lemma_name_runs(a, n, c, 1);
    let e = k + n.len();
    assert(s[e as int] == '(');
    if !b.contains('(') {
        lemma_no_bracket(b, 0);
    }
}

proof fn lemma_no_bracket(s: Seq<char>, i: int)
    requires
        0 <= i,
        !s.contains('('),
    ensures
        !call_from(s, i),
    decreases s.len() - i,
{
    if i < s.len() {
        if name_start(s[i]) {
            let e = name_end(s, i + 1);
            lemma_name_end(s, i + 1);
            if e < s.len() {
                assert(s.contains(s[e]));
            }
            lemma_no_bracket(s, e);
        } else {
            lemma_no_bracket(s, i + 1);
        }
    }
}

proof fn lemma_word_runs(a: Seq<char>, w: Seq<char>, b: Seq<char>, i: int)
    requires
        0 <= i <= w.len(),
        forall|j: int| 0 <= j < w.len() ==> word_char(#[trigger] w[j]),
        b.len() > 0 ==> !word_char(b[0]),
    ensures
        word_end(a + w + b, a.len() + i) == a.len() + w.len(),
    decreases w.len() - i,
{
    let s = a + w + b;
    if i < w.len() {
        assert(s[a.len() + i] == w[i]);
        lemma_word_runs(a, w, b, i + 1);
    } else if b.len() > 0 {
        assert(s[a.len() + i] == b[0]);
    }
}

proof fn lemma_word_reached(a: Seq<char>, rest: Seq<char>, i: int)
    requires
        0 <= i <= a.len(),
        forall|j: int| 0 <= j < a.len() ==> !word_char(#[trigger] a[j]),
    ensures
        code_word_from(a + rest, i) == code_word_from(a + rest, a.len() as int),
    decreases a.len() - i,
{
    if i < a.len() {
        assert((a + rest)[i] == a[i]);
        lemma_word_reached(a, rest, i + 1);
    }
}

/// A word of at least three characters is one of code by an underscore, a slash, a point
/// behind its first character, or letters of both sizes.
pub proof fn law_words_of_code(a: Seq<char>, w: Seq<char>, b: Seq<char>, i: int, k: int)
    requires
        forall|j: int| 0 <= j < a.len() ==> !word_char(#[trigger] a[j]),
        forall|j: int| 0 <= j < w.len() ==> word_char(#[trigger] w[j]),
        b.len() > 0 ==> !word_char(b[0]),
        w.len() >= 3,
        0 <= i < w.len(),
        0 <= k < w.len(),
        w[i] == '_' || w[i] == '/' || (w[i] == '.' && w[0] != '.') || ('A' <= w[i] && w[i] <= 'Z'
            && 'a' <= w[k] && w[k] <= 'z'),
    ensures
        code_word_from(a + w + b, 0),
{
    let s = a + w + b;
    lemma_word_reached(a, w + b, 0);
    assert(s =~= a + (w + b));
    let n = a.len() as int;
    assert(s[n] == w[0]);
    lemma_word_runs(a, w, b, 0);
    assert(s.subrange(n, n + w.len()) =~= w);
    assert(w.contains(w[i]));
    assert(capital(w[i]) || w[i] == '_' || w[i] == '/' || w[i] == '.');
    if capital(w[i]) {
        assert(small(w[k]));
    }
    assert(code_word(w));
}

/// A name is made of letters, digits and lines, and begins with no digit; a word of one or
/// two characters before a bracket is no call.
pub proof fn law_what_a_name_is_made_of(c: char, s: Seq<char>)
    ensures
        'a' <= c <= 'z' || 'A' <= c <= 'Z' || c == '_' ==> name_start(c) && name_char(c),
        '0' <= c <= '9' ==> name_char(c) && !name_start(c),
        c == ' ' || c == '(' || c == '.' || c == '-' ==> !name_char(c) && !name_start(c),
        !call_from(seq![c, '('], 0),
        !call_from(seq![c, c, '('], 0),
{
    reveal_with_fuel(call_from, 5);
    reveal_with_fuel(name_end, 5);
}

/// A text of small letters, digits and spaces holds no word of code.
pub proof fn law_plain_words_are_no_code(s: Seq<char>, i: int)
    requires
        0 <= i,
        forall|j: int|
            0 <= j < s.len() ==> ('a' <= #[trigger] s[j] && s[j] <= 'z') || ('0' <= s[j] && s[j]
                <= '9') || s[j] == ' ',
    ensures
        !code_word_from(s, i),
    decreases s.len() - i,
{
    if i < s.len() {
        if word_char(s[i]) {
            lemma_word_end(s, i);
            let e = word_end(s, i);
            let w = s.subrange(i, e);
            assert forall|j: int| 0 <= j < w.len() implies !capital(#[trigger] w[j]) && w[j] != '_'
                && w[j] != '/' && w[j] != '.' by {
                assert(w[j] == s[i + j]);
            }
            assert(!code_word(w));
            law_plain_words_are_no_code(s, e);
        } else {
            law_plain_words_are_no_code(s, i + 1);
        }
    }
}

} // verus!
