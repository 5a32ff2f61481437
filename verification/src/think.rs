//! Thought and answer in one text: what stands between `<think>` and `</think>`
//! is thought, the rest is answer.

use vstd::prelude::*;
use crate::text::{
    chars_of, find, find_from, holds, is_white, lemma_find_from, search, string_of, trim_bounds,
    trimmed, white,
};

verus! {

/// A thought added to those before it, on a line of its own.
pub open spec fn add_thought(before: Seq<char>, thought: Seq<char>, trim: bool) -> Seq<char> {
    (if before.len() > 0 {
        before.push('\n')
    } else {
        before
    }) + if trim {
        trimmed(thought)
    } else {
        thought
    }
}

/// The thought and the answer of a text from `from` on, after `thought` and
/// `answer`. A thought that never closes runs to the end.
pub open spec fn split_from(
    s: Seq<char>,
    from: int,
    thought: Seq<char>,
    answer: Seq<char>,
    trim: bool,
) -> (Seq<char>, Seq<char>)
    decreases s.len() - from,
{
    if from < 0 {
        (thought, answer)
    } else {
        proof {
            lemma_find_from(s, "<think>"@, from);
        }
        match find_from(s, "<think>"@, from) {
            None => (
                thought,
                answer + if from <= s.len() {
                    s.skip(from)
                } else {
                    Seq::empty()
                },
            ),
            Some(a) => {
                let open = a + "<think>"@.len();
                proof {
                    reveal_strlit("<think>");
                    lemma_find_from(s, "</think>"@, open);
                }
                match find_from(s, "</think>"@, open) {
                    Some(e) => split_from(
                        s,
                        e + "</think>"@.len(),
                        add_thought(thought, s.subrange(open, e), trim),
                        answer + s.subrange(from, a),
                        trim,
                    ),
                    None => (
                        add_thought(thought, s.skip(open), trim),
                        answer + s.subrange(from, a),
                    ),
                }
            },
        }
    }
}

/// The thought and the answer of a text, thoughts as they are or trimmed.
pub open spec fn split_of(s: Seq<char>, trim: bool) -> (Seq<char>, Seq<char>) {
    split_from(s, 0, Seq::empty(), Seq::empty(), trim)
}

fn push_part(out: &mut String, cs: &Vec<char>, from: usize, to: usize)
    requires
        from <= to <= cs@.len(),
    ensures
        final(out)@ == old(out)@ + cs@.subrange(from as int, to as int),
{
    let t = string_of(cs, from, to);
    out.append(t.as_str());
}

fn push_thought(out: &mut String, cs: &Vec<char>, from: usize, to: usize, trim: bool)
    requires
        from <= to <= cs@.len(),
    ensures
        final(out)@ == add_thought(old(out)@, cs@.subrange(from as int, to as int), trim),
{
    if !out.as_str().is_empty() {
        out.push('\n');
    }
    if trim {
        let (a, b) = trim_bounds(cs, from, to);
        push_part(out, cs, a, b);
    } else {
        push_part(out, cs, from, to);
    }
}

fn split_text(content: &str, trim: bool) -> (r: (String, String))
    ensures
        (r.0@, r.1@) == split_of(content@, trim),
{
    let s = chars_of(content);
    let open_tag = chars_of("<think>");
    let close_tag = chars_of("</think>");
    let mut thought: String = String::new();
    let mut answer: String = String::new();
    let mut from: usize = 0;
    proof {
        reveal_strlit("<think>");
    }
    loop
        invariant
            from <= s@.len(),
            s@ == content@,
            open_tag@ == "<think>"@,
            open_tag@.len() == 7,
            close_tag@ == "</think>"@,
            split_of(content@, trim) == split_from(s@, from as int, thought@, answer@, trim),
        decreases s.len() - from,
    {
        proof {
            lemma_find_from(s@, "<think>"@, from as int);
        }
        match search(&s, &open_tag, from) {
            None => {
                assert(s@.skip(from as int) =~= s@.subrange(from as int, s@.len() as int));
                push_part(&mut answer, &s, from, s.len());
                return (thought, answer);
            },
            Some(a) => {
                push_part(&mut answer, &s, from, a);
                let open: usize = a + open_tag.len();
                proof {
                    lemma_find_from(s@, "</think>"@, open as int);
                }
                match search(&s, &close_tag, open) {
                    Some(e) => {
                        push_thought(&mut thought, &s, open, e, trim);
                        from = e + close_tag.len();
                    },
                    None => {
                        assert(s@.skip(open as int) =~= s@.subrange(open as int, s@.len() as int));
                        push_thought(&mut thought, &s, open, s.len(), trim);
                        return (thought, answer);
                    },
                }
            },
        }
    }
}

/// The thought, trimmed, and the answer of a finished text.
pub fn split_think(content: &str) -> (r: (String, String))
    ensures
        (r.0@, r.1@) == split_of(content@, true),
{
    split_text(content, true)
}

/// The answer of a finished text.
pub fn strip_think(content: &str) -> (r: String)
    ensures
        r@ == split_of(content@, true).1,
{
    split_think(content).1
}

/// The thought and the answer of a text that is still growing.
pub fn split_think_live(content: &str) -> (r: (String, String))
    ensures
        (r.0@, r.1@) == split_of(content@, false),
{
    split_text(content, false)
}

/// A text without a thought is all answer.
pub proof fn law_no_think_is_all_answer(s: Seq<char>, trim: bool)
    requires
        !holds(s, "<think>"@),
    ensures
        split_of(s, trim) == (Seq::<char>::empty(), s),
{
    lemma_find_from(s, "<think>"@, 0);
    assert(Seq::<char>::empty() + s.skip(0) =~= s);
}

proof fn lemma_answer_ignores_trim(
    s: Seq<char>,
    from: int,
    t1: Seq<char>,
    t2: Seq<char>,
    answer: Seq<char>,
)
    requires
        0 <= from,
    ensures
        split_from(s, from, t1, answer, true).1 == split_from(s, from, t2, answer, false).1,
    decreases s.len() - from,
{
    lemma_find_from(s, "<think>"@, from);
    if let Some(a) = find_from(s, "<think>"@, from) {
        let open = a + "<think>"@.len();
        reveal_strlit("<think>");
        lemma_find_from(s, "</think>"@, open);
        if let Some(e) = find_from(s, "</think>"@, open) {
            lemma_answer_ignores_trim(
                s,
                e + "</think>"@.len(),
                add_thought(t1, s.subrange(open, e), true),
                add_thought(t2, s.subrange(open, e), false),
                answer + s.subrange(from, a),
            );
        }
    }
}

/// The live split and the final one show the same answer.
pub proof fn law_live_answer_is_final_answer(s: Seq<char>)
    ensures
        split_of(s, false).1 == split_of(s, true).1,
{
    lemma_answer_ignores_trim(s, 0, Seq::empty(), Seq::empty(), Seq::empty());
}

// ---------------------------------------------------------------------------
// How much was thought
// ---------------------------------------------------------------------------

/// The thought to be counted: the thinking channel, else the first thought of the
/// content.
pub open spec fn thought_of(reasoning: Seq<char>, content: Seq<char>) -> Seq<char> {
    if reasoning.len() > 0 {
        reasoning
    } else {
        match find(content, "<think>"@) {
            None => Seq::empty(),
            Some(a) => {
                let rest = content.skip(a + "<think>"@.len());
                match find(rest, "</think>"@) {
                    Some(e) => rest.take(e),
                    None => rest,
                }
            },
        }
    }
}

/// The thought to be counted.
pub fn think_blob(reasoning: &str, content: &str) -> (r: String)
    ensures
        r@ == thought_of(reasoning@, content@),
{
    if !reasoning.is_empty() {
        return reasoning.to_owned();
    }
    let s = chars_of(content);
    let open_tag = chars_of("<think>");
    proof {
        lemma_find_from(s@, "<think>"@, 0);
    }
    match search(&s, &open_tag, 0) {
        None => String::new(),
        Some(a) => {
            let rest = string_of(&s, a + open_tag.len(), s.len());
            assert(rest@ =~= content@.skip(a + "<think>"@.len()));
            let cs = chars_of(rest.as_str());
            match search(&cs, &chars_of("</think>"), 0) {
                Some(e) => {
                    assert(cs@.subrange(0, e as int) =~= cs@.take(e as int));
                    string_of(&cs, 0, e)
                },
                None => rest,
            }
        },
    }
}

/// How many words a text has: rows of characters that are no white space.
pub open spec fn words(s: Seq<char>) -> nat
    decreases s.len(),
{
    if s.len() == 0 {
        0
    } else {
        words(s.drop_last()) + if !white(s.last()) && (s.len() == 1 || white(s[s.len() - 2])) {
            1nat
        } else {
            0nat
        }
    }
}

/// How many words a text has.
pub fn count_words(s: &str) -> (r: usize)
    ensures
        r == words(s@),
        r <= s@.len(),
{
    let cs = chars_of(s);
    let mut n: usize = 0;
    let mut i: usize = 0;
    while i < cs.len()
        invariant
            i <= cs@.len(),
            n <= i,
            n == words(cs@.take(i as int)),
        decreases cs.len() - i,
    {
        assert(cs@.take(i + 1).drop_last() =~= cs@.take(i as int));
        if !is_white(cs[i]) && (i == 0 || is_white(cs[i - 1])) {
            n = n + 1;
        }
        i = i + 1;
    }
    assert(cs@.take(i as int) =~= s@);
    n
}

/// The size of a thought: the tokenizer's count where it has one, else its words,
/// at least one.
pub open spec fn think_tokens(
    reasoning: Seq<char>,
    content: Seq<char>,
    counted: Option<u32>,
) -> u32 {
    let blob = thought_of(reasoning, content);
    if blob.len() == 0 {
        0
    } else {
        match counted {
            Some(n) => n,
            None => if words(blob) == 0 {
                1
            } else if words(blob) > u32::MAX {
                u32::MAX
            } else {
                words(blob) as u32
            },
        }
    }
}

/// The size of a thought. `counted` is the tokenizer's count of `think_blob`, where
/// the tokenizer could be had.
pub fn count_think_tokens(reasoning: &str, content: &str, counted: Option<u32>) -> (r: u32)
    ensures
        r == think_tokens(reasoning@, content@, counted),
{
    let blob = think_blob(reasoning, content);
    if blob.as_str().is_empty() {
        return 0;
    }
    match counted {
        Some(n) => n,
        None => {
            let n: usize = count_words(blob.as_str());
            if n == 0 {
                1
            } else if n as u64 > u32::MAX as u64 {
                u32::MAX
            } else {
                n as u32
            }
        },
    }
}

/// Whether a thought has reached its cap. Without a cap it never does.
pub fn watchdog_hit(
    cap: Option<u32>,
    reasoning: &str,
    content: &str,
    counted: Option<u32>,
) -> (r: bool)
    ensures
        r == (cap is Some && think_tokens(reasoning@, content@, counted) >= cap->0),
{
    match cap {
        None => false,
        Some(c) => count_think_tokens(reasoning, content, counted) >= c,
    }
}

// ---------------------------------------------------------------------------
// Laws
// ---------------------------------------------------------------------------

proof fn lemma_think_tags()
    ensures
        "<think>"@.len() == 7 && "</think>"@.len() == 8,
        "<think>"@[0] == '<' && !"<think>"@.skip(1).contains('<'),
        "</think>"@[0] == '<' && !"</think>"@.skip(1).contains('<'),
{
    reveal_strlit("<think>");
    reveal_strlit("</think>");
}

proof fn lemma_split_behind(
    a: Seq<char>,
    b: Seq<char>,
    from: int,
    thought: Seq<char>,
    answer: Seq<char>,
    trim: bool,
)
    requires
        0 <= from <= b.len(),
    ensures
        split_from(a + b, a.len() + from, thought, answer, trim) == split_from(
            b,
            from,
            thought,
            answer,
            trim,
        ),
    decreases b.len() - from,
{
    lemma_think_tags();
    let s = a + b;
    let n = a.len() as int;
    crate::text::lemma_find_behind(a, b, "<think>"@, from);
    lemma_find_from(b, "<think>"@, from);
    match find_from(b, "<think>"@, from) {
        None => {
            assert(s.skip(n + from) =~= b.skip(from));
        },
        Some(i) => {
            let open = i + 7;
            crate::text::lemma_find_behind(a, b, "</think>"@, open);
            lemma_find_from(b, "</think>"@, open);
            assert(s.subrange(n + from, n + i) =~= b.subrange(from, i));
            match find_from(b, "</think>"@, open) {
                Some(e) => {
                    assert(s.subrange(n + open, n + e) =~= b.subrange(open, e));
                    lemma_split_behind(
                        a,
                        b,
                        e + 8,
                        add_thought(thought, b.subrange(open, e), trim),
                        answer + b.subrange(from, i),
                        trim,
                    );
                },
                None => {
                    assert(s.skip(n + open) =~= b.skip(open));
                },
            }
        },
    }
}

/// A text is split thought by thought: what stands before the first one is answer, what it
/// encloses is thought, on a line of its own behind those before it, and the rest is split
/// in the same way.
pub proof fn law_every_thought_is_taken_out(
    a: Seq<char>,
    t: Seq<char>,
    b: Seq<char>,
    thought: Seq<char>,
    answer: Seq<char>,
    trim: bool,
)
    requires
        !holds(a, "<think>"@),
        !holds(t, "</think>"@),
    ensures
        split_from(a + "<think>"@ + t + "</think>"@ + b, 0, thought, answer, trim) == split_from(
            b,
            0,
            (if thought.len() > 0 {
                thought.push('\n')
            } else {
                thought
            }) + (if trim {
                trimmed(t)
            } else {
                t
            }),
            answer + a,
            trim,
        ),
{
    lemma_think_tags();
    let open = "<think>"@;
    let close = "</think>"@;
    let s = a + open + t + close + b;
    let n = a.len() as int;
    let tail = t + close + b;
    assert(s =~= a + open + tail);
    crate::text::lemma_find_tag(a, open, tail);
    let head = a + open;
    assert(s =~= head + tail);
    crate::text::lemma_find_behind(head, tail, close, 0);
    crate::text::lemma_find_tag(t, close, b);
    let e = n + 7 + t.len();
    assert(find_from(s, close, n + 7) == Some(e as int));
    assert(s.subrange(n + 7, e as int) =~= t);
    assert(s.subrange(0, n) =~= a);
    let all = a + open + t + close;
    assert(s =~= all + b);
    lemma_split_behind(all, b, 0, add_thought(thought, t, trim), answer + a, trim);
}

/// A thought that never closes runs to the end.
pub proof fn law_an_open_thought_runs_to_the_end(
    a: Seq<char>,
    t: Seq<char>,
    thought: Seq<char>,
    answer: Seq<char>,
    trim: bool,
)
    requires
        !holds(a, "<think>"@),
        !holds(t, "</think>"@),
    ensures
        split_from(a + "<think>"@ + t, 0, thought, answer, trim) == (
            (if thought.len() > 0 {
                thought.push('\n')
            } else {
                thought
            }) + (if trim {
                trimmed(t)
            } else {
                t
            }),
            answer + a,
        ),
{
    lemma_think_tags();
    let open = "<think>"@;
    let close = "</think>"@;
    let s = a + open + t;
    let n = a.len() as int;
    crate::text::lemma_find_tag(a, open, t);
    let head = a + open;
    crate::text::lemma_find_behind(head, t, close, 0);
    lemma_find_from(t, close, 0);
    assert(s.subrange(0, n) =~= a);
    assert(s.skip(n + 7) =~= t);
}

/// The thought that is counted is that of the thinking channel, and where that is empty the
/// first one of the content, as far as it has come.
pub proof fn law_the_first_thought_is_counted(
    reasoning: Seq<char>,
    a: Seq<char>,
    t: Seq<char>,
    b: Seq<char>,
)
    requires
        !holds(a, "<think>"@),
        !holds(t, "</think>"@),
    ensures
        reasoning.len() > 0 ==> thought_of(reasoning, a) == reasoning,
        thought_of(Seq::empty(), a).len() == 0,
        thought_of(Seq::empty(), a + "<think>"@ + t + "</think>"@ + b) == t,
        thought_of(Seq::empty(), a + "<think>"@ + t) == t,
{
    lemma_think_tags();
    let open = "<think>"@;
    let close = "</think>"@;
    let n = a.len() as int;
    lemma_find_from(a, open, 0);
    let s = a + open + t + close + b;
    let tail = t + close + b;
    assert(s =~= a + open + tail);
    crate::text::lemma_find_tag(a, open, tail);
    assert(s.skip(n + 7) =~= tail);
    crate::text::lemma_find_tag(t, close, b);
    assert(tail.take(t.len() as int) =~= t);
    let u = a + open + t;
    crate::text::lemma_find_tag(a, open, t);
    assert(u.skip(n + 7) =~= t);
    lemma_find_from(t, close, 0);
}

/// How long a thought is: what the tokenizer says, else its words, at least one; and
/// nothing is as long as nothing.
pub proof fn law_a_thought_has_its_length(
    reasoning: Seq<char>,
    content: Seq<char>,
    n: u32,
)
    requires
        reasoning.len() > 0,
    ensures
        think_tokens(reasoning, content, Some(n)) == n,
        0 < words(reasoning) <= u32::MAX ==> think_tokens(reasoning, content, None) == words(
            reasoning,
        ),
        words(reasoning) == 0 ==> think_tokens(reasoning, content, None) == 1,
        !holds(content, "<think>"@) ==> think_tokens(Seq::empty(), content, Some(n)) == 0,
{
    lemma_find_from(content, "<think>"@, 0);
}

/// Words are rows of characters between white space: a text without any is one word, and
/// white space between two texts keeps their words apart.
pub proof fn law_words_stand_between_white_space(a: Seq<char>, w: char, b: Seq<char>)
    requires
        white(w),
    ensures
        words(a.push(w) + b) == words(a) + words(b),
        a.len() > 0 && (forall|i: int| 0 <= i < a.len() ==> !white(#[trigger] a[i])) ==> words(a)
            == 1,
        words(Seq::empty()) == 0,
    decreases a.len() + b.len(),
{
    let s = a.push(w) + b;
    if b.len() == 0 {
        assert(s =~= a.push(w));
        assert(s.drop_last() =~= a);
    } else {
        law_words_stand_between_white_space(a, w, b.drop_last());
        assert(s.drop_last() =~= a.push(w) + b.drop_last());
        if b.len() == 1 {
            assert(s[s.len() - 2] == w);
        } else {
            assert(s[s.len() - 2] == b[b.len() - 2]);
        }
    }
    if a.len() > 0 && (forall|i: int| 0 <= i < a.len() ==> !white(#[trigger] a[i])) {
        lemma_one_word(a);
    }
}

proof fn lemma_one_word(a: Seq<char>)
    requires
        a.len() > 0,
        forall|i: int| 0 <= i < a.len() ==> !white(#[trigger] a[i]),
    ensures
        words(a) == 1,
    decreases a.len(),
{
    let t = a.drop_last();
    if t.len() > 0 {
        assert forall|i: int| 0 <= i < t.len() implies !white(#[trigger] t[i]) by {
            assert(t[i] == a[i]);
        }
        lemma_one_word(t);
        assert(!white(a[a.len() - 2]));
    } else {
        assert(words(t) == 0);
    }
}

} // verus!
