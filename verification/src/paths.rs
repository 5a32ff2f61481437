//! What a path says about the file: code or prose, test or production.

use vstd::prelude::*;
use crate::outside::{lowercased, to_lowercase};
use crate::text::{
    chars_of, contains, ends_with, has_prefix, has_suffix, holds, lower, replace_char, same, split,
    split_at_char, starts_with, string_of, texts, trim, trimmed, with_char,
};

verus! {

/// `s` without the `./` at its front, however often it stands there.
pub open spec fn without_dots(s: Seq<char>) -> Seq<char>
    decreases s.len(),
{
    if s.len() >= 2 && s[0] == '.' && s[1] == '/' {
        without_dots(s.skip(2))
    } else {
        s
    }
}

/// A path as it is compared: trimmed, relative without `./`, with forward slashes.
pub open spec fn normalized(path: Seq<char>) -> Seq<char> {
    with_char(without_dots(trimmed(path)), '\\', '/')
}

/// A path as it is compared.
pub fn normalize_path(path: &str) -> (r: String)
    ensures
        r@ == normalized(path@),
{
    let t = trim(path);
    let cs = chars_of(t.as_str());
    let mut i: usize = 0;
    assert(cs@.skip(0) =~= cs@);
    while cs.len() - i >= 2 && cs[i] == '.' && cs[i + 1] == '/'
        invariant
            i <= cs@.len(),
            without_dots(cs@) == without_dots(cs@.skip(i as int)),
        decreases cs.len() - i,
    {
        assert(cs@.skip(i as int).skip(2) =~= cs@.skip(i + 2));
        i = i + 2;
    }
    let rest = string_of(&cs, i, cs.len());
    assert(rest@ =~= cs@.skip(i as int));
    replace_char(rest.as_str(), '\\', '/')
}

pub open spec fn test_dir(part: Seq<char>) -> bool {
    part == "tests"@ || part == "test"@ || part == "__tests__"@
}

pub open spec fn test_file(file: Seq<char>) -> bool {
    ||| has_prefix(file, "test_"@)
    ||| holds(file, "_test."@)
    ||| holds(file, ".test."@)
    ||| holds(file, ".spec."@)
    ||| has_suffix(file, "_tests.rs"@)
}

/// A path in small letters with a directory of tests in it, or with a file name
/// that names a test.
pub open spec fn lower_test_path(p: Seq<char>) -> bool {
    let parts = split_at_char(p, '/');
    ||| exists|i: int| 0 <= i < parts.len() - 1 && test_dir(#[trigger] parts[i])
    ||| test_file(parts.last())
}

/// The path of a test.
pub open spec fn test_path(path: Seq<char>) -> bool {
    lower_test_path(lowercased(normalized(path)))
}

/// Whether a path in small letters is that of a test.
pub fn is_lower_test_path(p: &str) -> (r: bool)
    ensures
        r == lower_test_path(p@),
{
    let parts = split(p, '/');
    let ghost ps = split_at_char(p@, '/');
    let last: usize = parts.len() - 1;
    let mut i: usize = 0;
    while i < last
        invariant
            i <= last == parts@.len() - 1,
            texts(parts@) == ps,
            ps == split_at_char(p@, '/'),
            forall|j: int| 0 <= j < i ==> !test_dir(#[trigger] ps[j]),
        decreases last - i,
    {
        assert(ps[i as int] == parts@[i as int]@);
        let part = parts[i].as_str();
        if same(part, "tests") || same(part, "test") || same(part, "__tests__") {
            return true;
        }
        i = i + 1;
    }
    assert(ps.last() == parts@[last as int]@) by {
        assert(texts(parts@)[last as int] == parts@[last as int]@);
    }
    let file = parts[last].as_str();
    starts_with(file, "test_") || contains(file, "_test.") || contains(file, ".test.") || contains(
        file,
        ".spec.",
    ) || ends_with(file, "_tests.rs")
}

/// Whether a path is that of a test.
pub fn is_test_path(path: &str) -> (r: bool)
    ensures
        r == test_path(path@),
{
    let p = to_lowercase(normalize_path(path).as_str());
    is_lower_test_path(p.as_str())
}

/// The index of the last `c` in `s`, `-1` where there is none.
pub open spec fn last_index(s: Seq<char>, c: char) -> int
    decreases s.len(),
{
    if s.len() == 0 {
        -1
    } else if s.last() == c {
        s.len() - 1
    } else {
        last_index(s.drop_last(), c)
    }
}

/// The index of the last `c`.
pub fn rfind_char(cs: &Vec<char>, c: char) -> (r: Option<usize>)
    ensures
        r is None <==> last_index(cs@, c) < 0,
        r matches Some(i) ==> i == last_index(cs@, c) && i < cs@.len() && cs@[i as int] == c,
{
    let mut n: usize = cs.len();
    assert(cs@.take(n as int) =~= cs@);
    while n > 0
        invariant
            n <= cs@.len(),
            last_index(cs@, c) == last_index(cs@.take(n as int), c),
        decreases n,
    {
        if cs[n - 1] == c {
            return Some(n - 1);
        }
        assert(cs@.take(n as int).drop_last() =~= cs@.take(n - 1));
        n = n - 1;
    }
    None
}

/// The ending of a file of code, in small letters.
pub open spec fn code_ending(ext: Seq<char>) -> bool {
    ||| ext == "rs"@
    ||| ext == "py"@
    ||| ext == "ts"@
    ||| ext == "tsx"@
    ||| ext == "js"@
    ||| ext == "jsx"@
    ||| ext == "mjs"@
    ||| ext == "cjs"@
    ||| ext == "go"@
    ||| ext == "java"@
    ||| ext == "kt"@
    ||| ext == "kts"@
    ||| ext == "c"@
    ||| ext == "cc"@
    ||| ext == "cpp"@
    ||| ext == "cxx"@
    ||| ext == "h"@
    ||| ext == "hpp"@
    ||| ext == "cs"@
    ||| ext == "rb"@
    ||| ext == "swift"@
    ||| ext == "scala"@
    ||| ext == "php"@
    ||| ext == "zig"@
}

/// The path of a file of code, by its ending.
pub open spec fn code_path(path: Seq<char>) -> bool {
    let p = normalized(path);
    let dot = last_index(p, '.');
    dot >= 0 && code_ending(lower(p.skip(dot + 1)))
}

fn is_code_ending(e: &str) -> (r: bool)
    ensures
        r == code_ending(e@),
{
    same(e, "rs") || same(e, "py") || same(e, "ts") || same(e, "tsx") || same(e, "js") || same(
        e,
        "jsx",
    ) || same(e, "mjs") || same(e, "cjs") || same(e, "go") || same(e, "java") || same(e, "kt")
        || same(e, "kts") || same(e, "c") || same(e, "cc") || same(e, "cpp") || same(e, "cxx")
        || same(e, "h") || same(e, "hpp") || same(e, "cs") || same(e, "rb") || same(e, "swift")
        || same(e, "scala") || same(e, "php") || same(e, "zig")
}

/// Whether a path is that of a file of code.
pub fn is_code_path(path: &str) -> (r: bool)
    ensures
        r == code_path(path@),
{
    let p = normalize_path(path);
    let cs = chars_of(p.as_str());
    match rfind_char(&cs, '.') {
        Some(dot) => {
            let ext = string_of(&cs, dot + 1, cs.len());
            assert(ext@ =~= p@.skip(dot + 1));
            is_code_ending(crate::text::to_lower(ext.as_str()).as_str())
        },
        None => false,
    }
}

// ---------------------------------------------------------------------------
// Laws
// ---------------------------------------------------------------------------

/// White space around a path, `./` before it and the way its slashes lean make no
/// difference, and a path without any of these stays as it is.
pub proof fn law_one_path_has_one_form(p: Seq<char>, a: Seq<char>, b: Seq<char>)
    requires
        p.len() > 0,
        !crate::text::white(p[0]) && !crate::text::white(p.last()),
        forall|i: int| 0 <= i < a.len() ==> crate::text::white(#[trigger] a[i]),
        forall|i: int| 0 <= i < b.len() ==> crate::text::white(#[trigger] b[i]),
    ensures
        normalized(a + p + b) == normalized(p),
        normalized(seq!['.', '/'] + p) == normalized(p),
        !normalized(p).contains('\\'),
        !p.contains('\\') && (p[0] != '.' || p.len() == 1 || p[1] != '/') ==> normalized(p) == p,
        !p.contains('\\') ==> normalized(with_char(p, '/', '\\')) == with_char(
            with_char(p, '/', '\\'),
            '\\',
            '/',
        ),
{
    let e = Seq::<char>::empty();
    crate::text::law_trimming_takes_the_ends(a, p, b);
    crate::text::law_trimming_takes_the_ends(e, p, e);
    assert(e + p + e =~= p);
    let q = seq!['.', '/'] + p;
    crate::text::law_trimming_takes_the_ends(e, q, e);
    assert(e + q + e =~= q);
    assert(q.skip(2) =~= p);
    let w = with_char(without_dots(p), '\\', '/');
    assert(!w.contains('\\'));
    if !p.contains('\\') {
        assert forall|i: int| 0 <= i < p.len() implies p[i] != '\\' by {
            assert(p.contains(p[i]));
        }
        assert(with_char(p, '\\', '/') =~= p);
        let r = with_char(p, '/', '\\');
        assert(r.len() == p.len());
        assert(!crate::text::white('/') && !crate::text::white('\\'));
        assert(r[0] == p[0] || p[0] == '/');
        assert(r.last() == p.last() || p.last() == '/');
        crate::text::law_trimming_takes_the_ends(e, r, e);
        assert(e + r + e =~= r);
        assert(without_dots(r) =~= r);
    }
}

/// A file is one of code by the ending behind its last point, in letters of any case, and
/// by nothing else.
pub proof fn law_code_is_known_by_its_ending(stem: Seq<char>, ext: Seq<char>, p: Seq<char>)
    requires
        !ext.contains('.'),
        p == stem.push('.') + ext,
        normalized(p) == p,
    ensures
        code_path(p) <==> seq![
            "rs"@,
            "py"@,
            "ts"@,
            "tsx"@,
            "js"@,
            "jsx"@,
            "mjs"@,
            "cjs"@,
            "go"@,
            "java"@,
            "kt"@,
            "kts"@,
            "c"@,
            "cc"@,
            "cpp"@,
            "cxx"@,
            "h"@,
            "hpp"@,
            "cs"@,
            "rb"@,
            "swift"@,
            "scala"@,
            "php"@,
            "zig"@,
        ].contains(lower(ext)),
{
    lemma_last_index_at(stem, '.', ext);
    assert(p.skip((stem.len() + 1) as int) =~= ext);
    let all = seq![
        "rs"@,
        "py"@,
        "ts"@,
        "tsx"@,
        "js"@,
        "jsx"@,
        "mjs"@,
        "cjs"@,
        "go"@,
        "java"@,
        "kt"@,
        "kts"@,
        "c"@,
        "cc"@,
        "cpp"@,
        "cxx"@,
        "h"@,
        "hpp"@,
        "cs"@,
        "rb"@,
        "swift"@,
        "scala"@,
        "php"@,
        "zig"@,
    ];
    let l = lower(ext);
    assert(all[0] == "rs"@);
    assert(all[1] == "py"@);
    assert(all[2] == "ts"@);
    assert(all[3] == "tsx"@);
    assert(all[4] == "js"@);
    assert(all[5] == "jsx"@);
    assert(all[6] == "mjs"@);
    assert(all[7] == "cjs"@);
    assert(all[8] == "go"@);
    assert(all[9] == "java"@);
    assert(all[10] == "kt"@);
    assert(all[11] == "kts"@);
    assert(all[12] == "c"@);
    assert(all[13] == "cc"@);
    assert(all[14] == "cpp"@);
    assert(all[15] == "cxx"@);
    assert(all[16] == "h"@);
    assert(all[17] == "hpp"@);
    assert(all[18] == "cs"@);
    assert(all[19] == "rb"@);
    assert(all[20] == "swift"@);
    assert(all[21] == "scala"@);
    assert(all[22] == "php"@);
    assert(all[23] == "zig"@);
}

/// A file without a point in its path is no code.
pub proof fn law_no_ending_no_code(p: Seq<char>)
    requires
        !normalized(p).contains('.'),
    ensures
        !code_path(p),
{
    let n = normalized(p);
    lemma_last_index_none(n, '.');
}

pub proof fn lemma_last_index_none(s: Seq<char>, c: char)
    requires
        !s.contains(c),
    ensures
        last_index(s, c) == -1,
    decreases s.len(),
{
    if s.len() > 0 {
        assert(s.contains(s.last()));
        let t = s.drop_last();
        if t.contains(c) {
            let i = choose|i: int| 0 <= i < t.len() && t[i] == c;
            assert(s[i] == c);
        }
        lemma_last_index_none(t, c);
    }
}

pub proof fn lemma_last_index_at(a: Seq<char>, c: char, b: Seq<char>)
    requires
        !b.contains(c),
    ensures
        last_index(a.push(c) + b, c) == a.len(),
    decreases b.len(),
{
    let s = a.push(c) + b;
    if b.len() == 0 {
        assert(s =~= a.push(c));
    } else {
        assert(b.contains(b.last()));
        assert(s.last() == b.last());
        let t = b.drop_last();
        if t.contains(c) {
            let i = choose|i: int| 0 <= i < t.len() && t[i] == c;
            assert(b[i] == c);
        }
        lemma_last_index_at(a, c, t);
        assert(s.drop_last() =~= a.push(c) + t);
    }
}

/// A path is that of a test where one of its directories is one of tests, or its file is
/// named like a test.
pub proof fn law_tests_are_known_by_their_path(dir: Seq<char>, rest: Seq<char>, file: Seq<char>)
    requires
        !dir.contains('/'),
        !file.contains('/'),
    ensures
        lower_test_path(dir.push('/') + rest) <==> dir == "tests"@ || dir == "test"@ || dir
            == "__tests__"@ || lower_test_path(rest),
        lower_test_path(file) <==> has_prefix(file, "test_"@) || holds(file, "_test."@) || holds(
            file,
            ".test."@,
        ) || holds(file, ".spec."@) || has_suffix(file, "_tests.rs"@),
{
    crate::text::law_cut_at_a_character(dir, '/', rest);
    crate::text::law_cut_at_a_character(file, '/', rest);
    crate::text::lemma_split_nonempty(rest, '/');
    let p = split_at_char(rest, '/');
    let q = split_at_char(dir.push('/') + rest, '/');
    assert(q.last() == p.last());
    assert(q[0] == dir);
    assert forall|i: int| 0 <= i < p.len() implies q[i + 1] == #[trigger] p[i] by {}
    if exists|i: int| 0 <= i < p.len() - 1 && test_dir(#[trigger] p[i]) {
        let i = choose|i: int| 0 <= i < p.len() - 1 && test_dir(#[trigger] p[i]);
        assert(test_dir(q[i + 1]));
    }
    if exists|i: int| 0 <= i < q.len() - 1 && test_dir(#[trigger] q[i]) {
        let i = choose|i: int| 0 <= i < q.len() - 1 && test_dir(#[trigger] q[i]);
        if i > 0 {
            assert(test_dir(p[i - 1]));
        }
    }
    if test_dir(dir) {
        assert(test_dir(q[0]));
    }
}

} // verus!
