//! Text as sequences of characters: searching, trimming, splitting, casing and
//! decimal numbers.

use vstd::prelude::*;
use vstd::utf8::{encode_scalar, encode_utf8};

verus! {

/// `String::push` appends one character.
pub assume_specification[ String::push ](s: &mut String, c: char)
    ensures
        final(s)@ == old(s)@.push(c),
;

// ---------------------------------------------------------------------------
// Characters
// ---------------------------------------------------------------------------

/// The characters with the Unicode property `White_Space`.
pub open spec fn white(c: char) -> bool {
    let n = c as int;
    ||| 9 <= n <= 13
    ||| n == 0x20
    ||| n == 0x85
    ||| n == 0xA0
    ||| n == 0x1680
    ||| 0x2000 <= n <= 0x200A
    ||| n == 0x2028
    ||| n == 0x2029
    ||| n == 0x202F
    ||| n == 0x205F
    ||| n == 0x3000
}

/// Whether `c` is white space.
pub fn is_white(c: char) -> (r: bool)
    ensures
        r == white(c),
{
    let n: u32 = c as u32;
    (9 <= n && n <= 13) || n == 0x20 || n == 0x85 || n == 0xA0 || n == 0x1680 || (0x2000 <= n && n
        <= 0x200A) || n == 0x2028 || n == 0x2029 || n == 0x202F || n == 0x205F || n == 0x3000
}

pub open spec fn digit(c: char) -> bool {
    '0' <= c <= '9'
}

pub fn is_digit(c: char) -> (r: bool)
    ensures
        r == digit(c),
{
    '0' <= c && c <= '9'
}

pub open spec fn letter(c: char) -> bool {
    'a' <= c <= 'z' || 'A' <= c <= 'Z'
}

pub fn is_letter(c: char) -> (r: bool)
    ensures
        r == letter(c),
{
    ('a' <= c && c <= 'z') || ('A' <= c && c <= 'Z')
}

pub open spec fn lower_char(c: char) -> char {
    if 'A' <= c <= 'Z' {
        ((c as u8) + 32) as u8 as char
    } else {
        c
    }
}

pub fn to_lower_char(c: char) -> (r: char)
    ensures
        r == lower_char(c),
{
    if 'A' <= c && c <= 'Z' {
        ((c as u8) + 32) as char
    } else {
        c
    }
}

pub open spec fn ascii(c: char) -> bool {
    c as int <= 0x7F
}

// ---------------------------------------------------------------------------
// Reading a text as characters
// ---------------------------------------------------------------------------

/// The characters of `s`, in order.
pub fn chars_of(s: &str) -> (r: Vec<char>)
    ensures
        r@ == s@,
{
    let mut out: Vec<char> = Vec::new();
    for c in it: s.chars()
        invariant
            it.seq() == s@,
            out@ == s@.take(it.index() as int),
    {
        out.push(c);
    }
    assert(s@.take(s@.len() as int) == s@);
    out
}

/// The text made of `cs[from..to]`.
pub fn string_of(cs: &Vec<char>, from: usize, to: usize) -> (r: String)
    requires
        from <= to <= cs@.len(),
    ensures
        r@ == cs@.subrange(from as int, to as int),
{
    let mut out: String = String::new();
    let mut i: usize = from;
    while i < to
        invariant
            from <= i <= to <= cs@.len(),
            out@ == cs@.subrange(from as int, i as int),
        decreases to - i,
    {
        out.push(cs[i]);
        i = i + 1;
        assert(cs@.subrange(from as int, i as int) == cs@.subrange(from as int, i - 1).push(
            cs@[i - 1],
        ));
    }
    out
}

/// Whether two texts are equal.
pub fn same(a: &str, b: &str) -> (r: bool)
    ensures
        r == (a@ == b@),
{
    a.to_owned() == b.to_owned()
}

/// The first `n` characters of a text, all where it has fewer.
pub open spec fn clipped(s: Seq<char>, n: nat) -> Seq<char> {
    if s.len() <= n {
        s
    } else {
        s.take(n as int)
    }
}

/// The first `n` characters of a text.
pub fn clip(s: &str, n: usize) -> (r: String)
    ensures
        r@ == clipped(s@, n as nat),
{
    let len: usize = s.unicode_len();
    if len <= n {
        s.to_owned()
    } else {
        assert(s@.subrange(0, n as int) =~= s@.take(n as int));
        s.substring_char(0, n).to_owned()
    }
}

/// The text without the `c` at its end, however often it stands there.
pub open spec fn without_trailing(s: Seq<char>, c: char) -> Seq<char>
    decreases s.len(),
{
    if s.len() > 0 && s.last() == c {
        without_trailing(s.drop_last(), c)
    } else {
        s
    }
}

/// The text without the `c` at its end, however often it stands there.
pub fn strip_trailing(s: &str, c: char) -> (r: String)
    ensures
        r@ == without_trailing(s@, c),
{
    let cs = chars_of(s);
    let mut n: usize = cs.len();
    assert(cs@.subrange(0, n as int) =~= s@);
    while n > 0 && cs[n - 1] == c
        invariant
            n <= cs@.len(),
            without_trailing(s@, c) == without_trailing(cs@.subrange(0, n as int), c),
        decreases n,
    {
        assert(cs@.subrange(0, n as int).drop_last() =~= cs@.subrange(0, n - 1));
        n = n - 1;
    }
    string_of(&cs, 0, n)
}

/// Two texts, one after the other.
pub fn text2(a: &str, b: &str) -> (r: String)
    ensures
        r@ == a@ + b@,
{
    let mut out: String = a.to_owned();
    out.append(b);
    out
}

/// Three texts, one after the other.
pub fn text3(a: &str, b: &str, c: &str) -> (r: String)
    ensures
        r@ == a@ + b@ + c@,
{
    let mut out: String = a.to_owned();
    out.append(b);
    out.append(c);
    out
}

/// Four texts, one after the other.
pub fn text4(a: &str, b: &str, c: &str, d: &str) -> (r: String)
    ensures
        r@ == a@ + b@ + c@ + d@,
{
    let mut out: String = text3(a, b, c);
    out.append(d);
    out
}

// ---------------------------------------------------------------------------
// Ordering
// ---------------------------------------------------------------------------

/// `a` stands at or before `b` in the order of texts.
pub open spec fn sorted_before(a: Seq<char>, b: Seq<char>) -> bool
    decreases a.len(),
{
    if a.len() == 0 {
        true
    } else if b.len() == 0 {
        false
    } else if a[0] != b[0] {
        a[0] < b[0]
    } else {
        sorted_before(a.skip(1), b.skip(1))
    }
}

/// The order of texts is total, and two texts that stand before each other are one.
pub proof fn lemma_sorted_total(a: Seq<char>, b: Seq<char>)
    ensures
        sorted_before(a, b) || sorted_before(b, a),
        sorted_before(a, b) && sorted_before(b, a) ==> a == b,
    decreases a.len(),
{
    if a.len() > 0 && b.len() > 0 && a[0] == b[0] {
        lemma_sorted_total(a.skip(1), b.skip(1));
        if a.skip(1) == b.skip(1) {
            assert(a =~= seq![a[0]] + a.skip(1));
            assert(b =~= seq![b[0]] + b.skip(1));
        }
    } else if a.len() == 0 && b.len() == 0 {
        assert(a =~= b);
    }
}

pub proof fn lemma_sorted_trans(a: Seq<char>, b: Seq<char>, c: Seq<char>)
    requires
        sorted_before(a, b),
        sorted_before(b, c),
    ensures
        sorted_before(a, c),
    decreases a.len(),
{
    if a.len() > 0 && b.len() > 0 && c.len() > 0 && a[0] == b[0] && b[0] == c[0] {
        lemma_sorted_trans(a.skip(1), b.skip(1), c.skip(1));
    }
}

/// Whether `a` stands at or before `b` in the order of texts.
pub fn is_sorted_before(a: &str, b: &str) -> (r: bool)
    ensures
        r == sorted_before(a@, b@),
{
    let x = chars_of(a);
    let y = chars_of(b);
    let mut i: usize = 0;
    assert(x@.skip(0) =~= a@ && y@.skip(0) =~= b@);
    loop
        invariant
            i <= x@.len(),
            i <= y@.len(),
            sorted_before(a@, b@) == sorted_before(x@.skip(i as int), y@.skip(i as int)),
        decreases x.len() - i,
    {
        if i == x.len() {
            return true;
        }
        if i == y.len() {
            return false;
        }
        if x[i] != y[i] {
            return x[i] < y[i];
        }
        assert(x@.skip(i as int).skip(1) =~= x@.skip(i + 1));
        assert(y@.skip(i as int).skip(1) =~= y@.skip(i + 1));
        i = i + 1;
    }
}

// ---------------------------------------------------------------------------
// Searching
// ---------------------------------------------------------------------------

/// `pat` stands in `s` at index `i`.
pub open spec fn at(s: Seq<char>, pat: Seq<char>, i: int) -> bool {
    0 <= i && i + pat.len() <= s.len() && s.subrange(i, i + pat.len()) == pat
}

/// `pat` stands somewhere in `s`.
pub open spec fn holds(s: Seq<char>, pat: Seq<char>) -> bool {
    exists|i: int| at(s, pat, i)
}

pub open spec fn has_prefix(s: Seq<char>, pat: Seq<char>) -> bool {
    at(s, pat, 0)
}

pub open spec fn has_suffix(s: Seq<char>, pat: Seq<char>) -> bool {
    at(s, pat, s.len() - pat.len())
}

/// The first index, not below `from`, at which `pat` stands in `s`.
pub open spec fn find_from(s: Seq<char>, pat: Seq<char>, from: int) -> Option<int>
    decreases s.len() - from + 1,
{
    if from < 0 || from + pat.len() > s.len() {
        None
    } else if at(s, pat, from) {
        Some(from)
    } else {
        find_from(s, pat, from + 1)
    }
}

pub open spec fn find(s: Seq<char>, pat: Seq<char>) -> Option<int> {
    find_from(s, pat, 0)
}

/// What `find_from` finds is the first place, and it finds one where there is one.
pub proof fn lemma_find_from(s: Seq<char>, pat: Seq<char>, from: int)
    requires
        0 <= from,
    ensures
        find_from(s, pat, from) matches Some(i) ==> from <= i && at(s, pat, i) && forall|j: int|
            from <= j < i ==> !at(s, pat, j),
        find_from(s, pat, from) is None ==> forall|j: int| from <= j ==> !at(s, pat, j),
    decreases s.len() - from + 1,
{
    if from + pat.len() <= s.len() && !at(s, pat, from) {
        lemma_find_from(s, pat, from + 1);
    }
}

/// A text holds `pat` exactly where the search finds it.
pub proof fn lemma_find_has(s: Seq<char>, pat: Seq<char>)
    ensures
        find(s, pat) is Some <==> holds(s, pat),
{
    lemma_find_from(s, pat, 0);
    if find(s, pat) is Some {
        assert(at(s, pat, find(s, pat)->0));
    }
}

/// Whether `pat` stands in `s` at index `i`.
pub fn stands_at(s: &Vec<char>, pat: &Vec<char>, i: usize) -> (r: bool)
    ensures
        r == at(s@, pat@, i as int),
{
    if i > s.len() || pat.len() > s.len() - i {
        return false;
    }
    let mut k: usize = 0;
    while k < pat.len()
        invariant
            k <= pat@.len(),
            i + pat.len() <= s.len(),
            forall|j: int| 0 <= j < k ==> s@[i + j] == pat@[j],
        decreases pat.len() - k,
    {
        if s[i + k] != pat[k] {
            assert(s@.subrange(i as int, i + pat@.len())[k as int] != pat@[k as int]);
            return false;
        }
        k = k + 1;
    }
    assert(s@.subrange(i as int, i + pat@.len()) =~= pat@);
    true
}

/// The first index, not below `from`, at which `pat` stands in `s`.
pub fn search(s: &Vec<char>, pat: &Vec<char>, from: usize) -> (r: Option<usize>)
    ensures
        r is Some <==> find_from(s@, pat@, from as int) is Some,
        r matches Some(i) ==> find_from(s@, pat@, from as int) == Some(i as int),
        r matches Some(i) ==> from <= i && i + pat@.len() <= s.len(),
{
    if from > s.len() || pat.len() > s.len() - from {
        return None;
    }
    let last: usize = s.len() - pat.len();
    let mut i: usize = from;
    while i < last
        invariant
            from <= i <= last,
            last == s@.len() - pat@.len(),
            find_from(s@, pat@, from as int) == find_from(s@, pat@, i as int),
        decreases last - i,
    {
        if stands_at(s, pat, i) {
            return Some(i);
        }
        i = i + 1;
    }
    if stands_at(s, pat, last) {
        Some(last)
    } else {
        assert(find_from(s@, pat@, last + 1) is None);
        None
    }
}

/// The first index of `pat` in `s`.
pub fn index_of(s: &str, pat: &str) -> (r: Option<usize>)
    ensures
        r is Some <==> find(s@, pat@) is Some,
        r matches Some(i) ==> find(s@, pat@) == Some(i as int) && i + pat@.len() <= s@.len(),
{
    search(&chars_of(s), &chars_of(pat), 0)
}

/// Whether `s` holds `pat`.
pub fn contains(s: &str, pat: &str) -> (r: bool)
    ensures
        r == holds(s@, pat@),
{
    proof {
        lemma_find_has(s@, pat@);
    }
    index_of(s, pat).is_some()
}

/// Whether the characters hold `pat`.
pub fn in_chars(cs: &Vec<char>, pat: &str) -> (r: bool)
    ensures
        r == holds(cs@, pat@),
{
    proof {
        lemma_find_has(cs@, pat@);
    }
    search(cs, &chars_of(pat), 0).is_some()
}

/// `s` with every `a` made a `b`.
pub open spec fn with_char(s: Seq<char>, a: char, b: char) -> Seq<char> {
    s.map_values(
        |c: char|
            if c == a {
                b
            } else {
                c
            },
    )
}

/// `s` with every `a` made a `b`.
pub fn replace_char(s: &str, a: char, b: char) -> (r: String)
    ensures
        r@ == with_char(s@, a, b),
{
    let cs = chars_of(s);
    let mut out: String = String::new();
    let mut i: usize = 0;
    while i < cs.len()
        invariant
            i <= cs@.len(),
            out@ == with_char(cs@.take(i as int), a, b),
        decreases cs.len() - i,
    {
        let c = if cs[i] == a {
            b
        } else {
            cs[i]
        };
        out.push(c);
        assert(with_char(cs@.take(i + 1), a, b) =~= with_char(cs@.take(i as int), a, b).push(c));
        i = i + 1;
    }
    assert(cs@.take(i as int) =~= s@);
    out
}

pub fn starts_with(s: &str, pat: &str) -> (r: bool)
    ensures
        r == has_prefix(s@, pat@),
{
    stands_at(&chars_of(s), &chars_of(pat), 0)
}

pub fn ends_with(s: &str, pat: &str) -> (r: bool)
    ensures
        r == has_suffix(s@, pat@),
{
    let cs = chars_of(s);
    let ps = chars_of(pat);
    if ps.len() > cs.len() {
        return false;
    }
    stands_at(&cs, &ps, cs.len() - ps.len())
}

/// The text after `pat`, where `s` starts with it.
pub open spec fn strip_prefix_of(s: Seq<char>, pat: Seq<char>) -> Option<Seq<char>> {
    if has_prefix(s, pat) {
        Some(s.skip(pat.len() as int))
    } else {
        None
    }
}

pub fn strip_prefix(s: &str, pat: &str) -> (r: Option<String>)
    ensures
        r is Some <==> has_prefix(s@, pat@),
        r matches Some(t) ==> t@ == s@.skip(pat@.len() as int),
{
    if starts_with(s, pat) {
        let n: usize = s.unicode_len();
        let k: usize = pat.unicode_len();
        Some(s.substring_char(k, n).to_owned())
    } else {
        None
    }
}

// ---------------------------------------------------------------------------
// Trimming
// ---------------------------------------------------------------------------

pub open spec fn trim_start_of(s: Seq<char>) -> Seq<char>
    decreases s.len(),
{
    if s.len() > 0 && white(s[0]) {
        trim_start_of(s.skip(1))
    } else {
        s
    }
}

pub open spec fn trim_end_of(s: Seq<char>) -> Seq<char>
    decreases s.len(),
{
    if s.len() > 0 && white(s.last()) {
        trim_end_of(s.drop_last())
    } else {
        s
    }
}

/// `s` without the white space at both ends.
pub open spec fn trimmed(s: Seq<char>) -> Seq<char> {
    trim_end_of(trim_start_of(s))
}

/// A text of white space alone.
pub open spec fn blank(s: Seq<char>) -> bool {
    trimmed(s).len() == 0
}

/// A text trims to nothing exactly where every character is white space.
pub proof fn lemma_blank(s: Seq<char>)
    ensures
        blank(s) <==> forall|i: int| 0 <= i < s.len() ==> white(#[trigger] s[i]),
{
    lemma_trim_start(s);
    lemma_trim_end(trim_start_of(s));
    let a = trim_start_of(s);
    if blank(s) && a.len() > 0 {
        assert(white(a[0]));
    }
    if forall|i: int| 0 <= i < s.len() ==> white(#[trigger] s[i]) {
        if a.len() > 0 {
            assert(a[0] == s[s.len() - a.len()]);
        }
    }
}

pub proof fn lemma_trim_start(s: Seq<char>)
    ensures
        trim_start_of(s).len() <= s.len(),
        trim_start_of(s) == s.skip(s.len() - trim_start_of(s).len()),
        trim_start_of(s).len() > 0 ==> !white(trim_start_of(s)[0]),
        forall|i: int| 0 <= i < s.len() - trim_start_of(s).len() ==> white(#[trigger] s[i]),
    decreases s.len(),
{
    if s.len() > 0 && white(s[0]) {
        let t = s.skip(1);
        lemma_trim_start(t);
        let n = trim_start_of(t).len();
        assert(t.skip(t.len() - n) =~= s.skip(s.len() - n));
        assert forall|i: int| 0 <= i < s.len() - n implies white(#[trigger] s[i]) by {
            if i > 0 {
                assert(t[i - 1] == s[i]);
            }
        }
    } else {
        assert(s.skip(0) =~= s);
    }
}

pub proof fn lemma_trim_end(s: Seq<char>)
    ensures
        trim_end_of(s).len() <= s.len(),
        trim_end_of(s) == s.take(trim_end_of(s).len() as int),
        trim_end_of(s).len() > 0 ==> !white(trim_end_of(s).last()),
        forall|i: int| trim_end_of(s).len() <= i < s.len() ==> white(#[trigger] s[i]),
    decreases s.len(),
{
    if s.len() > 0 && white(s.last()) {
        let t = s.drop_last();
        lemma_trim_end(t);
        let n = trim_end_of(t).len();
        assert(t.take(n as int) =~= s.take(n as int));
        assert forall|i: int| n <= i < s.len() implies white(#[trigger] s[i]) by {
            if i < t.len() {
                assert(t[i] == s[i]);
            }
        }
    } else {
        assert(s.take(s.len() as int) =~= s);
    }
}

/// The bounds that trimming leaves of `cs[from..to]`.
pub fn trim_bounds(cs: &Vec<char>, from: usize, to: usize) -> (r: (usize, usize))
    requires
        from <= to <= cs@.len(),
    ensures
        from <= r.0 <= r.1 <= to,
        cs@.subrange(r.0 as int, r.1 as int) == trimmed(cs@.subrange(from as int, to as int)),
{
    let ghost whole = cs@.subrange(from as int, to as int);
    let mut a: usize = from;
    while a < to && is_white(cs[a])
        invariant
            from <= a <= to <= cs@.len(),
            trim_start_of(whole) == trim_start_of(cs@.subrange(a as int, to as int)),
        decreases to - a,
    {
        assert(cs@.subrange(a as int, to as int).skip(1) =~= cs@.subrange(a + 1, to as int));
        a = a + 1;
    }
    let ghost left = cs@.subrange(a as int, to as int);
    assert(trim_start_of(whole) == left);
    let mut b: usize = to;
    while b > a && is_white(cs[b - 1])
        invariant
            a <= b <= to <= cs@.len(),
            trim_end_of(left) == trim_end_of(cs@.subrange(a as int, b as int)),
        decreases b - a,
    {
        assert(cs@.subrange(a as int, b as int).drop_last() =~= cs@.subrange(a as int, b - 1));
        b = b - 1;
    }
    (a, b)
}

/// `s` without the white space at both ends.
pub fn trim(s: &str) -> (r: String)
    ensures
        r@ == trimmed(s@),
{
    let cs = chars_of(s);
    let (a, b) = trim_bounds(&cs, 0, cs.len());
    assert(cs@.subrange(0, cs@.len() as int) =~= s@);
    string_of(&cs, a, b)
}

/// Whether `s` is white space alone.
pub fn is_blank(s: &str) -> (r: bool)
    ensures
        r == blank(s@),
{
    let t = trim(s);
    t.as_str().is_empty()
}

// ---------------------------------------------------------------------------
// Casing
// ---------------------------------------------------------------------------

/// `s` with the ASCII capitals made small.
pub open spec fn lower(s: Seq<char>) -> Seq<char> {
    s.map_values(|c: char| lower_char(c))
}

pub fn to_lower(s: &str) -> (r: String)
    ensures
        r@ == lower(s@),
{
    let cs = chars_of(s);
    let mut out: String = String::new();
    let mut i: usize = 0;
    while i < cs.len()
        invariant
            i <= cs@.len(),
            out@ == lower(cs@.take(i as int)),
        decreases cs.len() - i,
    {
        out.push(to_lower_char(cs[i]));
        i = i + 1;
        assert(lower(cs@.take(i as int)) =~= lower(cs@.take(i - 1)).push(lower_char(cs@[i - 1])));
    }
    assert(cs@.take(cs@.len() as int) =~= s@);
    out
}

/// Equality that does not tell ASCII capitals from small letters.
pub fn same_ignoring_case(a: &str, b: &str) -> (r: bool)
    ensures
        r == (lower(a@) == lower(b@)),
{
    to_lower(a) == to_lower(b)
}

// ---------------------------------------------------------------------------
// Splitting and joining
// ---------------------------------------------------------------------------

/// The contents of a list of texts.
pub open spec fn texts(v: Seq<String>) -> Seq<Seq<char>> {
    v.map_values(|s: String| s@)
}

/// `s` cut at every `sep`.
pub open spec fn split_at_char(s: Seq<char>, sep: char) -> Seq<Seq<char>>
    decreases s.len(),
{
    if s.len() == 0 {
        seq![Seq::<char>::empty()]
    } else {
        let before = split_at_char(s.drop_last(), sep);
        if s.last() == sep {
            before.push(Seq::<char>::empty())
        } else {
            before.drop_last().push(before.last().push(s.last()))
        }
    }
}

pub proof fn lemma_split_nonempty(s: Seq<char>, sep: char)
    ensures
        split_at_char(s, sep).len() > 0,
    decreases s.len(),
{
    if s.len() > 0 {
        lemma_split_nonempty(s.drop_last(), sep);
    }
}

/// `s` cut at every `sep`.
pub fn split(s: &str, sep: char) -> (r: Vec<String>)
    ensures
        texts(r@) == split_at_char(s@, sep),
        r@.len() > 0,
{
    let cs = chars_of(s);
    let mut out: Vec<String> = Vec::new();
    let mut cur: String = String::new();
    let mut i: usize = 0;
    assert(texts(out@).push(cur@) =~= split_at_char(cs@.take(0), sep));
    while i < cs.len()
        invariant
            i <= cs@.len(),
            texts(out@).push(cur@) == split_at_char(cs@.take(i as int), sep),
        decreases cs.len() - i,
    {
        let ghost before = texts(out@).push(cur@);
        let c = cs[i];
        i = i + 1;
        assert(cs@.take(i as int).drop_last() =~= cs@.take(i - 1));
        assert(cs@.take(i as int).last() == c);
        if c == sep {
            out.push(cur);
            cur = String::new();
            assert(texts(out@) =~= before);
        } else {
            cur.push(c);
            assert(before.drop_last() =~= texts(out@));
        }
    }
    let ghost before = texts(out@).push(cur@);
    out.push(cur);
    assert(texts(out@) =~= before);
    assert(cs@.take(cs@.len() as int) =~= s@);
    out
}

/// A line without the carriage return before its line feed.
pub open spec fn without_cr(s: Seq<char>) -> Seq<char> {
    if s.len() > 0 && s.last() == '\r' {
        s.drop_last()
    } else {
        s
    }
}

/// The lines of `s`; a line feed at the very end starts no further line.
pub open spec fn lines_of(s: Seq<char>) -> Seq<Seq<char>> {
    let parts = split_at_char(s, '\n');
    let last = (parts.len() - 1) as nat;
    let full = Seq::new(last, |i: int| without_cr(parts[i]));
    if parts.last().len() == 0 {
        full
    } else {
        full.push(parts.last())
    }
}

/// The lines of `s`.
pub fn lines(s: &str) -> (r: Vec<String>)
    ensures
        texts(r@) == lines_of(s@),
{
    let parts = split(s, '\n');
    let ghost sp = split_at_char(s@, '\n');
    let last: usize = parts.len() - 1;
    let mut out: Vec<String> = Vec::new();
    let mut i: usize = 0;
    while i < last
        invariant
            i <= last == parts@.len() - 1,
            texts(parts@) == sp,
            out@.len() == i,
            forall|j: int| 0 <= j < i ==> #[trigger] out@[j]@ == without_cr(sp[j]),
        decreases last - i,
    {
        let cs = chars_of(parts[i].as_str());
        assert(parts@[i as int]@ == sp[i as int]) by {
            assert(texts(parts@)[i as int] == parts@[i as int]@);
        }
        if cs.len() > 0 && cs[cs.len() - 1] == '\r' {
            out.push(string_of(&cs, 0, cs.len() - 1));
            assert(cs@.subrange(0, cs@.len() - 1) =~= cs@.drop_last());
        } else {
            out.push(string_of(&cs, 0, cs.len()));
            assert(cs@.subrange(0, cs@.len() as int) =~= cs@);
        }
        i = i + 1;
    }
    assert(parts@[last as int]@ == sp.last()) by {
        assert(texts(parts@)[last as int] == parts@[last as int]@);
    }
    if !parts[last].as_str().is_empty() {
        out.push(parts[last].clone());
    }
    assert(texts(out@) =~= lines_of(s@));
    out
}

/// The texts in order, with `sep` between neighbours.
pub open spec fn joined(parts: Seq<Seq<char>>, sep: Seq<char>) -> Seq<char>
    decreases parts.len(),
{
    if parts.len() == 0 {
        Seq::empty()
    } else if parts.len() == 1 {
        parts[0]
    } else {
        joined(parts.drop_last(), sep) + sep + parts.last()
    }
}

/// The texts in order, with `sep` between neighbours.
pub fn join(parts: &Vec<String>, sep: &str) -> (r: String)
    ensures
        r@ == joined(texts(parts@), sep@),
{
    let mut out: String = String::new();
    let ghost all = texts(parts@);
    let mut i: usize = 0;
    while i < parts.len()
        invariant
            i <= parts@.len(),
            all == texts(parts@),
            out@ == joined(all.take(i as int), sep@),
        decreases parts.len() - i,
    {
        if i > 0 {
            out.append(sep);
        }
        out.append(parts[i].as_str());
        i = i + 1;
        assert(all.take(i as int).drop_last() =~= all.take(i - 1));
        assert(all[i - 1] == parts@[i - 1]@);
        if i == 1 {
            assert(joined(all.take(0), sep@) =~= Seq::<char>::empty());
            assert(out@ =~= all[0]);
        }
    }
    assert(all.take(all.len() as int) =~= all);
    out
}

/// A copy of a list of texts.
pub fn clone_texts(v: &Vec<String>) -> (r: Vec<String>)
    ensures
        texts(r@) == texts(v@),
        r@ == v@,
{
    let mut out: Vec<String> = Vec::new();
    let mut i: usize = 0;
    while i < v.len()
        invariant
            i <= v@.len(),
            out@ =~= v@.take(i as int),
        decreases v.len() - i,
    {
        out.push(v[i].clone());
        i = i + 1;
    }
    assert(out@ =~= v@);
    out
}

/// Whether a list of texts holds `s`.
pub fn list_has(v: &Vec<String>, s: &str) -> (r: bool)
    ensures
        r == texts(v@).contains(s@),
{
    let mut i: usize = 0;
    while i < v.len()
        invariant
            i <= v@.len(),
            forall|j: int| 0 <= j < i ==> #[trigger] texts(v@)[j] != s@,
        decreases v.len() - i,
    {
        if same(v[i].as_str(), s) {
            assert(texts(v@)[i as int] == s@);
            return true;
        }
        i = i + 1;
    }
    false
}

// ---------------------------------------------------------------------------
// Bytes
// ---------------------------------------------------------------------------

/// The bytes of two texts, one after the other.
pub proof fn lemma_encode_concat(a: Seq<char>, b: Seq<char>)
    ensures
        encode_utf8(a + b) == encode_utf8(a) + encode_utf8(b),
    decreases a.len(),
{
    if a.len() == 0 {
        assert(a + b =~= b);
        assert(encode_utf8(a) + encode_utf8(b) =~= encode_utf8(b));
    } else {
        lemma_encode_concat(a.drop_first(), b);
        assert((a + b).drop_first() =~= a.drop_first() + b);
        assert((a + b)[0] == a[0]);
        assert(encode_utf8(a + b) =~= encode_utf8(a) + encode_utf8(b));
    }
}

/// How many bytes a character takes.
pub open spec fn width(c: char) -> nat {
    encode_scalar(c as u32).len()
}

/// How many bytes a character takes.
pub fn char_width(c: char) -> (r: usize)
    ensures
        r == width(c),
        1 <= r <= 4,
{
    let n: u32 = c as u32;
    if n <= 0x7F {
        1
    } else if n <= 0x7FF {
        2
    } else if n <= 0xFFFF {
        3
    } else {
        4
    }
}

/// How many characters from `i` on fit in `n` bytes.
pub open spec fn fitting(s: Seq<char>, i: int, n: int) -> nat
    decreases s.len() - i,
{
    if i < 0 || i >= s.len() || width(s[i]) > n {
        0
    } else {
        1 + fitting(s, i + 1, n - width(s[i]))
    }
}

/// The longest beginning of a text that fits in `n` bytes.
pub open spec fn clipped_bytes(s: Seq<char>, n: nat) -> Seq<char> {
    s.take(fitting(s, 0, n as int) as int)
}

/// The longest beginning of a text that fits in `n` bytes.
pub fn clip_bytes(s: &str, n: usize) -> (r: String)
    ensures
        r@ == clipped_bytes(s@, n as nat),
{
    let cs = chars_of(s);
    let mut left: usize = n;
    let mut i: usize = 0;
    while i < cs.len() && char_width(cs[i]) <= left
        invariant
            i <= cs@.len(),
            cs@ == s@,
            fitting(s@, 0, n as int) == i + fitting(s@, i as int, left as int),
        decreases cs.len() - i,
    {
        left = left - char_width(cs[i]);
        i = i + 1;
    }
    let out = string_of(&cs, 0, i);
    assert(out@ =~= clipped_bytes(s@, n as nat));
    out
}

proof fn lemma_fitting(s: Seq<char>, i: int, n: int)
    requires
        0 <= i <= s.len(),
        0 <= n,
    ensures
        i + fitting(s, i, n) <= s.len(),
        encode_utf8(s.subrange(i, i + fitting(s, i, n))).len() <= n,
    decreases s.len() - i,
{
    if i < s.len() && width(s[i]) <= n {
        let m = n - width(s[i]);
        lemma_fitting(s, i + 1, m);
        let k = fitting(s, i + 1, m);
        let rest = s.subrange(i + 1, i + 1 + k);
        let one = seq![s[i]];
        assert(s.subrange(i, i + 1 + k) =~= one + rest);
        lemma_encode_concat(one, rest);
        assert(one.drop_first() =~= Seq::<char>::empty());
        assert(encode_utf8(Seq::<char>::empty()) =~= Seq::<u8>::empty());
        assert(encode_utf8(one) =~= encode_scalar(s[i] as u32));
    } else {
        assert(s.subrange(i, i) =~= Seq::<char>::empty());
        assert(encode_utf8(Seq::<char>::empty()) =~= Seq::<u8>::empty());
    }
}

/// A clipped text fits.
pub proof fn law_clipped_bytes_fit(s: Seq<char>, n: nat)
    ensures
        encode_utf8(clipped_bytes(s, n)).len() <= n,
        clipped_bytes(s, n).is_prefix_of(s),
{
    lemma_fitting(s, 0, n as int);
    let k = fitting(s, 0, n as int) as int;
    assert(s.subrange(0, k) =~= s.take(k));
    assert(s.take(k).is_prefix_of(s));
}

// ---------------------------------------------------------------------------
// Decimal numbers
// ---------------------------------------------------------------------------

pub open spec fn digit_char(d: nat) -> char {
    (48 + d) as u8 as char
}

/// The decimal digits of `n`, most significant first.
pub open spec fn decimal(n: nat) -> Seq<char>
    decreases n,
{
    if n < 10 {
        seq![digit_char(n)]
    } else {
        decimal(n / 10).push(digit_char(n % 10))
    }
}

/// The number that a row of decimal digits writes.
pub open spec fn digits_value(s: Seq<char>) -> nat
    decreases s.len(),
{
    if s.len() == 0 {
        0
    } else {
        digits_value(s.drop_last()) * 10 + (s.last() as nat - 48) as nat
    }
}

/// A row of decimal digits, at least one.
pub open spec fn all_digits(s: Seq<char>) -> bool {
    s.len() > 0 && forall|i: int| 0 <= i < s.len() ==> digit(#[trigger] s[i])
}

pub fn show_u64(n: u64) -> (r: String)
    ensures
        r@ == decimal(n as nat),
    decreases n,
{
    let d: u8 = (n % 10) as u8;
    let c: char = (48 + d) as char;
    if n < 10 {
        let mut out: String = String::new();
        out.push(c);
        assert(out@ =~= decimal(n as nat));
        out
    } else {
        let mut out: String = show_u64(n / 10);
        out.push(c);
        out
    }
}

pub fn show_usize(n: usize) -> (r: String)
    ensures
        r@ == decimal(n as nat),
{
    show_u64(n as u64)
}

/// Reading a decimal number gives back the number written.
pub proof fn law_decimal_reads_back(n: nat)
    ensures
        all_digits(decimal(n)),
        digits_value(decimal(n)) == n,
    decreases n,
{
    let d = digit_char(n % 10);
    assert(digit(d) && d as nat == 48 + n % 10);
    if n >= 10 {
        law_decimal_reads_back(n / 10);
        assert(decimal(n).drop_last() =~= decimal(n / 10));
    } else {
        assert(decimal(n).drop_last() =~= Seq::<char>::empty());
        assert(digits_value(Seq::<char>::empty()) == 0);
    }
}

pub proof fn lemma_digits_grow(s: Seq<char>, k: int)
    requires
        0 <= k <= s.len(),
        forall|i: int| 0 <= i < s.len() ==> digit(#[trigger] s[i]),
    ensures
        digits_value(s.take(k)) <= digits_value(s),
    decreases s.len() - k,
{
    if k < s.len() {
        lemma_digits_grow(s, k + 1);
        assert(s.take(k + 1).drop_last() =~= s.take(k));
    } else {
        assert(s.take(k) =~= s);
    }
}

/// The number written by the digits of `cs[from..]`, where there is at least one
/// digit, nothing else, and the number is at most `max`.
pub fn read_digits(cs: &Vec<char>, from: usize, max: u64) -> (r: Option<u64>)
    requires
        from <= cs@.len(),
    ensures
        r is Some <==> all_digits(cs@.skip(from as int)) && digits_value(cs@.skip(from as int))
            <= max,
        r matches Some(n) ==> n == digits_value(cs@.skip(from as int)),
{
    let ghost s = cs@.skip(from as int);
    if from == cs.len() {
        return None;
    }
    let mut n: u64 = 0;
    let mut i: usize = from;
    while i < cs.len()
        invariant
            from <= i <= cs@.len(),
            s == cs@.skip(from as int),
            n == digits_value(s.take(i - from)),
            n <= max,
            forall|j: int| 0 <= j < i - from ==> digit(#[trigger] s[j]),
        decreases cs.len() - i,
    {
        let c = cs[i];
        assert(s[i - from] == c);
        if !is_digit(c) {
            return None;
        }
        let d: u64 = (c as u32 - 48) as u64;
        assert(s.take(i - from + 1).drop_last() =~= s.take(i - from));
        assert(digits_value(s.take(i - from + 1)) == n * 10 + d);
        if n > max / 10 || d > max - n * 10 {
            proof {
                if all_digits(s) {
                    lemma_digits_grow(s, i - from + 1);
                    if n > max / 10 {
                        assert(n * 10 > max) by (nonlinear_arith)
                            requires
                                n > max / 10,
                        ;
                    }
                }
            }
            return None;
        }
        n = n * 10 + d;
        i = i + 1;
    }
    assert(s.take(s.len() as int) =~= s);
    Some(n)
}

/// The number that a text writes in decimal, with or without a plus sign before it.
pub open spec fn unsigned_value(s: Seq<char>) -> Option<nat> {
    let body = if s.len() > 0 && s[0] == '+' {
        s.skip(1)
    } else {
        s
    };
    if all_digits(body) {
        Some(digits_value(body))
    } else {
        None
    }
}

/// The number that `s` writes, where it is at most `max`.
pub fn parse_unsigned(s: &str, max: u64) -> (r: Option<u64>)
    ensures
        r is Some <==> (unsigned_value(s@) is Some && unsigned_value(s@)->0 <= max),
        r matches Some(n) ==> unsigned_value(s@) == Some(n as nat),
{
    let cs = chars_of(s);
    if cs.len() > 0 && cs[0] == '+' {
        read_digits(&cs, 1, max)
    } else {
        assert(cs@.skip(0) =~= s@);
        read_digits(&cs, 0, max)
    }
}

/// The number that a text writes in decimal, with or without a sign before it.
pub open spec fn signed_value(s: Seq<char>) -> Option<int> {
    if s.len() > 0 && s[0] == '-' {
        if all_digits(s.skip(1)) {
            Some(-(digits_value(s.skip(1)) as int))
        } else {
            None
        }
    } else {
        match unsigned_value(s) {
            Some(n) => Some(n as int),
            None => None,
        }
    }
}

/// The number that `s` writes, where it fits in 64 bits with a sign.
pub fn parse_i64(s: &str) -> (r: Option<i64>)
    ensures
        r is Some <==> (signed_value(s@) is Some && i64::MIN <= signed_value(s@)->0 <= i64::MAX),
        r matches Some(n) ==> signed_value(s@) == Some(n as int),
{
    let cs = chars_of(s);
    if cs.len() > 0 && cs[0] == '-' {
        match read_digits(&cs, 1, 9223372036854775808u64) {
            Some(n) => {
                if n == 9223372036854775808u64 {
                    Some(i64::MIN)
                } else {
                    Some(-(n as i64))
                }
            },
            None => None,
        }
    } else {
        match parse_unsigned(s, 9223372036854775807u64) {
            Some(n) => Some(n as i64),
            None => None,
        }
    }
}

/// `list` with `s` at its end, where it is not in it yet.
pub open spec fn with_new(list: Seq<Seq<char>>, s: Seq<char>) -> Seq<Seq<char>> {
    if list.contains(s) {
        list
    } else {
        list.push(s)
    }
}

/// Adds a text to a list that does not hold it yet.
pub fn push_new(list: &mut Vec<String>, s: &str)
    ensures
        texts(final(list)@) == with_new(texts(old(list)@), s@),
{
    if !list_has(list, s) {
        let ghost before = list@;
        let t = s.to_owned();
        list.push(t);
        assert(texts(list@) =~= texts(before).push(s@));
    }
}

// ---------------------------------------------------------------------------
// Parts of a text
// ---------------------------------------------------------------------------

/// What stands before the first `pat`; all of it where there is none.
pub open spec fn part_before(s: Seq<char>, pat: Seq<char>) -> Seq<char> {
    match find(s, pat) {
        Some(i) => s.take(i),
        None => s,
    }
}

/// What stands behind the first `pat`, where there is one.
pub open spec fn part_after(s: Seq<char>, pat: Seq<char>) -> Option<Seq<char>> {
    match find(s, pat) {
        Some(i) => Some(s.skip(i + pat.len())),
        None => None,
    }
}

/// What stands before the first `pat`; all of it where there is none.
pub fn before(s: &str, pat: &str) -> (r: String)
    ensures
        r@ == part_before(s@, pat@),
{
    let cs = chars_of(s);
    let ps = chars_of(pat);
    proof {
        lemma_find_from(s@, pat@, 0);
    }
    match search(&cs, &ps, 0) {
        Some(i) => {
            assert(s@.subrange(0, i as int) =~= s@.take(i as int));
            string_of(&cs, 0, i)
        },
        None => s.to_owned(),
    }
}

/// What stands behind the first `pat`, where there is one.
pub fn after(s: &str, pat: &str) -> (r: Option<String>)
    ensures
        r is Some <==> part_after(s@, pat@) is Some,
        r matches Some(x) ==> Some(x@) == part_after(s@, pat@),
{
    let cs = chars_of(s);
    let ps = chars_of(pat);
    proof {
        lemma_find_from(s@, pat@, 0);
    }
    match search(&cs, &ps, 0) {
        Some(i) => {
            let from: usize = i + ps.len();
            assert(s@.subrange(from as int, s@.len() as int) =~= s@.skip(from as int));
            Some(string_of(&cs, from, cs.len()))
        },
        None => None,
    }
}

/// The text with `by` in the place of every `pat`, from the left.
pub open spec fn with_text(s: Seq<char>, pat: Seq<char>, by: Seq<char>) -> Seq<char>
    decreases s.len(),
{
    match find(s, pat) {
        Some(i) => if pat.len() > 0 && 0 <= i && i + pat.len() <= s.len() {
            s.take(i) + by + with_text(s.skip(i + pat.len()), pat, by)
        } else {
            s
        },
        None => s,
    }
}

/// The text with `by` in the place of every `pat`, from the left.
pub fn replace_text(s: &str, pat: &str, by: &str) -> (r: String)
    requires
        pat@.len() > 0,
    ensures
        r@ == with_text(s@, pat@, by@),
{
    let mut out = String::new();
    let mut rest: String = s.to_owned();
    assert(out@ + with_text(rest@, pat@, by@) =~= with_text(s@, pat@, by@));
    loop
        invariant
            pat@.len() > 0,
            out@ + with_text(rest@, pat@, by@) == with_text(s@, pat@, by@),
        ensures
            find(rest@, pat@) is None,
        decreases rest@.len(),
    {
        proof {
            lemma_find_from(rest@, pat@, 0);
        }
        match after(rest.as_str(), pat) {
            Some(tail) => {
                let head = before(rest.as_str(), pat);
                let ghost whole = with_text(rest@, pat@, by@);
                let ghost done = out@;
                assert(whole == head@ + by@ + with_text(tail@, pat@, by@));
                out.append(head.as_str());
                out.append(by);
                assert(out@ + with_text(tail@, pat@, by@) =~= done + whole);
                rest = tail;
            },
            None => {
                break;
            },
        }
    }
    out.append(rest.as_str());
    out
}

/// Where `pat` stands, the text with `by` in its place holds `by`.
pub proof fn lemma_with_text_holds(s: Seq<char>, pat: Seq<char>, by: Seq<char>)
    requires
        pat.len() > 0,
        holds(s, pat),
    ensures
        holds(with_text(s, pat, by), by),
{
    lemma_find_has(s, pat);
    lemma_find_from(s, pat, 0);
    let i = find(s, pat)->0;
    let w = with_text(s, pat, by);
    assert(w.subrange(i, i + by.len()) =~= by);
    assert(at(w, by, i));
}

/// Putting `by` in the place of `pat` leaves a text standing that neither begins nor ends
/// with a character of `pat` and does not hold it.
pub proof fn lemma_with_text_keeps(s: Seq<char>, pat: Seq<char>, by: Seq<char>, keep: Seq<char>)
    requires
        pat.len() > 0,
        keep.len() > 0,
        !pat.contains(keep[0]),
        !pat.contains(keep.last()),
        !holds(keep, pat),
        holds(s, keep),
    ensures
        holds(with_text(s, pat, by), keep),
    decreases s.len(),
{
    lemma_find_from(s, pat, 0);
    let a = choose|a: int| at(s, keep, a);
    assert(at(s, keep, a));
    if let Some(i) = find(s, pat) {
        let n = pat.len();
        let w = with_text(s, pat, by);
        let tail = s.skip(i + n);
        let rest = with_text(tail, pat, by);
        assert(at(s, pat, i));
        lemma_apart(s, pat, i, keep, a);
        if a + keep.len() <= i {
            assert(w.subrange(a, a + keep.len()) =~= s.subrange(a, a + keep.len()));
            assert(at(w, keep, a));
        } else {
            assert(tail.subrange(a - i - n, a - i - n + keep.len()) =~= s.subrange(
                a,
                a + keep.len(),
            ));
            assert(at(tail, keep, a - i - n));
            lemma_with_text_keeps(tail, pat, by, keep);
            let b = choose|b: int| at(rest, keep, b);
            assert(at(rest, keep, b));
            let off = i + by.len();
            assert(w.subrange(off + b, off + b + keep.len()) =~= rest.subrange(b, b + keep.len()));
            assert(at(w, keep, off + b));
        }
    }
}

/// Two such texts that stand one behind the other stand so afterwards.
pub proof fn lemma_with_text_keeps_order(
    s: Seq<char>,
    pat: Seq<char>,
    by: Seq<char>,
    first: Seq<char>,
    x: int,
    second: Seq<char>,
    y: int,
)
    requires
        pat.len() > 0,
        first.len() > 0,
        second.len() > 0,
        !pat.contains(first[0]),
        !pat.contains(first.last()),
        !holds(first, pat),
        !pat.contains(second[0]),
        !pat.contains(second.last()),
        !holds(second, pat),
        at(s, first, x),
        at(s, second, y),
        x <= y,
    ensures
        exists|a: int, b: int|
            a <= b && #[trigger] at(with_text(s, pat, by), first, a) && #[trigger] at(
                with_text(s, pat, by),
                second,
                b,
            ),
    decreases s.len(),
{
    lemma_find_from(s, pat, 0);
    match find(s, pat) {
        None => {
            assert(at(with_text(s, pat, by), first, x) && at(with_text(s, pat, by), second, y));
        },
        Some(i) => {
            let n = pat.len();
            let w = with_text(s, pat, by);
            let tail = s.skip(i + n);
            let rest = with_text(tail, pat, by);
            let off = i + by.len();
            assert(at(s, pat, i));
            lemma_apart(s, pat, i, first, x);
            lemma_apart(s, pat, i, second, y);
            if x >= i + n {
                assert(tail.subrange(x - i - n, x - i - n + first.len()) =~= first);
                assert(tail.subrange(y - i - n, y - i - n + second.len()) =~= second);
                lemma_with_text_keeps_order(tail, pat, by, first, x - i - n, second, y - i - n);
                let (a, b) = choose|a: int, b: int|
                    a <= b && #[trigger] at(rest, first, a) && #[trigger] at(rest, second, b);
                assert(w.subrange(off + a, off + a + first.len()) =~= first);
                assert(w.subrange(off + b, off + b + second.len()) =~= second);
                assert(at(w, first, off + a) && at(w, second, off + b));
            } else {
                assert(w.subrange(x, x + first.len()) =~= s.subrange(x, x + first.len()));
                assert(at(w, first, x));
                if y >= i + n {
                    assert(tail.subrange(y - i - n, y - i - n + second.len()) =~= second);
                    assert(at(tail, second, y - i - n));
                    lemma_with_text_keeps(tail, pat, by, second);
                    let b = choose|b: int| at(rest, second, b);
                    assert(at(rest, second, b));
                    assert(w.subrange(off + b, off + b + second.len()) =~= second);
                    assert(at(w, second, off + b));
                } else {
                    assert(w.subrange(y, y + second.len()) =~= s.subrange(y, y + second.len()));
                    assert(at(w, second, y));
                }
            }
        },
    }
}

/// A text that neither begins nor ends with a character of `pat` and does not hold it
/// stands before a `pat` or behind it.
proof fn lemma_apart(s: Seq<char>, pat: Seq<char>, i: int, keep: Seq<char>, a: int)
    requires
        pat.len() > 0,
        keep.len() > 0,
        !pat.contains(keep[0]),
        !pat.contains(keep.last()),
        !holds(keep, pat),
        at(s, pat, i),
        at(s, keep, a),
    ensures
        a + keep.len() <= i || a >= i + pat.len(),
{
    let n = pat.len();
    if a + keep.len() > i && a < i + n {
        if i <= a {
            assert(s[a] == s.subrange(a, a + keep.len())[0]);
            assert(s[a] == s.subrange(i, i + n)[a - i]);
            assert(pat[a - i] == keep[0]);
        } else if a + keep.len() <= i + n {
            let z = a + keep.len() - 1;
            assert(s[z] == s.subrange(a, a + keep.len())[keep.len() - 1]);
            assert(s[z] == s.subrange(i, i + n)[z - i]);
            assert(pat[z - i] == keep.last());
        } else {
            assert(keep.subrange(i - a, i - a + n) =~= s.subrange(i, i + n));
            assert(at(keep, pat, i - a));
        }
    }
}

/// Nothing is held afterwards that was not before, where it does not end as `by` begins
/// and has no other character of `by`.
pub proof fn lemma_with_text_adds_nothing(s: Seq<char>, pat: Seq<char>, by: Seq<char>, q: Seq<char>)
    requires
        pat.len() > 0,
        by.len() > 1,
        q.len() > 0,
        q.last() != by[0],
        forall|k: int| 1 <= k < by.len() ==> !q.contains(#[trigger] by[k]),
        holds(with_text(s, pat, by), q),
    ensures
        holds(s, q),
    decreases s.len(),
{
    lemma_find_from(s, pat, 0);
    let w = with_text(s, pat, by);
    let a = choose|a: int| at(w, q, a);
    assert(at(w, q, a));
    match find(s, pat) {
        None => {},
        Some(i) => {
            let n = pat.len();
            let tail = s.skip(i + n);
            let rest = with_text(tail, pat, by);
            let m = by.len();
            assert(at(s, pat, i));
            assert(w == s.take(i) + by + rest);
            if a + q.len() <= i {
                assert(s.subrange(a, a + q.len()) =~= w.subrange(a, a + q.len()));
                assert(at(s, q, a));
            } else if a >= i + m {
                assert(rest.subrange(a - i - m, a - i - m + q.len()) =~= w.subrange(
                    a,
                    a + q.len(),
                ));
                assert(at(rest, q, a - i - m));
                lemma_with_text_adds_nothing(tail, pat, by, q);
                let c = choose|c: int| at(tail, q, c);
                assert(at(tail, q, c));
                assert(s.subrange(i + n + c, i + n + c + q.len()) =~= tail.subrange(c, c + q.len()));
                assert(at(s, q, i + n + c));
            } else {
                let end = a + q.len() - 1;
                let found = w.subrange(a, a + q.len());
                assert(found == q);
                if a > i {
                    assert(w[a] == by[a - i]);
                    assert(found[0] == w[a]);
                    assert(q.contains(by[a - i]));
                } else if end == i {
                    assert(w[i] == by[0]);
                    assert(found[q.len() - 1] == w[i]);
                } else {
                    assert(w[i + 1] == by[1]);
                    assert(found[i + 1 - a] == w[i + 1]);
                    assert(q.contains(by[1]));
                }
            }
        },
    }
}

/// Where `by` is `pat` but for its last character, and that is none of `pat`, nothing of
/// `pat` is left.
pub proof fn lemma_with_text_clears(s: Seq<char>, pat: Seq<char>, by: Seq<char>)
    requires
        pat.len() > 0,
        by.len() == pat.len(),
        by.drop_last() == pat.drop_last(),
        !pat.contains(by.last()),
    ensures
        !holds(with_text(s, pat, by), pat),
    decreases s.len(),
{
    lemma_find_from(s, pat, 0);
    let w = with_text(s, pat, by);
    if holds(w, pat) {
        let a = choose|a: int| at(w, pat, a);
        assert(at(w, pat, a));
        match find(s, pat) {
            None => {
                assert(at(s, pat, a));
            },
            Some(i) => {
                let n = pat.len();
                let tail = s.skip(i + n);
                let rest = with_text(tail, pat, by);
                let z = i + n - 1;
                assert(at(s, pat, i));
                assert(w == s.take(i) + by + rest);
                assert(w[z] == by.last());
                if a <= z < a + n {
                    assert(w.subrange(a, a + n)[z - a] == w[z]);
                    assert(pat[z - a] == by.last());
                } else if a + n <= z {
                    assert forall|k: int| 0 <= k < n implies s[a + k] == pat[k] by {
                        assert(w.subrange(a, a + n)[k] == w[a + k]);
                        assert(w[a + k] == pat[k]);
                        if a + k >= i {
                            let q = a + k - i;
                            assert(w[a + k] == by[q]);
                            assert(by.drop_last()[q] == by[q]);
                            assert(pat.drop_last()[q] == pat[q]);
                            assert(s.subrange(i, i + n)[q] == s[a + k]);
                        } else {
                            assert(w[a + k] == s[a + k]);
                        }
                    }
                    assert(s.subrange(a, a + n) =~= pat);
                    assert(at(s, pat, a));
                } else {
                    lemma_with_text_clears(tail, pat, by);
                    assert(rest.subrange(a - i - n, a - i) =~= w.subrange(a, a + n));
                    assert(at(rest, pat, a - i - n));
                }
            },
        }
    }
}

// ---------------------------------------------------------------------------
// Laws
// ---------------------------------------------------------------------------

/// White space at both ends, and only there, is what trimming takes away.
pub proof fn law_trimming_takes_the_ends(a: Seq<char>, s: Seq<char>, b: Seq<char>)
    requires
        forall|i: int| 0 <= i < a.len() ==> white(#[trigger] a[i]),
        forall|i: int| 0 <= i < b.len() ==> white(#[trigger] b[i]),
        s.len() > 0 ==> !white(s[0]) && !white(s.last()),
    ensures
        trimmed(a + s + b) == s,
{
    let t = a + s + b;
    lemma_trim_start(t);
    let u = trim_start_of(t);
    lemma_trim_end(u);
    let v = trim_end_of(u);
    let i = t.len() - u.len();
    if s.len() == 0 {
        lemma_blank(t);
        assert forall|k: int| 0 <= k < t.len() implies white(#[trigger] t[k]) by {
            if k < a.len() {
                assert(t[k] == a[k]);
            } else {
                assert(t[k] == b[k - a.len()]);
            }
        }
        assert(trimmed(t) =~= s);
    } else {
        assert(t[a.len() as int] == s[0]);
        assert(t[a.len() + s.len() - 1] == s.last());
        if i < a.len() {
            assert(u[0] == t[i] && t[i] == a[i]);
        }
        if i > a.len() {
            assert(white(t[a.len() as int]));
        }
        assert(i == a.len());
        assert(u =~= s + b);
        if v.len() < s.len() {
            assert(u[s.len() - 1] == s.last());
        }
        if v.len() > s.len() {
            assert(v.last() == u[v.len() - 1] && u[v.len() - 1] == b[v.len() - 1 - s.len()]);
        }
        assert(v =~= s);
    }
}

/// White space is what Unicode calls so: among the characters of ASCII the space, the tab,
/// the ends of lines and of pages, and none that is printed.
pub proof fn law_printed_characters_are_not_white(c: char)
    ensures
        white(' ') && white('\t') && white('\n') && white('\r'),
        '!' <= c && c <= '~' ==> !white(c),
        white(c) && (c as int) < 0x80 ==> c == ' ' || ('\t' <= c && c <= '\r'),
{
}

/// Making letters small leaves all else, and its length, as it is, and makes no
/// difference to a text in small letters.
pub proof fn law_small_letters(s: Seq<char>, i: int)
    requires
        0 <= i < s.len(),
    ensures
        lower(s).len() == s.len(),
        s[i] < 'A' || s[i] > 'Z' ==> lower(s)[i] == s[i],
        'A' <= s[i] && s[i] <= 'Z' ==> lower(s)[i] as int == s[i] as int + 32,
        lower(lower(s)) == lower(s),
{
    assert(lower(lower(s)) =~= lower(s)) by {
        assert forall|k: int| 0 <= k < s.len() implies lower_char(lower_char(#[trigger] s[k]))
            == lower_char(s[k]) by {
            let c = s[k];
            if 'A' <= c <= 'Z' {
                assert(lower_char(c) as int == c as int + 32);
            }
        }
    }
}

proof fn lemma_split_one(a: Seq<char>, sep: char)
    requires
        !a.contains(sep),
    ensures
        split_at_char(a, sep) == seq![a],
    decreases a.len(),
{
    if a.len() == 0 {
        assert(a =~= Seq::<char>::empty());
    } else {
        assert(!a.drop_last().contains(sep)) by {
            if a.drop_last().contains(sep) {
                let i = choose|i: int| 0 <= i < a.len() - 1 && a.drop_last()[i] == sep;
                assert(a[i] == sep);
            }
        }
        lemma_split_one(a.drop_last(), sep);
        assert(a.contains(a.last()));
        assert(a.drop_last().push(a.last()) =~= a);
        assert(seq![a.drop_last()].drop_last() =~= Seq::<Seq<char>>::empty());
        assert(split_at_char(a, sep) =~= seq![a]);
    }
}

/// A text cut at a character: what stands before the first one comes first, whole, and
/// then what the rest is cut into.
pub proof fn law_cut_at_a_character(a: Seq<char>, sep: char, b: Seq<char>)
    requires
        !a.contains(sep),
    ensures
        split_at_char(a, sep) == seq![a],
        split_at_char(a.push(sep) + b, sep) == seq![a] + split_at_char(b, sep),
    decreases b.len(),
{
    lemma_split_one(a, sep);
    let s = a.push(sep) + b;
    if b.len() == 0 {
        assert(s =~= a.push(sep));
        assert(s.drop_last() =~= a);
        assert(split_at_char(s, sep) =~= seq![a] + seq![Seq::<char>::empty()]);
    } else {
        law_cut_at_a_character(a, sep, b.drop_last());
        assert(s.drop_last() =~= a.push(sep) + b.drop_last());
        lemma_split_nonempty(b.drop_last(), sep);
        let before = split_at_char(b.drop_last(), sep);
        let all = split_at_char(s.drop_last(), sep);
        assert(all == seq![a] + before);
        assert(all.last() == before.last());
        assert(split_at_char(s, sep) =~= seq![a] + split_at_char(b, sep));
    }
}

/// The lines of a text: what stands before the first line feed, without a carriage return
/// at its end, and then the lines of the rest. A text without a line feed is one line.
pub proof fn law_lines_end_at_line_feeds(a: Seq<char>, b: Seq<char>)
    requires
        !a.contains('\n'),
    ensures
        a.len() > 0 ==> lines_of(a) == seq![a],
        lines_of(Seq::<char>::empty()) == Seq::<Seq<char>>::empty(),
        lines_of(a.push('\n') + b) == seq![
            if a.len() > 0 && a.last() == '\r' {
                a.drop_last()
            } else {
                a
            },
        ] + lines_of(b),
{
    law_cut_at_a_character(a, '\n', b);
    assert(!Seq::<char>::empty().contains('\n'));
    lemma_split_one(Seq::<char>::empty(), '\n');
    lemma_split_nonempty(b, '\n');
    let e = Seq::<char>::empty();
    assert(lines_of(e) =~= Seq::<Seq<char>>::empty());
    if a.len() > 0 {
        assert(lines_of(a) =~= seq![a]);
    }
    let t = a.push('\n') + b;
    let p = split_at_char(b, '\n');
    let q = split_at_char(t, '\n');
    assert(q.last() == p.last());
    assert forall|i: int| 0 < i < q.len() implies q[i] == p[i - 1] by {}
    assert(q[0] == a);
    assert(lines_of(t) =~= seq![without_cr(a)] + lines_of(b));
}

/// What a number text reads as: the digits from the left, each ten times the weight of the
/// next.
pub proof fn law_digits_have_their_weight(s: Seq<char>, c: char)
    requires
        '0' <= c && c <= '9',
    ensures
        digits_value(s.push(c)) == 10 * digits_value(s) + (c as int - '0' as int),
        all_digits(s) ==> all_digits(s.push(c)),
        !all_digits(Seq::<char>::empty()),
        unsigned_value(s) is Some && s.len() > 0 && s[0] != '+' ==> unsigned_value(s)
            == Some(digits_value(s)),
{
    assert(s.push(c).drop_last() =~= s);
}

/// A search in the second of two texts is not disturbed by the first.
pub proof fn lemma_find_behind(a: Seq<char>, b: Seq<char>, pat: Seq<char>, from: int)
    requires
        0 <= from,
    ensures
        find_from(a + b, pat, a.len() + from) == (match find_from(b, pat, from) {
            Some(i) => Some(a.len() + i),
            None => None,
        }),
    decreases b.len() - from + 1,
{
    let s = a + b;
    if from + pat.len() <= b.len() {
        assert(s.subrange(a.len() + from, a.len() + from + pat.len()) =~= b.subrange(
            from,
            from + pat.len(),
        ));
        if !at(b, pat, from) {
            lemma_find_behind(a, b, pat, from + 1);
        }
    }
}

/// Where nothing in `a` begins like `pat`, it is first found behind `a`.
pub proof fn lemma_find_past(a: Seq<char>, b: Seq<char>, pat: Seq<char>, from: int)
    requires
        0 <= from <= a.len(),
        pat.len() > 0,
        !a.contains(pat[0]),
    ensures
        find_from(a + b, pat, from) == find_from(a + b, pat, a.len() as int),
    decreases a.len() - from,
{
    let s = a + b;
    if from < a.len() {
        if at(s, pat, from) {
            assert(s.subrange(from, from + pat.len())[0] == a[from]);
            assert(a.contains(a[from]));
        }
        lemma_find_past(a, b, pat, from + 1);
    }
}

/// A tag is first found where it stands behind a text that does not hold it, as long as
/// its first character is nowhere else in it.
pub proof fn lemma_find_tag(a: Seq<char>, tag: Seq<char>, b: Seq<char>)
    requires
        tag.len() > 0,
        !holds(a, tag),
        !tag.skip(1).contains(tag[0]),
    ensures
        find_from(a + tag + b, tag, 0) == Some(a.len() as int),
{
    let s = a + tag + b;
    let n = a.len() as int;
    lemma_stands_between(a, tag, b);
    assert forall|j: int| 0 <= j < n implies !(#[trigger] at(s, tag, j)) by {
        lemma_no_tag_before(a, tag, b, j);
    }
    lemma_first_place(s, tag, n);
}

proof fn lemma_stands_between(a: Seq<char>, tag: Seq<char>, b: Seq<char>)
    ensures
        at(a + tag + b, tag, a.len() as int),
{
    assert((a + tag + b).subrange(a.len() as int, (a.len() + tag.len()) as int) =~= tag);
}

proof fn lemma_first_place(s: Seq<char>, pat: Seq<char>, n: int)
    requires
        0 <= n,
        at(s, pat, n),
        forall|j: int| 0 <= j < n ==> !(#[trigger] at(s, pat, j)),
    ensures
        find_from(s, pat, 0) == Some(n),
{
    lemma_find_from(s, pat, 0);
}

proof fn lemma_no_tag_before(a: Seq<char>, tag: Seq<char>, b: Seq<char>, j: int)
    requires
        tag.len() > 0,
        !holds(a, tag),
        !tag.skip(1).contains(tag[0]),
        0 <= j < a.len(),
    ensures
        !at(a + tag + b, tag, j),
{
    let s = a + tag + b;
    let n = a.len() as int;
    if at(s, tag, j) {
        let m = s.subrange(j, j + tag.len());
        assert(m == tag);
        if j + tag.len() <= n {
            assert(m =~= a.subrange(j, j + tag.len()));
            assert(at(a, tag, j));
        } else {
            assert(m[n - j] == s[n]);
            assert(s[n] == tag[0]);
            assert(tag.skip(1)[n - j - 1] == tag[n - j]);
            assert(tag.skip(1).contains(tag[0]));
        }
    }
}

/// What stands before and behind a text in another, and what is left without it.
pub proof fn law_before_and_behind(a: Seq<char>, tag: Seq<char>, b: Seq<char>)
    requires
        tag.len() > 0,
        !holds(a, tag),
        !tag.skip(1).contains(tag[0]),
    ensures
        part_before(a + tag + b, tag) == a,
        part_after(a + tag + b, tag) == Some(b),
        part_before(a, tag) == a,
        part_after(a, tag) is None,
        strip_prefix_of(tag + b, tag) == Some(b),
{
    let s = a + tag + b;
    lemma_find_tag(a, tag, b);
    assert(s.take(a.len() as int) =~= a);
    assert(s.skip((a.len() + tag.len()) as int) =~= b);
    lemma_find_from(a, tag, 0);
    let t = tag + b;
    assert(t.subrange(0, tag.len() as int) =~= tag);
    assert(t.skip(tag.len() as int) =~= b);
}

/// Replacing changes every place where a text stands, and nothing else.
pub proof fn law_every_place_is_replaced(a: Seq<char>, tag: Seq<char>, b: Seq<char>, by: Seq<char>)
    requires
        tag.len() > 0,
        !holds(a, tag),
        !tag.skip(1).contains(tag[0]),
    ensures
        with_text(a + tag + b, tag, by) == a + by + with_text(b, tag, by),
        with_text(a, tag, by) == a,
{
    law_before_and_behind(a, tag, b);
    lemma_find_tag(a, tag, b);
    let s = a + tag + b;
    assert(s.take(a.len() as int) =~= a);
    assert(s.skip((a.len() + tag.len()) as int) =~= b);
    lemma_find_from(a, tag, 0);
}

/// A list takes a text in once, at its end.
pub proof fn law_a_list_takes_a_text_once(list: Seq<Seq<char>>, s: Seq<char>)
    ensures
        list.contains(s) ==> with_new(list, s) == list,
        !list.contains(s) ==> with_new(list, s) == list.push(s),
        with_new(with_new(list, s), s) == with_new(list, s),
{
    if !list.contains(s) {
        assert(list.push(s)[list.len() as int] == s);
    }
}

/// A text is cut to its front, and never made longer.
pub proof fn law_the_front_is_kept(s: Seq<char>, n: nat)
    ensures
        s.len() <= n ==> clipped(s, n) == s,
        s.len() > n ==> clipped(s, n).len() == n && clipped(s, n).is_prefix_of(s),
{
}

/// Texts are put together in order, with what stands between them between them only.
pub proof fn law_texts_are_joined(parts: Seq<Seq<char>>, x: Seq<char>, sep: Seq<char>)
    ensures
        joined(Seq::empty(), sep).len() == 0,
        joined(seq![x], sep) == x,
        parts.len() > 0 ==> joined(parts.push(x), sep) == joined(parts, sep) + sep + x,
{
    assert(parts.push(x).drop_last() =~= parts);
}

/// Texts are ordered by their first difference, and one that ends before the other stands
/// before it.
pub proof fn law_how_texts_are_ordered(p: Seq<char>, x: char, y: char, a: Seq<char>, b: Seq<char>)
    requires
        x < y,
    ensures
        sorted_before(p.push(x) + a, p.push(y) + b),
        !sorted_before(p.push(y) + b, p.push(x) + a),
        sorted_before(p, p + a),
        a.len() > 0 ==> !sorted_before(p + a, p),
    decreases p.len(),
{
    let s = p.push(x) + a;
    let t = p.push(y) + b;
    if p.len() > 0 {
        let q = p.skip(1);
        law_how_texts_are_ordered(q, x, y, a, b);
        assert(s.skip(1) =~= q.push(x) + a);
        assert(t.skip(1) =~= q.push(y) + b);
        assert((p + a).skip(1) =~= q + a);
        assert(s[0] == p[0] && t[0] == p[0] && (p + a)[0] == p[0]);
    } else {
        assert(s[0] == x && t[0] == y);
        assert(p + a =~= a);
    }
}

/// A number is read with or without a sign before it, and only of digits.
pub proof fn law_signs_before_numbers(n: nat)
    ensures
        signed_value(decimal(n)) == Some(n as int),
        signed_value(seq!['-'] + decimal(n)) == Some(-(n as int)),
        signed_value(seq!['+'] + decimal(n)) == Some(n as int),
        unsigned_value(seq!['-'] + decimal(n)) is None,
        signed_value(Seq::empty()) is None,
{
    law_decimal_reads_back(n);
    let d = decimal(n);
    assert(digit(d[0]));
    let m = seq!['-'] + d;
    let p = seq!['+'] + d;
    assert(m.skip(1) =~= d);
    assert(p.skip(1) =~= d);
    assert(m[0] == '-' && p[0] == '+');
    if all_digits(m) {
        assert(digit(m[0]));
    }
}

} // verus!
