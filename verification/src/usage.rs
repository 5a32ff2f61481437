//! Token counts in a completion: the fields of OpenAI's `usage` and of
//! llama.cpp's `timings`.

use vstd::prelude::*;
use crate::double::{out_of_range, too_large, too_small};
use crate::json::{Json, JsonV};
use crate::text::{
    chars_of, decimal, digit, digits_value, is_digit, lemma_digits_grow, parse_i64, parse_unsigned,
    show_u64, signed_value, string_of, unsigned_value,
};
use crate::xml_tools::{after_sign, decimal_text, is_decimal_text};

verus! {

// ---------------------------------------------------------------------------
// Rounding the decimal text of a fraction
// ---------------------------------------------------------------------------

/// The digits of `s` in order, anything else left out.
pub open spec fn digits_only(s: Seq<char>) -> Seq<char> {
    s.filter(|c: char| digit(c))
}

/// The index of the first of `a` and `b` in `s`, its length where there is none.
pub open spec fn first_either(s: Seq<char>, a: char, b: char) -> int
    decreases s.len(),
{
    if s.len() == 0 {
        0
    } else if s[0] == a || s[0] == b {
        0
    } else {
        1 + first_either(s.skip(1), a, b)
    }
}

/// `ds` as it stands before the decimal point where the point comes after `p` digits.
pub open spec fn whole_digits(ds: Seq<char>, p: int) -> Seq<char> {
    Seq::new(
        if p < 0 {
            0
        } else {
            p as nat
        },
        |i: int|
            if i < ds.len() {
                ds[i]
            } else {
                '0'
            },
    )
}

pub const TWO_52: u128 = 0x10_0000_0000_0000;

pub const TWO_53: u128 = 0x20_0000_0000_0000;

pub const TWO_64: u128 = 0x1_0000_0000_0000_0000;

pub const TWO_65: u128 = 0x2_0000_0000_0000_0000;

/// How far apart the doubles around an integer are, where they are all integers: a
/// double has 53 binary digits.
pub open spec fn spacing(w: nat) -> nat
    decreases w,
{
    if w < TWO_53 {
        1
    } else {
        2 * spacing(w / 2)
    }
}

/// The double nearest to a number of at least 2^53, an even one where two are as near.
/// `w` stands before its decimal point; `more`: not only noughts stand behind it.
pub open spec fn nearest_double(w: nat, more: bool) -> nat {
    let u = spacing(w);
    let low = (w / u) * u;
    let behind = w % u;
    if behind * 2 < u || (behind * 2 == u && !more && (w / u) % 2 == 0) {
        low
    } else {
        low + u
    }
}

/// A digit other than nought stands at `p` or behind it.
pub open spec fn something_behind(ds: Seq<char>, p: int) -> bool {
    exists|i: int| 0 <= i < ds.len() && p <= i && #[trigger] ds[i] != '0'
}

/// The double whose shortest text has the digits `ds` with the decimal point after `p`
/// of them, rounded to the nearest integer, a half away from zero. Below 2^53 every
/// half is a double, so that the text and the double are rounded alike.
pub open spec fn rounded_digits(ds: Seq<char>, p: int) -> nat {
    let w = digits_value(whole_digits(ds, p));
    if w >= TWO_53 {
        nearest_double(w, something_behind(ds, p))
    } else if 0 <= p < ds.len() && ds[p] >= '5' {
        w + 1
    } else {
        w
    }
}

pub open spec fn no_value(ds: Seq<char>) -> bool {
    forall|i: int| 0 <= i < ds.len() ==> #[trigger] ds[i] == '0'
}

/// The non-negative double that is shown by a decimal text, rounded to the nearest
/// integer. An exponent that does not fit in 64 bits gives none.
pub open spec fn rounded(s: Seq<char>) -> Option<nat> {
    let negative = s.len() > 0 && s[0] == '-';
    let e_at = first_either(s, 'e', 'E');
    let mantissa = s.take(e_at);
    let point = first_either(mantissa, '.', '.');
    let ds = digits_only(mantissa);
    let exp = if e_at < s.len() {
        signed_value(s.skip(e_at + 1))
    } else {
        Some(0int)
    };
    if no_value(ds) {
        Some(0)
    } else if negative {
        None
    } else {
        match exp {
            Some(e) => if i64::MIN <= e <= i64::MAX {
                Some(rounded_digits(ds, digits_only(s.take(point)).len() + e))
            } else {
                None
            },
            None => None,
        }
    }
}

/// A count: a number that is not negative and at most 2^64, which counts for the
/// largest integer of 64 bits, or the decimal text of such an integer.
pub open spec fn count_of(v: JsonV) -> Option<nat> {
    match v {
        JsonV::Int(n) => if 0 <= n <= u64::MAX {
            Some(n as nat)
        } else {
            None
        },
        JsonV::Float(s) => match rounded(s) {
            Some(n) => if n <= u64::MAX {
                Some(n)
            } else if n == TWO_64 {
                Some(u64::MAX as nat)
            } else {
                None
            },
            None => None,
        },
        JsonV::Str(s) => match unsigned_value(s) {
            Some(n) => if n <= u64::MAX {
                Some(n)
            } else {
                None
            },
            None => None,
        },
        _ => None,
    }
}

pub(crate) fn find_either(cs: &Vec<char>, a: char, b: char, to: usize) -> (r: usize)
    requires
        to <= cs@.len(),
    ensures
        r <= to,
        r == first_either(cs@.take(to as int), a, b),
{
    let ghost s = cs@.take(to as int);
    let mut i: usize = 0;
    assert(s.skip(0) =~= s);
    while i < to && cs[i] != a && cs[i] != b
        invariant
            i <= to <= cs@.len(),
            s == cs@.take(to as int),
            first_either(s, a, b) == i + first_either(s.skip(i as int), a, b),
        decreases to - i,
    {
        assert(s.skip(i as int).skip(1) =~= s.skip(i + 1));
        i = i + 1;
    }
    i
}

pub(crate) fn take_digits(cs: &Vec<char>, to: usize) -> (r: Vec<char>)
    requires
        to <= cs@.len(),
    ensures
        r@ == digits_only(cs@.take(to as int)),
        r@.len() <= to,
        forall|i: int| 0 <= i < r@.len() ==> digit(#[trigger] r@[i]),
{
    let mut out: Vec<char> = Vec::new();
    let mut i: usize = 0;
    proof {
        reveal(Seq::filter);
        assert(digits_only(cs@.take(0)) =~= Seq::empty());
    }
    while i < to
        invariant
            i <= to <= cs@.len(),
            out@ == digits_only(cs@.take(i as int)),
            out@.len() <= i,
            forall|j: int| 0 <= j < out@.len() ==> digit(#[trigger] out@[j]),
        decreases to - i,
    {
        proof {
            reveal(Seq::filter);
            assert(cs@.take(i + 1).drop_last() =~= cs@.take(i as int));
        }
        if is_digit(cs[i]) {
            out.push(cs[i]);
        }
        i = i + 1;
    }
    out
}

fn double_spacing(w: u128) -> (r: u128)
    requires
        w <= TWO_65,
    ensures
        r == spacing(w as nat),
{
    let mut x: u128 = w;
    let mut u: u128 = 1;
    while x >= TWO_53
        invariant
            w <= TWO_65,
            u >= 1,
            u * x <= w,
            spacing(w as nat) == u * spacing(x as nat),
        decreases x,
    {
        let half: u128 = x / 2;
        assert(spacing(x as nat) == 2 * spacing(half as nat));
        assert(u * spacing(x as nat) == (u * 2) * spacing(half as nat)) by (nonlinear_arith)
            requires
                spacing(x as nat) == 2 * spacing(half as nat),
        ;
        assert(u * 2 <= u * x && (u * 2) * half <= u * x) by (nonlinear_arith)
            requires
                u >= 1,
                x >= 2,
                half == x / 2,
        ;
        u = u * 2;
        x = half;
    }
    assert(spacing(x as nat) == 1);
    assert(u * spacing(x as nat) == u) by (nonlinear_arith)
        requires
            spacing(x as nat) == 1,
    ;
    u
}

/// Doubles in `[2^52, 2^53)` are 1 apart, in `[2^53, 2^54)` 2 apart, and so on.
proof fn lemma_spacing(w: nat)
    requires
        w >= TWO_52,
    ensures
        spacing(w) >= 1,
        TWO_52 * spacing(w) <= w < TWO_53 * spacing(w),
    decreases w,
{
    if w >= TWO_53 {
        lemma_spacing(w / 2);
    }
}

/// From 2^65 on the nearest double is beyond 2^64.
proof fn lemma_far(w: nat, more: bool)
    requires
        w > TWO_65,
    ensures
        nearest_double(w, more) > TWO_64,
{
    lemma_spacing(w);
    let u = spacing(w);
    let q = w / u;
    assert(w < 2 * (q * u)) by (nonlinear_arith)
        requires
            q == w / u,
            u >= 1,
            TWO_52 * u <= w,
            TWO_52 == 0x10_0000_0000_0000u128,
    ;
}

fn round_digits(ds: &Vec<char>, p: i128) -> (r: Option<u128>)
    requires
        forall|i: int| 0 <= i < ds@.len() ==> digit(#[trigger] ds@[i]),
    ensures
        r is Some <==> rounded_digits(ds@, p as int) <= TWO_64,
        r matches Some(n) ==> n == rounded_digits(ds@, p as int),
{
    if p < 0 {
        assert(whole_digits(ds@, p as int) =~= Seq::empty());
        return Some(0);
    }
    let ghost w = whole_digits(ds@, p as int);
    let mut n: u128 = 0;
    let mut i: i128 = 0;
    assert(w.take(0) =~= Seq::empty());
    while i < p
        invariant
            0 <= i <= p == w.len(),
            w == whole_digits(ds@, p as int),
            n == digits_value(w.take(i as int)),
            n <= TWO_65,
            forall|k: int| 0 <= k < ds@.len() ==> digit(#[trigger] ds@[k]),
        decreases p - i,
    {
        let c: char = if i < ds.len() as i128 {
            ds[i as usize]
        } else {
            '0'
        };
        assert(w[i as int] == c);
        let d: u128 = (c as u32 - 48) as u128;
        assert(w.take(i + 1).drop_last() =~= w.take(i as int));
        assert(digits_value(w.take(i + 1)) == n * 10 + d);
        n = n * 10 + d;
        if n > TWO_65 {
            proof {
                lemma_digits_grow(w, i + 1);
                lemma_far(digits_value(w), something_behind(ds@, p as int));
            }
            return None;
        }
        i = i + 1;
    }
    assert(w.take(p as int) =~= w);
    if n < TWO_53 {
        if p < ds.len() as i128 && ds[p as usize] >= '5' {
            return Some(n + 1);
        }
        return Some(n);
    }
    let more: bool = p < ds.len() as i128 && has_value_from(ds, p as usize);
    let u: u128 = double_spacing(n);
    proof {
        lemma_spacing(n as nat);
    }
    let q: u128 = n / u;
    let behind: u128 = n % u;
    proof {
        assert(q * u + behind == n && q * u <= n) by (nonlinear_arith)
            requires
                q == n / u,
                behind == n % u,
                u >= 1,
        ;
        assert(u <= n) by (nonlinear_arith)
            requires
                TWO_52 * u <= n,
                TWO_52 == 0x10_0000_0000_0000u128,
                u >= 1,
        ;
    }
    let low: u128 = q * u;
    let r: u128 = if behind * 2 < u || (behind * 2 == u && !more && q % 2 == 0) {
        low
    } else {
        low + u
    };
    if r > TWO_64 {
        return None;
    }
    Some(r)
}

/// Whether a digit other than nought stands at `from` or behind it.
fn has_value_from(ds: &Vec<char>, from: usize) -> (r: bool)
    ensures
        r == something_behind(ds@, from as int),
{
    let mut i: usize = from;
    while i < ds.len()
        invariant
            from <= i,
            forall|k: int| from <= k < i && k < ds@.len() ==> #[trigger] ds@[k] == '0',
        decreases ds.len() - i,
    {
        if ds[i] != '0' {
            return true;
        }
        i = i + 1;
    }
    false
}

pub(crate) fn has_value(ds: &Vec<char>) -> (r: bool)
    ensures
        r == !no_value(ds@),
{
    let mut i: usize = 0;
    while i < ds.len()
        invariant
            i <= ds@.len(),
            forall|k: int| 0 <= k < i ==> #[trigger] ds@[k] == '0',
        decreases ds.len() - i,
    {
        if ds[i] != '0' {
            return true;
        }
        i = i + 1;
    }
    false
}

/// The non-negative double that is shown by a decimal text, rounded to the nearest
/// integer, where that is at most 2^64.
pub fn round_text(s: &str) -> (r: Option<u128>)
    ensures
        r is Some <==> (rounded(s@) is Some && rounded(s@)->0 <= TWO_64),
        r matches Some(n) ==> rounded(s@) == Some(n as nat),
{
    let cs = chars_of(s);
    assert(cs@.take(cs@.len() as int) =~= s@);
    let e_at: usize = find_either(&cs, 'e', 'E', cs.len());
    let point: usize = find_either(&cs, '.', '.', e_at);
    let ds = take_digits(&cs, e_at);
    if !has_value(&ds) {
        return Some(0);
    }
    if cs.len() > 0 && cs[0] == '-' {
        return None;
    }
    let e: i64 = if e_at < cs.len() {
        let tail = string_of(&cs, e_at + 1, cs.len());
        assert(tail@ =~= s@.skip(e_at + 1));
        match parse_i64(tail.as_str()) {
            Some(e) => e,
            None => {
                return None;
            },
        }
    } else {
        0
    };
    let whole = take_digits(&cs, point);
    round_digits(&ds, whole.len() as i128 + e as i128)
}

/// A count: a number that is not negative, or its decimal text.
pub fn json_u64(v: &Json) -> (r: Option<u64>)
    ensures
        r is Some <==> count_of(v@) is Some,
        r matches Some(n) ==> count_of(v@) == Some(n as nat),
{
    match v {
        Json::Uint(n) => Some(*n),
        Json::Nint(n) => if *n >= 0 {
            Some(*n as u64)
        } else {
            None
        },
        Json::Float(s) => match round_text(s.as_str()) {
            Some(n) => if n <= u64::MAX as u128 {
                Some(n as u64)
            } else {
                Some(u64::MAX)
            },
            None => None,
        },
        Json::Str(s) => parse_unsigned(s.as_str(), u64::MAX),
        _ => None,
    }
}

// ---------------------------------------------------------------------------
// The counts of a completion
// ---------------------------------------------------------------------------

/// The count under `a` and `b`.
pub open spec fn count_at(v: JsonV, a: Seq<char>, b: Seq<char>) -> Option<nat> {
    match v.field2(a, b) {
        Some(x) => count_of(x),
        None => None,
    }
}

pub open spec fn or_zero(n: Option<nat>) -> nat {
    match n {
        Some(k) => k,
        None => 0,
    }
}

pub open spec fn or_else(a: Option<nat>, b: Option<nat>) -> Option<nat> {
    if a is Some {
        a
    } else {
        b
    }
}

/// `count_at` in 64 bits.
pub fn pointer_u64(v: &Json, a: &str, b: &str) -> (r: Option<u64>)
    ensures
        r is Some <==> count_at(v@, a@, b@) is Some,
        r matches Some(n) ==> count_at(v@, a@, b@) == Some(n as nat),
{
    match v.get2(a, b) {
        Some(x) => json_u64(x),
        None => None,
    }
}

/// The size of the prompt: `usage.prompt_tokens` where it is positive, else
/// `timings.cache_n` and `timings.prompt_n` together, as `prompt_n` leaves out what
/// came from the cache.
pub open spec fn prompt_tokens_of(v: JsonV) -> nat {
    let direct = or_zero(count_at(v, "usage"@, "prompt_tokens"@));
    if direct > 0 {
        direct
    } else {
        match count_at(v, "timings"@, "prompt_n"@) {
            Some(n) => {
                let sum = or_zero(count_at(v, "timings"@, "cache_n"@)) + n;
                if sum > u64::MAX {
                    u64::MAX as nat
                } else {
                    sum
                }
            },
            None => 0,
        }
    }
}

pub fn parse_prompt_tokens(v: &Json) -> (r: u64)
    ensures
        r == prompt_tokens_of(v@),
{
    if let Some(n) = pointer_u64(v, "usage", "prompt_tokens") {
        if n > 0 {
            return n;
        }
    }
    let cache: u64 = match pointer_u64(v, "timings", "cache_n") {
        Some(n) => n,
        None => 0,
    };
    match pointer_u64(v, "timings", "prompt_n") {
        Some(n) => if n > u64::MAX - cache {
            u64::MAX
        } else {
            cache + n
        },
        None => 0,
    }
}

/// The size of the reply: `usage.completion_tokens`, else `timings.predicted_n`.
pub open spec fn completion_tokens_of(v: JsonV) -> nat {
    or_zero(
        or_else(
            count_at(v, "usage"@, "completion_tokens"@),
            count_at(v, "timings"@, "predicted_n"@),
        ),
    )
}

pub fn parse_completion_tokens(v: &Json) -> (r: u64)
    ensures
        r == completion_tokens_of(v@),
{
    match pointer_u64(v, "usage", "completion_tokens") {
        Some(n) => n,
        None => match pointer_u64(v, "timings", "predicted_n") {
            Some(n) => n,
            None => 0,
        },
    }
}

/// OpenAI's `prompt_tokens_details.cached_tokens`.
pub open spec fn detail_of(v: JsonV) -> Option<nat> {
    match v.field2("usage"@, "prompt_tokens_details"@) {
        Some(d) => match d.field("cached_tokens"@) {
            Some(x) => count_of(x),
            None => None,
        },
        None => None,
    }
}

/// How much of the prompt came from the cache, at most the whole prompt where its
/// size is known.
pub open spec fn cached_tokens_of(v: JsonV) -> Option<nat> {
    let raw = or_else(
        detail_of(v),
        or_else(
            count_at(v, "usage"@, "cached_tokens"@),
            or_else(count_at(v, "usage"@, "cache_n"@), count_at(v, "timings"@, "cache_n"@)),
        ),
    );
    let prompt = prompt_tokens_of(v);
    match raw {
        Some(c) => Some(
            if prompt > 0 && prompt < c {
                prompt
            } else {
                c
            },
        ),
        None => None,
    }
}

pub fn parse_cached_tokens(v: &Json) -> (r: Option<u64>)
    ensures
        r is Some <==> cached_tokens_of(v@) is Some,
        r matches Some(n) ==> cached_tokens_of(v@) == Some(n as nat),
{
    let detail: Option<u64> = match v.get2("usage", "prompt_tokens_details") {
        Some(d) => match d.get("cached_tokens") {
            Some(x) => json_u64(x),
            None => None,
        },
        None => None,
    };
    let raw: Option<u64> = match detail {
        Some(n) => Some(n),
        None => match pointer_u64(v, "usage", "cached_tokens") {
            Some(n) => Some(n),
            None => match pointer_u64(v, "usage", "cache_n") {
                Some(n) => Some(n),
                None => pointer_u64(v, "timings", "cache_n"),
            },
        },
    };
    let prompt: u64 = parse_prompt_tokens(v);
    match raw {
        Some(c) => Some(
            if prompt > 0 && prompt < c {
                prompt
            } else {
                c
            },
        ),
        None => None,
    }
}

// ---------------------------------------------------------------------------
// How fast the reply came
// ---------------------------------------------------------------------------

/// A rate of tokens: given as such, or as tokens over milliseconds. The texts are
/// decimal numbers above zero.
#[derive(Debug, PartialEq, Eq)]
pub enum Rate {
    PerSecond(String),
    Over { tokens: u64, millis: String },
}

/// The decimal text of a number that a double holds above zero and below infinity.
pub open spec fn positive_text(s: Seq<char>) -> bool {
    &&& decimal_text(s, after_sign(s))
    &&& !(s.len() > 0 && s[0] == '-')
    &&& !no_value(digits_only(s.take(first_either(s, 'e', 'E'))))
    &&& !too_large(s)
    &&& !too_small(s)
}

/// The text of a number above zero, given as a number or as its text.
pub open spec fn positive_number(v: JsonV) -> Option<Seq<char>> {
    match v {
        JsonV::Int(n) => if n > 0 {
            Some(decimal(n as nat))
        } else {
            None
        },
        JsonV::Float(s) => if positive_text(s) {
            Some(s)
        } else {
            None
        },
        JsonV::Str(s) => if positive_text(s) {
            Some(s)
        } else {
            None
        },
        _ => None,
    }
}

pub open spec fn positive_at(v: JsonV, a: Seq<char>, b: Seq<char>) -> Option<Seq<char>> {
    match v.field2(a, b) {
        Some(x) => positive_number(x),
        None => None,
    }
}

pub ghost enum RateV {
    PerSecond(Seq<char>),
    Over { tokens: nat, millis: Seq<char> },
}

impl View for Rate {
    type V = RateV;

    open spec fn view(&self) -> RateV {
        match self {
            Rate::PerSecond(s) => RateV::PerSecond(s@),
            Rate::Over { tokens, millis } => RateV::Over { tokens: *tokens as nat, millis: millis@ },
        }
    }
}

/// How fast the reply came: `timings.predicted_per_second`, else
/// `timings.predicted_n` over `timings.predicted_ms`.
pub open spec fn rate_of(v: JsonV) -> Option<RateV> {
    match positive_at(v, "timings"@, "predicted_per_second"@) {
        Some(s) => Some(RateV::PerSecond(s)),
        None => {
            let n = or_zero(count_at(v, "timings"@, "predicted_n"@));
            match positive_at(v, "timings"@, "predicted_ms"@) {
                Some(ms) => if n > 0 {
                    Some(RateV::Over { tokens: n, millis: ms })
                } else {
                    None
                },
                None => None,
            }
        },
    }
}

fn is_positive_text(s: &str) -> (r: bool)
    ensures
        r == positive_text(s@),
{
    let cs = chars_of(s);
    assert(cs@.take(cs@.len() as int) =~= s@);
    let from: usize = if cs.len() > 0 && (cs[0] == '+' || cs[0] == '-') {
        1
    } else {
        0
    };
    let e_at: usize = find_either(&cs, 'e', 'E', cs.len());
    let (large, small) = out_of_range(s);
    is_decimal_text(&cs, from) && !(cs.len() > 0 && cs[0] == '-') && has_value(
        &take_digits(&cs, e_at),
    ) && !large && !small
}

fn positive_of(v: Option<&Json>) -> (r: Option<String>)
    ensures
        v is None ==> r is None,
        v matches Some(x) ==> (r is Some <==> positive_number(x@) is Some),
        v matches Some(x) ==> (r matches Some(s) ==> positive_number(x@) == Some(s@)),
{
    match v {
        Some(Json::Uint(n)) => if *n > 0 {
            Some(show_u64(*n))
        } else {
            None
        },
        Some(Json::Nint(n)) => if *n > 0 {
            Some(show_u64(*n as u64))
        } else {
            None
        },
        Some(Json::Float(s)) => if is_positive_text(s.as_str()) {
            Some(s.clone())
        } else {
            None
        },
        Some(Json::Str(s)) => if is_positive_text(s.as_str()) {
            Some(s.clone())
        } else {
            None
        },
        _ => None,
    }
}

/// How fast the reply came. A rate that no double holds is none.
pub fn parse_decode_tok_s(v: &Json) -> (r: Option<Rate>)
    ensures
        r is Some <==> rate_of(v@) is Some,
        r matches Some(x) ==> rate_of(v@) == Some(x@),
{
    if let Some(s) = positive_of(v.get2("timings", "predicted_per_second")) {
        return Some(Rate::PerSecond(s));
    }
    let tokens: u64 = match pointer_u64(v, "timings", "predicted_n") {
        Some(n) => n,
        None => 0,
    };
    match positive_of(v.get2("timings", "predicted_ms")) {
        Some(millis) => if tokens > 0 {
            Some(Rate::Over { tokens, millis })
        } else {
            None
        },
        None => None,
    }
}

/// What came from the cache is never more than the prompt.
pub proof fn law_cached_within_prompt(v: JsonV)
    requires
        prompt_tokens_of(v) > 0,
    ensures
        or_zero(cached_tokens_of(v)) <= prompt_tokens_of(v),
{
}

/// The size of the prompt is what the counts say, else what was read of it and what came
/// from the cache together.
pub proof fn law_where_the_prompt_is_counted(v: JsonV, n: nat, c: nat)
    ensures
        v.at("usage"@).field("prompt_tokens"@) == Some(JsonV::Int(n as int)) && 0 < n <= u64::MAX
            ==> prompt_tokens_of(v) == n,
        v.at("usage"@).field("prompt_tokens"@) is None && v.at("timings"@).field("prompt_n"@)
            == Some(JsonV::Int(n as int)) && v.at("timings"@).field("cache_n"@) == Some(
            JsonV::Int(c as int),
        ) && n + c <= u64::MAX ==> prompt_tokens_of(v) == n + c,
        v.at("usage"@).field("prompt_tokens"@) is None && v.at("timings"@).field("prompt_n"@)
            == Some(JsonV::Int(n as int)) && v.at("timings"@).field("cache_n"@) is None && n
            <= u64::MAX ==> prompt_tokens_of(v) == n,
        v.field("usage"@) is None && v.field("timings"@) is None ==> prompt_tokens_of(v) == 0,
{
}

/// The size of the reply is what the counts say, else what the timings do.
pub proof fn law_where_the_reply_is_counted(v: JsonV, n: nat)
    requires
        n <= u64::MAX,
    ensures
        v.at("usage"@).field("completion_tokens"@) == Some(JsonV::Int(n as int))
            ==> completion_tokens_of(v) == n,
        v.at("usage"@).field("completion_tokens"@) is None && v.at("timings"@).field(
            "predicted_n"@,
        ) == Some(JsonV::Int(n as int)) ==> completion_tokens_of(v) == n,
        v.field("usage"@) is None && v.field("timings"@) is None ==> completion_tokens_of(v) == 0,
{
}

/// What came from the cache is what the details of the counts say, else the counts, else the
/// timings; without any of them it is not known.
pub proof fn law_where_the_cache_is_counted(v: JsonV, n: nat)
    requires
        n <= u64::MAX,
        prompt_tokens_of(v) == 0 || n <= prompt_tokens_of(v),
    ensures
        ({
            let u = v.at("usage"@);
            let told = Some(JsonV::Int(n as int));
            let detail = u.at("prompt_tokens_details"@).field("cached_tokens"@);
            &&& detail == told ==> cached_tokens_of(v) == Some(n)
            &&& detail is None && u.field("cached_tokens"@) == told ==> cached_tokens_of(v) == Some(
                n,
            )
            &&& detail is None && u.field("cached_tokens"@) is None && u.field("cache_n"@) == told
                ==> cached_tokens_of(v) == Some(n)
            &&& detail is None && u.field("cached_tokens"@) is None && u.field("cache_n"@) is None
                && v.at("timings"@).field("cache_n"@) == told ==> cached_tokens_of(v) == Some(n)
            &&& v.field("usage"@) is None && v.field("timings"@) is None ==> cached_tokens_of(
                v,
            ) is None
        }),
{
}

/// A count is a number that is not negative, or the text of one; nothing else is.
pub proof fn law_what_counts(n: nat, s: Seq<char>)
    ensures
        n <= u64::MAX ==> count_of(JsonV::Int(n as int)) == Some(n),
        n <= u64::MAX ==> count_of(JsonV::Str(decimal(n))) == Some(n),
        n > 0 ==> count_of(JsonV::Int(-n)) is None,
        n > u64::MAX ==> count_of(JsonV::Int(n as int)) is None,
        count_of(JsonV::Null) is None,
        count_of(JsonV::Bool(true)) is None,
{
    crate::text::law_decimal_reads_back(n);
    let d = decimal(n);
    assert(digit(d[0]));
    assert(d[0] != '+');
}

/// A number with a fraction counts as the nearest integer, a half as the next one.
pub proof fn law_fractions_are_rounded(w: Seq<char>, f: Seq<char>)
    requires
        crate::text::all_digits(w),
        crate::text::all_digits(f),
        digits_value(w) < TWO_53,
    ensures
        count_of(JsonV::Float(w.push('.') + f)) == Some(
            digits_value(w) + if f[0] >= '5' {
                1nat
            } else {
                0nat
            },
        ),
{
    let s = w.push('.') + f;
    lemma_none_of(s, 'e', 'E');
    assert(s.take(s.len() as int) =~= s);
    assert(s =~= w + (seq!['.'] + f));
    lemma_first_dot(w, f);
    assert(s.take(w.len() as int) =~= w);
    lemma_digits_kept(w);
    lemma_digits_kept(f);
    reveal(Seq::filter);
    lemma_digits_split(w.push('.'), f);
    assert(w.push('.').drop_last() =~= w);
    let ds = w + f;
    assert(digits_only(w.push('.')) == w);
    assert(digits_only(s) == ds);
    assert(whole_digits(ds, w.len() as int) =~= w);
    assert(s[0] == w[0] && digit(w[0]));
    if no_value(ds) {
        assert forall|i: int| 0 <= i < w.len() implies w[i] == '0' by {
            assert(ds[i] == w[i]);
        }
        lemma_noughts_are_nothing(w);
        assert(ds[w.len() as int] == f[0]);
    } else {
        assert(ds[w.len() as int] == f[0]);
    }
}

proof fn lemma_noughts_are_nothing(w: Seq<char>)
    requires
        forall|i: int| 0 <= i < w.len() ==> #[trigger] w[i] == '0',
    ensures
        digits_value(w) == 0,
    decreases w.len(),
{
    if w.len() > 0 {
        let t = w.drop_last();
        assert forall|i: int| 0 <= i < t.len() implies #[trigger] t[i] == '0' by {
            assert(t[i] == w[i]);
        }
        lemma_noughts_are_nothing(t);
        assert(w[w.len() - 1] == '0');
    }
}

proof fn lemma_none_of(s: Seq<char>, a: char, b: char)
    requires
        forall|i: int| 0 <= i < s.len() ==> #[trigger] s[i] != a && s[i] != b,
    ensures
        first_either(s, a, b) == s.len(),
    decreases s.len(),
{
    if s.len() > 0 {
        let t = s.skip(1);
        assert forall|i: int| 0 <= i < t.len() implies #[trigger] t[i] != a && t[i] != b by {
            assert(t[i] == s[i + 1]);
        }
        lemma_none_of(t, a, b);
    }
}

proof fn lemma_first_dot(w: Seq<char>, f: Seq<char>)
    requires
        forall|i: int| 0 <= i < w.len() ==> digit(#[trigger] w[i]),
    ensures
        first_either(w.push('.') + f, '.', '.') == w.len(),
    decreases w.len(),
{
    let s = w.push('.') + f;
    if w.len() > 0 {
        let t = w.skip(1);
        assert forall|i: int| 0 <= i < t.len() implies digit(#[trigger] t[i]) by {
            assert(t[i] == w[i + 1]);
        }
        lemma_first_dot(t, f);
        assert(s.skip(1) =~= t.push('.') + f);
        assert(s[0] == w[0]);
    }
}

proof fn lemma_digits_kept(w: Seq<char>)
    requires
        forall|i: int| 0 <= i < w.len() ==> digit(#[trigger] w[i]),
    ensures
        digits_only(w) == w,
    decreases w.len(),
{
    reveal(Seq::filter);
    if w.len() > 0 {
        let t = w.drop_last();
        assert forall|i: int| 0 <= i < t.len() implies digit(#[trigger] t[i]) by {
            assert(t[i] == w[i]);
        }
        lemma_digits_kept(t);
        assert(t.push(w.last()) =~= w);
        assert(digit(w[w.len() - 1]));
    } else {
        assert(digits_only(w) =~= w);
    }
}

proof fn lemma_digits_split(a: Seq<char>, f: Seq<char>)
    requires
        forall|i: int| 0 <= i < f.len() ==> digit(#[trigger] f[i]),
    ensures
        digits_only(a + f) == digits_only(a) + f,
    decreases f.len(),
{
    reveal(Seq::filter);
    let s = a + f;
    if f.len() == 0 {
        assert(s =~= a);
        assert(digits_only(a) + f =~= digits_only(a));
    } else {
        let t = f.drop_last();
        assert forall|i: int| 0 <= i < t.len() implies digit(#[trigger] t[i]) by {
            assert(t[i] == f[i]);
        }
        lemma_digits_split(a, t);
        assert(s.drop_last() =~= a + t);
        assert(digit(f[f.len() - 1]));
        assert((digits_only(a) + t).push(f.last()) =~= digits_only(a) + f);
    }
}

/// The nearest double is at most half of the distance of its neighbours away, and an integer
/// that is one stays.
pub proof fn law_the_nearest_double_is_near(w: nat, more: bool)
    requires
        w >= TWO_53,
    ensures
        ({
            let d = nearest_double(w, more);
            let u = spacing(w);
            &&& d % u == 0
            &&& w % u == 0 && !more ==> d == w
            &&& d <= w ==> (w - d) * 2 <= u
            &&& d > w ==> (d - w) * 2 <= u
            &&& u >= 2
            &&& TWO_52 * u <= w < TWO_53 * u
        }),
{
    lemma_spacing(w);
    let u = spacing(w);
    let q = w / u;
    let r = w % u;
    assert(q * u + r == w && 0 <= r < u) by (nonlinear_arith)
        requires
            q == w / u,
            r == w % u,
            u >= 1,
    ;
    assert((q * u) % u == 0 && (q * u + u) % u == 0) by (nonlinear_arith)
        requires
            u >= 1,
            q >= 0,
    ;
    assert(u == 2 * spacing(w / 2));
    assert(spacing(w / 2) >= 1) by {
        lemma_spacing(w / 2);
    }
}

/// How fast a reply came is what the timings say, else the number of its tokens over the time
/// that they took; without either it is not known.
pub proof fn law_where_the_rate_comes_from(v: JsonV, a: nat, b: nat, n: nat)
    requires
        a > 0 && b > 0 && 0 < n <= u64::MAX,
    ensures
        ({
            let t = v.at("timings"@);
            &&& t.field("predicted_per_second"@) == Some(JsonV::Int(a as int)) ==> rate_of(v)
                == Some(RateV::PerSecond(decimal(a)))
            &&& t.field("predicted_per_second"@) is None && t.field("predicted_n"@) == Some(
                JsonV::Int(n as int),
            ) && t.field("predicted_ms"@) == Some(JsonV::Int(b as int)) ==> rate_of(v) == Some(
                RateV::Over { tokens: n, millis: decimal(b) },
            )
            &&& t.field("predicted_per_second"@) is None && t.field("predicted_ms"@) is None
                ==> rate_of(v) is None
            &&& v.field("timings"@) is None ==> rate_of(v) is None
        }),
{
}

} // verus!
