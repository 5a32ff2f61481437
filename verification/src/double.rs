//! Which decimal texts a double can hold: not those that lie beyond its largest value
//! or so near to zero that nothing is left of them.

use vstd::prelude::*;
use crate::text::{all_digits, chars_of, digit, digits_value, is_digit, signed_value};
use crate::usage::{digits_only, find_either, first_either, has_value, no_value, take_digits};

verus! {

/// The digits of the smallest number that is rounded to infinity, 2^1024 - 2^970. There
/// are 309 of them.
pub const DOUBLE_LIMIT: &'static str =
    "179769313486231580793728971405303415079934132710037826936173778980444968292764750946649017977587207096330286416692887910946555547851940402630657488671505820681908902000708383676273854845817711531764475730270069855571366959622842914819860834936475292719074168444365510704342711559699508093042880177904174497792";

/// The digits of the largest number that is rounded to zero, 2^-1075, from the first that
/// is not nought. It stands in the 324th place behind the point.
pub const DOUBLE_TRACE: &'static str =
    "24703282292062327208828439643411068618252990130716238221279284125033775363510437593264991818081799618989828234772285886546332835517796989819938739800539093906315035659515570226392290858392449105184435931802849936536152500319370457678249219365623669863658480757001585769269903706311928279558551332927834338409351978015531246597263579574622766465272827220056374006485499977096599470454020828166226237857393450736339007967761930577506740176324673600968951340535537458516661134223766678604162159680461914467291840300530057530849048765391711386591646239524912623653881879636239373280423891018672348497668235089863388587925628302755995657524455507255189313690836254779186948667994968324049705821028513185451396213837722826145437693412532098591327667236328125";

/// How many noughts stand at the front.
pub open spec fn noughts(ds: Seq<char>) -> nat
    decreases ds.len(),
{
    if ds.len() > 0 && ds[0] == '0' {
        1 + noughts(ds.skip(1))
    } else {
        0
    }
}

/// The digit at `i`, a nought behind the last one.
pub open spec fn digit_at(ds: Seq<char>, i: int) -> char {
    if 0 <= i < ds.len() {
        ds[i]
    } else {
        '0'
    }
}

/// From place `i` on, the digits behind a point that `a` writes come to less than those
/// of `b`.
pub open spec fn less_from(a: Seq<char>, b: Seq<char>, i: int) -> bool
    decreases a.len() + b.len() - i,
{
    if i < 0 || i >= a.len() + b.len() {
        false
    } else if digit_at(a, i) != digit_at(b, i) {
        digit_at(a, i) < digit_at(b, i)
    } else {
        less_from(a, b, i + 1)
    }
}

/// The number before its exponent.
pub open spec fn mantissa_of(s: Seq<char>) -> Seq<char> {
    s.take(first_either(s, 'e', 'E'))
}

/// The exponent, nought where there is none.
pub open spec fn exponent_of(s: Seq<char>) -> int {
    let at = first_either(s, 'e', 'E');
    if at < s.len() {
        match signed_value(s.skip(at + 1)) {
            Some(e) => e,
            None => 0,
        }
    } else {
        0
    }
}

/// The digits of a number from the first that is not nought.
pub open spec fn significant(s: Seq<char>) -> Seq<char> {
    let ds = digits_only(mantissa_of(s));
    ds.skip(noughts(ds) as int)
}

/// The power of ten by which the number is its significant digits behind a point.
pub open spec fn order_of(s: Seq<char>) -> int {
    let m = mantissa_of(s);
    let whole = digits_only(s.take(first_either(m, '.', '.')));
    whole.len() - noughts(digits_only(m)) + exponent_of(s)
}

/// The decimal text of a number that is rounded to infinity.
pub open spec fn too_large(s: Seq<char>) -> bool {
    !no_value(digits_only(mantissa_of(s))) && (order_of(s) > 309 || (order_of(s) == 309
        && !less_from(significant(s), DOUBLE_LIMIT@, 0)))
}

/// The decimal text of a number other than zero that is rounded to zero.
pub open spec fn too_small(s: Seq<char>) -> bool {
    !no_value(digits_only(mantissa_of(s))) && (order_of(s) < -323 || (order_of(s) == -323
        && !less_from(DOUBLE_TRACE@, significant(s), 0)))
}

fn count_noughts(ds: &Vec<char>) -> (r: usize)
    ensures
        r == noughts(ds@),
        r <= ds@.len(),
{
    let mut i: usize = 0;
    assert(ds@.skip(0) =~= ds@);
    while i < ds.len() && ds[i] == '0'
        invariant
            i <= ds@.len(),
            noughts(ds@) == i + noughts(ds@.skip(i as int)),
        decreases ds.len() - i,
    {
        assert(ds@.skip(i as int).skip(1) =~= ds@.skip(i + 1));
        i = i + 1;
    }
    i
}

fn is_less(a: &Vec<char>, b: &Vec<char>) -> (r: bool)
    ensures
        r == less_from(a@, b@, 0),
{
    let mut i: usize = 0;
    loop
        invariant
            i <= a.len() || i <= b.len(),
            less_from(a@, b@, 0) == less_from(a@, b@, i as int),
        decreases a@.len() + b@.len() - i,
    {
        if i >= a.len() && i >= b.len() {
            proof {
                lemma_nothing_left(a@, b@, i as int);
            }
            return false;
        }
        let x: char = if i < a.len() {
            a[i]
        } else {
            '0'
        };
        let y: char = if i < b.len() {
            b[i]
        } else {
            '0'
        };
        if x != y {
            return x < y;
        }
        i = i + 1;
    }
}

proof fn lemma_nothing_left(a: Seq<char>, b: Seq<char>, i: int)
    requires
        i >= a.len(),
        i >= b.len(),
    ensures
        !less_from(a, b, i),
    decreases a.len() + b.len() - i,
{
    if i < a.len() + b.len() {
        lemma_nothing_left(a, b, i + 1);
    }
}

/// The bound at which exponents are cut off.
pub open spec fn cut() -> int {
    1_000_000_000_000_000_000_000_000_000_000
}

/// An exponent that is not beyond the bound.
pub open spec fn cut_off(e: int) -> int {
    if e > cut() {
        cut()
    } else if e < -cut() {
        -cut()
    } else {
        e
    }
}

/// The number that the digits from `from` on write, cut off, where they are all digits.
fn cut_digits(cs: &Vec<char>, from: usize) -> (r: Option<i128>)
    requires
        from <= cs@.len(),
    ensures
        r is Some <==> all_digits(cs@.skip(from as int)),
        r matches Some(n) ==> n == cut_off(digits_value(cs@.skip(from as int)) as int) && n >= 0,
{
    let ghost s = cs@.skip(from as int);
    if from == cs.len() {
        return None;
    }
    let mut n: i128 = 0;
    let mut i: usize = from;
    while i < cs.len()
        invariant
            from <= i <= cs@.len(),
            s == cs@.skip(from as int),
            0 <= n <= 1_000_000_000_000_000_000_000_000_000_000,
            n == cut_off(digits_value(s.take(i - from)) as int),
            forall|j: int| 0 <= j < i - from ==> digit(#[trigger] s[j]),
        decreases cs.len() - i,
    {
        let c = cs[i];
        assert(s[i - from] == c);
        if !is_digit(c) {
            return None;
        }
        let d: i128 = (c as u32 - 48) as i128;
        assert(s.take(i - from + 1).drop_last() =~= s.take(i - from));
        assert(digits_value(s.take(i - from + 1)) == digits_value(s.take(i - from)) * 10 + d);
        n = n * 10 + d;
        if n > 1_000_000_000_000_000_000_000_000_000_000 {
            n = 1_000_000_000_000_000_000_000_000_000_000;
        }
        i = i + 1;
    }
    assert(s.take(s.len() as int) =~= s);
    Some(n)
}

fn read_exponent(cs: &Vec<char>, at: usize) -> (r: i128)
    requires
        at == first_either(cs@, 'e', 'E'),
        at <= cs@.len(),
    ensures
        r == cut_off(exponent_of(cs@)),
{
    if at == cs.len() {
        return 0;
    }
    let ghost tail = cs@.skip(at + 1);
    let from: usize = at + 1;
    if from < cs.len() && cs[from] == '-' {
        assert(tail[0] == '-');
        assert(tail.skip(1) =~= cs@.skip(from + 1));
        return match cut_digits(cs, from + 1) {
            Some(n) => -n,
            None => 0,
        };
    }
    if from < cs.len() && cs[from] == '+' {
        assert(tail[0] == '+');
        assert(tail.skip(1) =~= cs@.skip(from + 1));
        return match cut_digits(cs, from + 1) {
            Some(n) => n,
            None => 0,
        };
    }
    assert(from < cs@.len() ==> tail[0] == cs@[from as int]);
    match cut_digits(cs, from) {
        Some(n) => n,
        None => 0,
    }
}

/// Whether the number that a decimal text writes is rounded to infinity, and whether it is
/// other than zero and rounded to zero.
pub fn out_of_range(s: &str) -> (r: (bool, bool))
    ensures
        r.0 == too_large(s@),
        r.1 == too_small(s@),
{
    let cs = chars_of(s);
    assert(cs@.take(cs@.len() as int) =~= s@);
    let at: usize = find_either(&cs, 'e', 'E', cs.len());
    let point: usize = find_either(&cs, '.', '.', at);
    let ds = take_digits(&cs, at);
    if !has_value(&ds) {
        return (false, false);
    }
    let whole = take_digits(&cs, point);
    let z: usize = count_noughts(&ds);
    let mut sig: Vec<char> = Vec::new();
    let mut i: usize = z;
    while i < ds.len()
        invariant
            z <= i <= ds@.len(),
            sig@ == ds@.subrange(z as int, i as int),
        decreases ds.len() - i,
    {
        sig.push(ds[i]);
        assert(sig@ =~= ds@.subrange(z as int, i + 1));
        i = i + 1;
    }
    assert(sig@ =~= significant(s@));
    let e: i128 = read_exponent(&cs, at);
    let order: i128 = whole.len() as i128 - z as i128 + e;
    let large: bool = order > 309 || (order == 309 && !is_less(&sig, &chars_of(DOUBLE_LIMIT)));
    let small: bool = order < -323 || (order == -323 && !is_less(&chars_of(DOUBLE_TRACE), &sig));
    (large, small)
}

} // verus!
