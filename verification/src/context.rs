//! The context window: when to compact, what is kept, and what the model is told of
//! it.

use vstd::prelude::*;
use crate::text::{
    decimal, is_sorted_before, join, joined, lemma_sorted_total, lemma_sorted_trans, show_u64,
    sorted_before, text2, texts,
};

verus! {

/// The prefix from which a new user turn is compacted.
pub const TURN_START_COMPACT_PREFIX: u32 = 120000;

/// The results of tools from which a follow-up is compacted.
pub const TURN_START_COMPACT_TOOLS: usize = 8;

/// The pictures above which a follow-up is compacted.
pub const TURN_START_COMPACT_IMAGES: u64 = 4;

pub open spec fn smaller(a: nat, b: nat) -> nat {
    if a <= b {
        a
    } else {
        b
    }
}

pub open spec fn larger(a: nat, b: nat) -> nat {
    if a >= b {
        a
    } else {
        b
    }
}

/// The room kept for the reply: a quarter of the window at most, but at least 64
/// tokens, and always less than the window. Without a window it is as asked.
pub open spec fn reserve_in(window: nat, reserve: nat) -> nat {
    if window == 0 {
        reserve
    } else {
        smaller(reserve, smaller(larger(window / 4, 64), (window - 1) as nat))
    }
}

/// The room kept for the reply.
pub fn clamp_generation_reserve(window: u32, reserve: u32) -> (r: u32)
    ensures
        r == reserve_in(window as nat, reserve as nat),
{
    if window == 0 {
        return reserve;
    }
    let quarter: u32 = if window / 4 >= 64 {
        window / 4
    } else {
        64
    };
    let cap: u32 = if quarter <= window - 1 {
        quarter
    } else {
        window - 1
    };
    if reserve <= cap {
        reserve
    } else {
        cap
    }
}

pub open spec fn sum32(a: nat, b: nat) -> nat {
    smaller(a + b, u32::MAX as nat)
}

fn add32(a: u32, b: u32) -> (r: u32)
    ensures
        r == sum32(a as nat, b as nat),
{
    if b > u32::MAX - a {
        u32::MAX
    } else {
        a + b
    }
}

/// Whether prefix and reserve do not fit in the window. Without a window they do.
pub fn over_hard_threshold(prefix: u32, reserve: u32, working_window: u32) -> (r: bool)
    ensures
        r == (working_window != 0 && sum32(prefix as nat, reserve as nat) > working_window),
{
    working_window != 0 && add32(prefix, reserve) > working_window
}

/// Whether a new user turn is compacted first; `over_soft` says that it passes the
/// fraction of the window from which it is.
pub fn should_compact_at_user_turn(prefix: u32, working_window: u32, over_soft: bool) -> (r: bool)
    ensures
        r == (working_window != 0 && (over_soft || prefix > 120000)),
{
    working_window != 0 && (over_soft || prefix > TURN_START_COMPACT_PREFIX)
}

/// Whether a follow-up is compacted first: also where the last turn was heavy on tools
/// or on pictures.
pub fn should_compact_follow_up(
    prefix: u32,
    working_window: u32,
    over_soft: bool,
    tool_messages: usize,
    image_parts: u64,
    tool_threshold: usize,
) -> (r: bool)
    ensures
        r == (working_window != 0 && (tool_messages >= tool_threshold || image_parts > 4
            || over_soft || prefix > 120000)),
{
    if working_window == 0 {
        return false;
    }
    tool_messages >= tool_threshold || image_parts > TURN_START_COMPACT_IMAGES
        || should_compact_at_user_turn(prefix, working_window, over_soft)
}

// ---------------------------------------------------------------------------
// Compacting in a turn
// ---------------------------------------------------------------------------

/// What to do with a context in the middle of a turn.
#[derive(Debug, Clone, Copy, PartialEq, Eq, Structural)]
pub enum CompactStep {
    /// It is short enough.
    Done,
    /// Compact it once more.
    Pass,
    /// It cannot be made shorter; what counts is whether it fits at all.
    Judge,
}

/// After `passes` passes, of which the last changed something or not: two at most.
pub open spec fn compact_step(window: u32, passes: nat, changed: bool, over_soft: bool) -> CompactStep {
    if window == 0 {
        CompactStep::Done
    } else if passes > 0 && !changed {
        CompactStep::Judge
    } else if !over_soft {
        CompactStep::Done
    } else if passes < 2 {
        CompactStep::Pass
    } else {
        CompactStep::Judge
    }
}

/// What to do with a context after `passes` passes.
pub fn compact_if_needed(working_window: u32, passes: u32, changed: bool, over_soft: bool) -> (r:
    CompactStep)
    ensures
        r == compact_step(working_window, passes as nat, changed, over_soft),
{
    if working_window == 0 {
        CompactStep::Done
    } else if passes > 0 && !changed {
        CompactStep::Judge
    } else if !over_soft {
        CompactStep::Done
    } else if passes < 2 {
        CompactStep::Pass
    } else {
        CompactStep::Judge
    }
}

/// Why a context ends a turn.
pub open spec fn budget_text(prefix: nat, reserve: nat, window: nat) -> Seq<char> {
    "budget:context ("@ + decimal(prefix) + " prefix + "@ + decimal(reserve) + " reserve > "@
        + decimal(window) + " window)"@
}

/// Why a context that was compacted as far as it goes ends a turn, where it does.
/// `prefix` is its length, where it is known.
pub fn context_budget(prefix: Option<u32>, reserve: u32, working_window: u32) -> (r: Option<String>)
    ensures
        r is Some <==> prefix is Some && working_window != 0 && sum32(
            prefix->0 as nat,
            reserve as nat,
        ) > working_window,
        r matches Some(s) ==> s@ == budget_text(
            prefix->0 as nat,
            reserve as nat,
            working_window as nat,
        ),
{
    let n: u32 = match prefix {
        Some(n) => n,
        None => {
            return None;
        },
    };
    if !over_hard_threshold(n, reserve, working_window) {
        return None;
    }
    let mut s: String = text2("budget:context (", show_u64(n as u64).as_str());
    s.append(" prefix + ");
    s.append(show_u64(reserve as u64).as_str());
    s.append(" reserve > ");
    s.append(show_u64(working_window as u64).as_str());
    s.append(" window)");
    Some(s)
}

/// A context that does not fit ends the turn as a cap does.
pub proof fn law_context_budget_is_a_cap(prefix: nat, reserve: nat, window: nat)
    ensures
        crate::drive::physics_stop(budget_text(prefix, reserve, window)),
{
    reveal_strlit("budget:context");
    reveal_strlit("budget:context (");
    let s = budget_text(prefix, reserve, window);
    let p = "budget:context"@;
    let q = "budget:context ("@;
    assert(s.subrange(0, p.len() as int) =~= p) by {
        assert forall|i: int| 0 <= i < p.len() implies s[i] == p[i] by {
            assert(s[i] == q[i]);
        }
    }
}

/// Compacting comes to an end: after two passes it is done or judged.
pub proof fn law_compacting_ends(window: u32, passes: nat, changed: bool, over_soft: bool)
    ensures
        passes >= 2 ==> compact_step(window, passes, changed, over_soft) != CompactStep::Pass,
        compact_step(window, passes, changed, over_soft) == CompactStep::Pass ==> over_soft,
{
}

// ---------------------------------------------------------------------------
// What was read before
// ---------------------------------------------------------------------------

/// The texts stand in order.
pub open spec fn sorted(v: Seq<Seq<char>>) -> bool {
    forall|i: int, j: int| 0 <= i < j < v.len() ==> sorted_before(#[trigger] v[i], #[trigger] v[j])
}

fn insert_sorted(v: &mut Vec<String>, s: String)
    requires
        sorted(texts(old(v)@)),
    ensures
        sorted(texts(final(v)@)),
        texts(final(v)@).to_multiset() == texts(old(v)@).to_multiset().insert(s@),
        final(v)@.len() == old(v)@.len() + 1,
{
    let ghost before = texts(v@);
    let mut i: usize = 0;
    while i < v.len() && is_sorted_before(v[i].as_str(), s.as_str())
        invariant
            i <= v@.len(),
            before == texts(v@),
            forall|j: int| 0 <= j < i ==> sorted_before(#[trigger] before[j], s@),
        decreases v.len() - i,
    {
        assert(before[i as int] == v@[i as int]@);
        i = i + 1;
    }
    if i < v.len() {
        assert(before[i as int] == v@[i as int]@);
    }
    let ghost x = s@;
    v.insert(i, s);
    proof {
        let after = texts(v@);
        assert(after =~= before.insert(i as int, x));
        after.to_multiset_ensures();
        assert(after.remove(i as int) =~= before);
        assert(after[i as int] == x);
        assert(after.contains(x));
        assert(after.to_multiset() =~= before.to_multiset().insert(x));
        assert forall|a: int, b: int| 0 <= a < b < after.len() implies sorted_before(
            #[trigger] after[a],
            #[trigger] after[b],
        ) by {
            let av = if a < i {
                a
            } else {
                a - 1
            };
            let bv = if b < i {
                b
            } else {
                b - 1
            };
            if a == i {
                assert(after[b] == before[bv]);
                lemma_sorted_total(x, before[i as int]);
                if bv > i {
                    lemma_sorted_trans(x, before[i as int], before[bv]);
                }
            } else if b == i {
                assert(after[a] == before[av]);
            } else {
                assert(after[a] == before[av] && after[b] == before[bv]);
            }
        }
    }
}

/// `v` holds the texts of `all`, in order.
pub open spec fn sorts(v: Seq<Seq<char>>, all: Seq<Seq<char>>) -> bool {
    sorted(v) && v.to_multiset() == all.to_multiset()
}

/// The texts in order.
pub fn sort_texts(all: &Vec<String>) -> (r: Vec<String>)
    ensures
        sorts(texts(r@), texts(all@)),
        r@.len() == all@.len(),
{
    let ghost av = texts(all@);
    let mut out: Vec<String> = Vec::new();
    let mut i: usize = 0;
    assert(texts(out@) =~= av.take(0));
    while i < all.len()
        invariant
            i <= all@.len(),
            av == texts(all@),
            out@.len() == i,
            sorts(texts(out@), av.take(i as int)),
        decreases all.len() - i,
    {
        proof {
            assert(av.take(i + 1) =~= av.take(i as int).push(all@[i as int]@));
            av.take(i as int).to_multiset_ensures();
        }
        insert_sorted(&mut out, all[i].clone());
        i = i + 1;
    }
    assert(av.take(i as int) =~= av);
    out
}

/// At most sixteen of the files.
pub open spec fn first_sixteen(v: Seq<Seq<char>>) -> Seq<Seq<char>> {
    if v.len() <= 16 {
        v
    } else {
        v.take(16)
    }
}

/// What the model is told of files that it read before the context was compacted: the
/// first sixteen in order. Where it read none, nothing.
pub fn compacted_reads(read: &Vec<String>) -> (r: Option<String>)
    ensures
        r is Some <==> read@.len() > 0,
        r matches Some(s) ==> exists|v: Seq<Seq<char>>| #[trigger]
            sorts(v, texts(read@)) && s@
                == "[compact] prior reads left the live window. Files still on disk — page with read(path, offset, limit); do not repeat the same unpaged read:\n"@
                + joined(first_sixteen(v), "\n"@),
{
    if read.len() == 0 {
        return None;
    }
    let mut v = sort_texts(read);
    let ghost all = texts(v@);
    if v.len() > 16 {
        v.truncate(16);
        assert(texts(v@) =~= all.take(16));
    }
    assert(texts(v@) =~= first_sixteen(all));
    assert(sorts(all, texts(read@)));
    Some(
        text2(
            "[compact] prior reads left the live window. Files still on disk — page with read(path, offset, limit); do not repeat the same unpaged read:\n",
            join(&v, "\n").as_str(),
        ),
    )
}

/// What the model is told where the environment replaces the configured window.
pub open spec fn overlay_text(from_env: nat, from_file: nat, window: nat) -> Seq<char> {
    "Q38_WORKING_WINDOW="@ + decimal(from_env) + " overlays config.toml working_window="@
        + decimal(from_file) + ". Live window is "@ + decimal(window)
        + ". Unset Q38_WORKING_WINDOW to use the file. Page large files with read(path, offset, limit)."@
}

/// What the model is told where the environment replaces the configured window.
pub fn inject_window_overlay_note(from_env: u32, from_file: u32, window: u32) -> (r: String)
    ensures
        r@ == overlay_text(from_env as nat, from_file as nat, window as nat),
{
    let mut s: String = text2("Q38_WORKING_WINDOW=", show_u64(from_env as u64).as_str());
    s.append(" overlays config.toml working_window=");
    s.append(show_u64(from_file as u64).as_str());
    s.append(". Live window is ");
    s.append(show_u64(window as u64).as_str());
    s.append(
        ". Unset Q38_WORKING_WINDOW to use the file. Page large files with read(path, offset, limit).",
    );
    s
}

// ---------------------------------------------------------------------------
// Laws
// ---------------------------------------------------------------------------

/// The room kept for the reply never fills the window and never exceeds what was asked.
pub proof fn law_reserve_leaves_room(window: nat, reserve: nat)
    ensures
        reserve_in(window, reserve) <= reserve,
        window > 0 ==> reserve_in(window, reserve) < window,
{
}

/// The room for the reply is as asked for, up to a quarter of the window and 64 tokens, and
/// the most that these allow beyond.
pub proof fn law_the_reserve_is_as_large_as_it_may_be(window: nat, reserve: nat)
    requires
        window > 0,
    ensures
        reserve < window && (reserve <= 64 || reserve * 4 <= window) ==> reserve_in(window, reserve)
            == reserve,
        reserve_in(window, reserve) <= 64 || reserve_in(window, reserve) * 4 <= window,
        reserve_in(window, reserve) < reserve ==> reserve_in(window, reserve) == window - 1
            || reserve_in(window, reserve) == 64 || reserve_in(window, reserve) == window / 4,
        window >= 256 && reserve >= window / 4 ==> reserve_in(window, reserve) == window / 4,
        reserve_in(0, reserve) == reserve,
{
}

/// A context is compacted while it is over its mark and compacting helps, twice at most;
/// then it is judged. One that is short enough, or without a window, is left alone.
pub proof fn law_compacting_stops_when_it_helps_no_more(window: u32, passes: nat, over: bool)
    requires
        window > 0,
    ensures
        compact_step(window, 0, true, true) == CompactStep::Pass,
        compact_step(window, 0, true, false) == CompactStep::Done,
        compact_step(window, 1, true, true) == CompactStep::Pass,
        passes > 0 ==> compact_step(window, passes, false, over) == CompactStep::Judge,
        passes > 0 ==> compact_step(window, passes, true, false) == CompactStep::Done,
        passes >= 2 ==> compact_step(window, passes, true, true) == CompactStep::Judge,
        compact_step(0, passes, true, over) == CompactStep::Done,
{
}

/// The sum of two lengths is their sum, as far as it can be counted.
pub proof fn law_lengths_add_up(a: nat, b: nat)
    ensures
        a + b <= u32::MAX ==> sum32(a, b) == a + b,
        a + b > u32::MAX ==> sum32(a, b) == u32::MAX,
{
}

/// The files that are named after compacting are the first sixteen, all where there are
/// fewer.
pub proof fn law_sixteen_files_are_named(v: Seq<Seq<char>>)
    ensures
        v.len() <= 16 ==> first_sixteen(v) == v,
        v.len() > 16 ==> first_sixteen(v).len() == 16 && first_sixteen(v).is_prefix_of(v),
{
}

/// What is said of a context that does not fit: how long it is, what is kept for the reply,
/// and how large the window is.
pub proof fn law_what_is_said_of_a_full_context(prefix: nat, reserve: nat, window: nat)
    ensures
        budget_text(prefix, reserve, window) == "budget:context ("@ + decimal(prefix) + " prefix + "@
            + decimal(reserve) + " reserve > "@ + decimal(window) + " window)"@,
{
}

/// What is said of a replaced window names the variable, both windows and the one in force.
pub proof fn law_what_is_said_of_a_replaced_window(a: nat, b: nat, w: nat)
    ensures
        ("Q38_WORKING_WINDOW="@ + decimal(a) + " overlays config.toml working_window="@ + decimal(b)
            + ". Live window is "@ + decimal(w) + "."@).is_prefix_of(overlay_text(a, b, w)),
{
    reveal_strlit(".");
    reveal_strlit(
        ". Unset Q38_WORKING_WINDOW to use the file. Page large files with read(path, offset, limit).",
    );
    let h = "Q38_WORKING_WINDOW="@ + decimal(a) + " overlays config.toml working_window="@
        + decimal(b) + ". Live window is "@ + decimal(w);
    let f = h + "."@;
    assert(overlay_text(a, b, w).take(f.len() as int) =~= f);
}

} // verus!
