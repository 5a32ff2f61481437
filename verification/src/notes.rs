//! The hidden notes that are put beside a user's message.

use vstd::prelude::*;
use crate::json::opt_text;

verus! {

/// The skill that a message calls for.
#[derive(Debug, PartialEq, Eq)]
pub enum SkillPick {
    NoSkill,
    /// Its text.
    Card(String),
    /// Its name, where its text is too long to be put in.
    TooLong(String),
}

/// What is at hand for notes, and which notes the transcript holds already.
#[derive(Debug, PartialEq, Eq)]
pub struct NoteState {
    pub memory_live: bool,
    pub memory_card: Option<String>,
    pub skill_live: bool,
    pub skill: SkillPick,
    /// There is a tool for outside servers.
    pub mcp_tool: bool,
    pub mcp_live: bool,
    pub mcp_card: Option<String>,
    pub plan_mode: bool,
    pub plan_live: bool,
    pub clarify_mode: bool,
    pub clarify_live: bool,
    pub narrate: bool,
    pub style_live: bool,
    /// The message speaks of timed jobs.
    pub wants_cron: bool,
    pub cron_live: bool,
}

/// A note to put in.
#[derive(Debug, PartialEq, Eq)]
pub enum Note {
    Memory(String),
    Skill(String),
    /// Nothing is put in; the user is told that this skill is too long.
    SkillTooLong(String),
    Mcp(String),
    Plan,
    Clarify,
    Style,
    Cron,
}

pub ghost enum NoteV {
    Memory(Seq<char>),
    Skill(Seq<char>),
    SkillTooLong(Seq<char>),
    Mcp(Seq<char>),
    Plan,
    Clarify,
    Style,
    Cron,
}

impl View for Note {
    type V = NoteV;

    open spec fn view(&self) -> NoteV {
        match self {
            Note::Memory(s) => NoteV::Memory(s@),
            Note::Skill(s) => NoteV::Skill(s@),
            Note::SkillTooLong(s) => NoteV::SkillTooLong(s@),
            Note::Mcp(s) => NoteV::Mcp(s@),
            Note::Plan => NoteV::Plan,
            Note::Clarify => NoteV::Clarify,
            Note::Style => NoteV::Style,
            Note::Cron => NoteV::Cron,
        }
    }
}

pub open spec fn notes_view(v: Seq<Note>) -> Seq<NoteV> {
    v.map_values(|n: Note| n@)
}

pub open spec fn one_if(on: bool, n: NoteV) -> Seq<NoteV> {
    if on {
        seq![n]
    } else {
        Seq::empty()
    }
}

pub open spec fn memory_notes(s: NoteState) -> Seq<NoteV> {
    match opt_text(s.memory_card) {
        Some(c) => one_if(!s.memory_live, NoteV::Memory(c)),
        None => Seq::empty(),
    }
}

pub open spec fn skill_notes(s: NoteState) -> Seq<NoteV> {
    match s.skill {
        SkillPick::NoSkill => Seq::empty(),
        SkillPick::Card(c) => one_if(!s.skill_live, NoteV::Skill(c@)),
        SkillPick::TooLong(n) => one_if(!s.skill_live, NoteV::SkillTooLong(n@)),
    }
}

pub open spec fn mcp_notes(s: NoteState) -> Seq<NoteV> {
    match opt_text(s.mcp_card) {
        Some(c) => one_if(s.mcp_tool && !s.mcp_live, NoteV::Mcp(c)),
        None => Seq::empty(),
    }
}

/// The notes to put in, in their order: each at most once, and none that the
/// transcript holds already.
pub open spec fn planned_notes(s: NoteState) -> Seq<NoteV> {
    memory_notes(s) + skill_notes(s) + mcp_notes(s) + one_if(
        s.plan_mode && !s.plan_live,
        NoteV::Plan,
    ) + one_if((s.plan_mode || s.clarify_mode) && !s.clarify_live, NoteV::Clarify) + one_if(
        s.narrate && !s.style_live,
        NoteV::Style,
    ) + one_if(s.wants_cron && !s.cron_live, NoteV::Cron)
}

fn push_if(out: &mut Vec<Note>, on: bool, n: Note)
    ensures
        notes_view(final(out)@) == notes_view(old(out)@) + one_if(on, n@),
{
    if on {
        out.push(n);
    }
    assert(notes_view(out@) =~= notes_view(old(out)@) + one_if(on, n@));
}

/// The notes to put in beside a user's message, in their order.
pub fn inject_notes(s: NoteState) -> (r: Vec<Note>)
    ensures
        notes_view(r@) == planned_notes(s),
{
    let ghost st = s;
    let mut out: Vec<Note> = Vec::new();
    assert(notes_view(out@) =~= Seq::<NoteV>::empty());
    if let Some(c) = s.memory_card {
        push_if(&mut out, !s.memory_live, Note::Memory(c));
    }
    assert(notes_view(out@) =~= memory_notes(st));
    match s.skill {
        SkillPick::NoSkill => {},
        SkillPick::Card(c) => {
            push_if(&mut out, !s.skill_live, Note::Skill(c));
        },
        SkillPick::TooLong(n) => {
            push_if(&mut out, !s.skill_live, Note::SkillTooLong(n));
        },
    }
    assert(notes_view(out@) =~= memory_notes(st) + skill_notes(st));
    if let Some(c) = s.mcp_card {
        push_if(&mut out, s.mcp_tool && !s.mcp_live, Note::Mcp(c));
    }
    assert(notes_view(out@) =~= memory_notes(st) + skill_notes(st) + mcp_notes(st));
    push_if(&mut out, s.plan_mode && !s.plan_live, Note::Plan);
    push_if(&mut out, (s.plan_mode || s.clarify_mode) && !s.clarify_live, Note::Clarify);
    push_if(&mut out, s.narrate && !s.style_live, Note::Style);
    push_if(&mut out, s.wants_cron && !s.cron_live, Note::Cron);
    out
}

/// What the user's message asks for by name.
#[derive(Debug, PartialEq, Eq)]
pub struct Forced {
    /// The skill that it names: nothing where it names none, and no skill where there is
    /// none of that name.
    pub skill: Option<SkillPick>,
    /// It names an outside server.
    pub mcp: bool,
}

/// The state after a message named a skill or a server: the notes of that kind are put
/// away, and a skill that was named goes before one that the message calls for otherwise.
pub open spec fn forced_state(s: NoteState, f: Forced) -> NoteState {
    NoteState {
        skill_live: s.skill_live && f.skill is None,
        skill: match f.skill {
            Some(SkillPick::Card(c)) => SkillPick::Card(c),
            Some(SkillPick::TooLong(n)) => SkillPick::TooLong(n),
            _ => s.skill,
        },
        mcp_live: s.mcp_live && !f.mcp,
        ..s
    }
}

/// What is done about notes.
#[derive(Debug, PartialEq, Eq)]
pub struct NotePlan {
    /// The live notes on skills are put away first.
    pub put_away_skill: bool,
    /// The live notes on servers are put away before those on them are put in.
    pub put_away_mcp: bool,
    pub notes: Vec<Note>,
}

/// What is done about notes beside a user's message.
pub fn plan_notes(s: NoteState, f: Forced) -> (r: NotePlan)
    ensures
        r.put_away_skill == (s.skill_live && f.skill is Some),
        r.put_away_mcp == (s.mcp_live && f.mcp),
        notes_view(r.notes@) == planned_notes(forced_state(s, f)),
{
    let put_away_skill: bool = s.skill_live && f.skill.is_some();
    let put_away_mcp: bool = s.mcp_live && f.mcp;
    let skill_live: bool = s.skill_live && f.skill.is_none();
    let mcp_live: bool = s.mcp_live && !f.mcp;
    let skill: SkillPick = match f.skill {
        Some(SkillPick::Card(c)) => SkillPick::Card(c),
        Some(SkillPick::TooLong(n)) => SkillPick::TooLong(n),
        _ => s.skill,
    };
    let after = NoteState { skill_live, skill, mcp_live, ..s };
    NotePlan { put_away_skill, put_away_mcp, notes: inject_notes(after) }
}

/// What follows where the output of tools calls for a skill.
#[derive(Debug, PartialEq, Eq)]
pub struct SkillSwap {
    /// The skill notes of the transcript are put away.
    pub stub_old: bool,
    pub card: Option<String>,
}

/// What follows where the output of tools calls for a skill: the note on it takes the
/// place of the one that is there. `skill` is nothing where the output calls for none,
/// and holds no text where the skill is too long.
pub fn inject_skill_from_tools(skill: Option<Option<String>>, skill_live: bool) -> (r: Option<
    SkillSwap,
>)
    ensures
        r is Some <==> skill is Some,
        r matches Some(s) ==> s.stub_old == skill_live && opt_text(s.card) == opt_text(skill->0),
{
    match skill {
        None => None,
        Some(card) => Some(SkillSwap { stub_old: skill_live, card }),
    }
}

// ---------------------------------------------------------------------------
// Laws
// ---------------------------------------------------------------------------

/// The place of a kind of note among the others.
pub open spec fn rank(n: NoteV) -> int {
    match n {
        NoteV::Memory(_) => 0,
        NoteV::Skill(_) => 1,
        NoteV::SkillTooLong(_) => 1,
        NoteV::Mcp(_) => 2,
        NoteV::Plan => 3,
        NoteV::Clarify => 4,
        NoteV::Style => 5,
        NoteV::Cron => 6,
    }
}

/// Whether the transcript holds a note of the kind at place `k`.
pub open spec fn live(s: NoteState, k: int) -> bool {
    if k == 0 {
        s.memory_live
    } else if k == 1 {
        s.skill_live
    } else if k == 2 {
        s.mcp_live
    } else if k == 3 {
        s.plan_live
    } else if k == 4 {
        s.clarify_live
    } else if k == 5 {
        s.style_live
    } else {
        s.cron_live
    }
}

/// The notes stand in the order of their kinds, each kind once, all kinds are below
/// `k`, and the transcript holds none of them.
pub open spec fn in_order_below(s: NoteState, ns: Seq<NoteV>, k: int) -> bool {
    &&& forall|i: int|
        0 <= i < ns.len() ==> rank(#[trigger] ns[i]) < k && !live(s, rank(ns[i]))
    &&& forall|i: int, j: int|
        0 <= i < j < ns.len() ==> rank(#[trigger] ns[i]) < rank(#[trigger] ns[j])
}

proof fn lemma_next_kind(s: NoteState, a: Seq<NoteV>, b: Seq<NoteV>, k: int)
    requires
        in_order_below(s, a, k),
        b.len() <= 1,
        b.len() == 1 ==> rank(b[0]) == k && !live(s, k),
    ensures
        in_order_below(s, a + b, k + 1),
{
}

/// The notes that are put in come in a fixed order, each kind at most once, and none
/// that the transcript holds already.
pub proof fn law_live_notes_are_not_repeated(s: NoteState)
    ensures
        in_order_below(s, planned_notes(s), 7),
{
    let n0 = Seq::<NoteV>::empty();
    let n1 = memory_notes(s);
    let n2 = n1 + skill_notes(s);
    let n3 = n2 + mcp_notes(s);
    let n4 = n3 + one_if(s.plan_mode && !s.plan_live, NoteV::Plan);
    let n5 = n4 + one_if((s.plan_mode || s.clarify_mode) && !s.clarify_live, NoteV::Clarify);
    let n6 = n5 + one_if(s.narrate && !s.style_live, NoteV::Style);
    let n7 = n6 + one_if(s.wants_cron && !s.cron_live, NoteV::Cron);
    lemma_next_kind(s, n0, n1, 0);
    assert(n0 + n1 =~= n1);
    lemma_next_kind(s, n1, skill_notes(s), 1);
    lemma_next_kind(s, n2, mcp_notes(s), 2);
    lemma_next_kind(s, n3, one_if(s.plan_mode && !s.plan_live, NoteV::Plan), 3);
    lemma_next_kind(
        s,
        n4,
        one_if((s.plan_mode || s.clarify_mode) && !s.clarify_live, NoteV::Clarify),
        4,
    );
    lemma_next_kind(s, n5, one_if(s.narrate && !s.style_live, NoteV::Style), 5);
    lemma_next_kind(s, n6, one_if(s.wants_cron && !s.cron_live, NoteV::Cron), 6);
    assert(n7 == planned_notes(s));
}

/// A skill that the message names is put in, whatever notes are live and whatever else the
/// message calls for; and a server that it names is, where there is a tool for it.
pub proof fn law_named_notes_are_put_in(s: NoteState, f: Forced)
    ensures
        f.skill matches Some(SkillPick::Card(c)) ==> planned_notes(forced_state(s, f)).contains(
            NoteV::Skill(c@),
        ),
        f.mcp && s.mcp_tool ==> (opt_text(s.mcp_card) matches Some(c) ==> planned_notes(
            forced_state(s, f),
        ).contains(NoteV::Mcp(c))),
{
    let t = forced_state(s, f);
    let all = planned_notes(t);
    let a = memory_notes(t);
    let b = skill_notes(t);
    let c = mcp_notes(t);
    if let Some(SkillPick::Card(x)) = f.skill {
        assert(b =~= seq![NoteV::Skill(x@)]);
        assert(all[a.len() as int] == b[0]);
    }
    if f.mcp && s.mcp_tool && opt_text(s.mcp_card) is Some {
        assert(c =~= seq![NoteV::Mcp(opt_text(s.mcp_card)->0)]);
        assert(all[(a + b).len() as int] == c[0]);
    }
}

/// Each note is put in exactly where it is called for and the transcript does not hold one
/// of its kind.
pub proof fn law_each_note_has_its_occasion(s: NoteState, c: Seq<char>)
    ensures
        ({
            let ns = planned_notes(s);
            &&& ns.contains(NoteV::Memory(c)) <==> opt_text(s.memory_card) == Some(c)
                && !s.memory_live
            &&& ns.contains(NoteV::Skill(c)) <==> (s.skill matches SkillPick::Card(k) && k@ == c)
                && !s.skill_live
            &&& ns.contains(NoteV::SkillTooLong(c)) <==> (s.skill matches SkillPick::TooLong(k)
                && k@ == c) && !s.skill_live
            &&& ns.contains(NoteV::Mcp(c)) <==> opt_text(s.mcp_card) == Some(c) && s.mcp_tool
                && !s.mcp_live
            &&& ns.contains(NoteV::Plan) <==> s.plan_mode && !s.plan_live
            &&& ns.contains(NoteV::Clarify) <==> (s.plan_mode || s.clarify_mode) && !s.clarify_live
            &&& ns.contains(NoteV::Style) <==> s.narrate && !s.style_live
            &&& ns.contains(NoteV::Cron) <==> s.wants_cron && !s.cron_live
        }),
{
    let a = memory_notes(s);
    let b = skill_notes(s);
    let d = mcp_notes(s);
    let e = one_if(s.plan_mode && !s.plan_live, NoteV::Plan);
    let f = one_if((s.plan_mode || s.clarify_mode) && !s.clarify_live, NoteV::Clarify);
    let g = one_if(s.narrate && !s.style_live, NoteV::Style);
    let h = one_if(s.wants_cron && !s.cron_live, NoteV::Cron);
    lemma_one_if(s.plan_mode && !s.plan_live, NoteV::Plan);
    lemma_one_if((s.plan_mode || s.clarify_mode) && !s.clarify_live, NoteV::Clarify);
    lemma_one_if(s.narrate && !s.style_live, NoteV::Style);
    lemma_one_if(s.wants_cron && !s.cron_live, NoteV::Cron);
    if let Some(m) = opt_text(s.memory_card) {
        lemma_one_if(!s.memory_live, NoteV::Memory(m));
    }
    if let Some(m) = opt_text(s.mcp_card) {
        lemma_one_if(s.mcp_tool && !s.mcp_live, NoteV::Mcp(m));
    }
    match s.skill {
        SkillPick::NoSkill => {},
        SkillPick::Card(k) => lemma_one_if(!s.skill_live, NoteV::Skill(k@)),
        SkillPick::TooLong(k) => lemma_one_if(!s.skill_live, NoteV::SkillTooLong(k@)),
    }
    lemma_either(a, b);
    lemma_either(a + b, d);
    lemma_either(a + b + d, e);
    lemma_either(a + b + d + e, f);
    lemma_either(a + b + d + e + f, g);
    lemma_either(a + b + d + e + f + g, h);
}

proof fn lemma_one_if(on: bool, n: NoteV)
    ensures
        forall|x: NoteV| #[trigger] one_if(on, n).contains(x) <==> on && x == n,
{
    if on {
        assert(one_if(on, n)[0] == n);
    }
}

proof fn lemma_either(a: Seq<NoteV>, b: Seq<NoteV>)
    ensures
        forall|x: NoteV| #[trigger] (a + b).contains(x) <==> a.contains(x) || b.contains(x),
{
    let s = a + b;
    assert forall|x: NoteV| #[trigger] s.contains(x) <==> a.contains(x) || b.contains(x) by {
        if a.contains(x) {
            let i = choose|i: int| 0 <= i < a.len() && a[i] == x;
            assert(s[i] == x);
        }
        if b.contains(x) {
            let i = choose|i: int| 0 <= i < b.len() && b[i] == x;
            assert(s[a.len() + i] == x);
        }
        if s.contains(x) {
            let i = choose|i: int| 0 <= i < s.len() && s[i] == x;
            if i < a.len() {
                assert(a[i] == x);
            } else {
                assert(b[i - a.len()] == x);
            }
        }
    }
}

} // verus!
