use q38::drive::{
    is_physics_stop, CallFacts, Decision, Drive, HopFacts, ReplyFacts, EMPTY_CHANNEL_NOTE,
    EMPTY_STOP_FALLBACK, PARSE_REPAIR_NOTE, PHYSICS_WRAP_NOTE, SILENT_TOOL_NOTE,
    THINK_DIVERGENCE_NOTE,
};
use q38::json::Json;
use q38::policy::EffortEvent;
use q38::turn::ModelTurn;
use q38::turn_loop::{Event, Phase, TurnLoop};
use q38::xml_tools::ToolCall;

fn turn(content: &str, reasoning: &str, calls: &[&str]) -> ModelTurn {
    let mut t = ModelTurn::watchdog();
    t.watchdog_hit = false;
    t.content = content.to_owned();
    t.reasoning = reasoning.to_owned();
    t.prompt_tokens = 10;
    t.completion_tokens = 2;
    t.tool_calls = calls
        .iter()
        .map(|n| ToolCall {
            id: "c".to_owned(),
            name: (*n).to_owned(),
            arguments: Json::object(),
        })
        .collect();
    t
}

fn reply(without_echo: &str) -> ReplyFacts {
    ReplyFacts {
        without_echo: without_echo.to_owned(),
        stutter: false,
        stutter_note: "stutter".to_owned(),
        dumped: None,
        scratch_thought: false,
        substantial_thought: false,
    }
}

fn hop(substantial: bool, calls: Vec<CallFacts>) -> HopFacts {
    HopFacts {
        substantial,
        blockquote: false,
        anchor_substantial: false,
        restated: false,
        calls,
    }
}

fn call(name: &str) -> CallFacts {
    CallFacts {
        name: name.to_owned(),
        placeholder: false,
        restates_anchor: false,
        restates_content: false,
        cleanup: false,
        path: None,
    }
}

fn decided(decision: Decision) -> Event {
    Event::Decided {
        decision,
        silent_channel: false,
        dump_note: "dump".to_owned(),
    }
}

fn looked() -> Event {
    Event::Looked { cancelled: false }
}

fn at_asking(l: &mut TurnLoop) {
    assert_eq!(l.phase, Phase::Top);
    l.step(looked());
    assert_eq!(l.phase, Phase::Compacting);
    l.step(Event::Compacted(None));
    assert_eq!(l.phase, Phase::Asking);
}

#[test]
fn an_answer_ends_the_turn() {
    let mut l = TurnLoop::new(false);
    at_asking(&mut l);
    l.step(Event::Reply(turn("hello", "", &[])));
    assert_eq!(l.phase, Phase::Reading);
    l.step(Event::Read(reply("hello")));
    l.step(Event::Hop { facts: hop(false, vec![]), read: vec![] });
    assert_eq!(l.phase, Phase::Deciding);
    let out = l.step(decided(Decision::Bypass));
    assert_eq!(l.phase, Phase::Over);
    assert_eq!(out.effort, Some(EffortEvent::Clean));
    let end = out.finish.unwrap();
    assert_eq!(end.text, "hello");
    assert_eq!(end.stop_reason, None);
    assert_eq!(l.drive.steps, 1);
    assert_eq!(l.drive.prompt_tokens, 10);
    let after = l.step(looked());
    assert!(after.finish.is_none());
    assert_eq!(l.phase, Phase::Over);
}

#[test]
fn calls_lead_back_to_the_model() {
    let mut l = TurnLoop::new(false);
    at_asking(&mut l);
    l.step(Event::Reply(turn("reading", "", &["read"])));
    l.step(Event::Read(reply("")));
    l.step(Event::Hop { facts: hop(false, vec![call("read")]), read: vec![] });
    l.step(decided(Decision::Bypass));
    assert_eq!(l.phase, Phase::Working);
    assert!(!l.deferred);
    let out = l.step(Event::Worked { cancelled: false });
    assert!(out.again);
    assert_eq!(l.phase, Phase::Top);
}

#[test]
fn an_abort_ends_the_turn_without_a_word() {
    let mut l = TurnLoop::new(false);
    let out = l.step(Event::Looked { cancelled: true });
    let end = out.finish.unwrap();
    assert_eq!(end.text, "");
    assert_eq!(end.stop_reason.as_deref(), Some("aborted"));
    let mut l = TurnLoop::new(false);
    at_asking(&mut l);
    assert!(l.step(Event::Aborted).finish.is_some());
    assert_eq!(l.phase, Phase::Over);
}

#[test]
fn a_runaway_thought_is_asked_once_more() {
    let mut l = TurnLoop::new(false);
    at_asking(&mut l);
    let out = l.step(Event::Reply(ModelTurn::watchdog()));
    assert_eq!(l.phase, Phase::Retrying);
    assert_eq!(out.hidden, vec![THINK_DIVERGENCE_NOTE.to_owned()]);
    l.step(Event::Retried { cancelled: false, second: Some(turn("done", "", &[])) });
    assert_eq!(l.phase, Phase::Reading);
    assert_eq!(l.turn.as_ref().unwrap().content, "done");
    assert_eq!(l.drive.steps, 2);

    let mut l = TurnLoop::new(false);
    at_asking(&mut l);
    l.step(Event::Reply(ModelTurn::watchdog()));
    let out = l.step(Event::Retried { cancelled: false, second: None });
    assert_eq!(out.finish.unwrap().stop_reason, None);
    assert_eq!(l.phase, Phase::Over);
}

#[test]
fn unreadable_calls_are_asked_for_again_and_then_given_up() {
    let mut l = TurnLoop::new(false);
    for n in 1..=4 {
        at_asking(&mut l);
        let mut t = turn("<tool_call>", "", &[]);
        t.parse_fail = true;
        let out = l.step(Event::Reply(t));
        assert_eq!(out.notes, vec!["[parse] retry".to_owned()]);
        assert_eq!(out.effort, Some(EffortEvent::ParseFail));
        match n {
            1 | 2 => assert!(out.again && out.hidden.is_empty()),
            3 => assert_eq!(out.hidden, vec![PARSE_REPAIR_NOTE.to_owned()]),
            _ => assert!(out.finish.is_some()),
        }
    }
    assert_eq!(l.phase, Phase::Over);
}

#[test]
fn an_empty_reply_gets_one_wrap_up_and_a_fallback() {
    let mut l = TurnLoop::new(false);
    at_asking(&mut l);
    l.step(Event::Reply(turn("", "let me think", &[])));
    let out = l.step(Event::Read(reply("")));
    assert_eq!(out.hidden, vec![EMPTY_CHANNEL_NOTE.to_owned()]);
    at_asking(&mut l);
    l.step(Event::Reply(turn("", "", &[])));
    let out = l.step(Event::Read(reply("")));
    assert_eq!(out.finish.unwrap().text, EMPTY_STOP_FALLBACK);
}

#[test]
fn a_finished_thought_is_taken_for_the_answer() {
    let mut d = Drive::new(false);
    let mut facts = reply("");
    facts.substantial_thought = true;
    let t = turn("", "  the answer  ", &[]);
    let (content, out) = d.settle_reply(&t, &facts);
    assert_eq!(content, "the answer");
    assert!(!out.again && out.finish.is_none());
    facts.scratch_thought = true;
    let (content, out) = d.settle_reply(&t, &facts);
    assert_eq!(content, "");
    assert!(out.again);
    let long = turn("", &"字".repeat(801), &[]);
    facts.scratch_thought = false;
    assert_eq!(Drive::new(false).settle_reply(&long, &facts).0, "");
}

#[test]
fn stutter_is_remarked_upon_once() {
    let mut d = Drive::new(true);
    let mut facts = reply("a a a");
    facts.stutter = true;
    let t = turn("a a a", "", &[]);
    assert!(d.settle_reply(&t, &facts).1.again);
    assert!(!d.settle_reply(&t, &facts).1.again);
    assert!(!Drive::new(false).settle_reply(&t, &facts).1.again);
}

#[test]
fn a_repeated_answer_is_not_given_twice() {
    let mut d = Drive::new(false);
    let (off, _) = d.judge_hop("the answer", &hop(true, vec![]), &vec![]);
    assert!(!off);
    assert_eq!(d.last_spoken.as_deref(), Some("the answer"));
    let again = HopFacts {
        substantial: true,
        blockquote: false,
        anchor_substantial: true,
        restated: true,
        calls: vec![],
    };
    let (_, out) = d.judge_hop("the answer!", &again, &vec![]);
    assert_eq!(out.finish.unwrap().text, "the answer");
    let mut dump = call("write");
    dump.restates_anchor = true;
    let with_dump = HopFacts { calls: vec![dump], ..again };
    let (off, out) = d.judge_hop("the answer!", &with_dump, &vec![]);
    assert!(off && out.finish.is_none());
    let mut read = call("read");
    read.path = Some("new.rs".to_owned());
    let mut dump = call("write");
    dump.restates_anchor = true;
    let with_work = HopFacts {
        substantial: true,
        blockquote: false,
        anchor_substantial: true,
        restated: true,
        calls: vec![dump, read],
    };
    assert!(!d.judge_hop("the answer!", &with_work, &vec![]).0);
    assert!(d.judge_hop("the answer!", &with_work, &vec!["new.rs".to_owned()]).0);
}

#[test]
fn caps_wrap_up_and_then_end_quietly() {
    assert!(is_physics_stop("Max iterations (24) reached"));
    assert!(is_physics_stop("budget:context (1 prefix + 2 reserve > 2 window)"));
    assert!(!is_physics_stop("doom loop"));
    let mut d = Drive::new(false);
    let cap = Decision::Stop("Max iterations (1)".to_owned());
    let out = d.on_calls("x", &cap, false, None);
    assert_eq!(out.hidden, vec![PHYSICS_WRAP_NOTE.to_owned()]);
    assert!(d.pending_stop.is_none());
    d.on_calls("x", &cap, false, None);
    assert_eq!(d.pending_stop.as_deref(), Some(""));
    let out = d.top(false);
    assert_eq!(out.finish.unwrap().stop_reason, None);
    assert!(d.pending_stop.is_none());
    d.on_calls("x", &Decision::Stop("doom loop".to_owned()), false, None);
    let out = d.top(false);
    assert_eq!(out.finish.unwrap().stop_reason.as_deref(), Some("doom loop"));
    let out = d.on_answer("", Decision::Stop("time limit".to_owned()));
    assert_eq!(out.finish.unwrap().text, EMPTY_STOP_FALLBACK);
    let mut d = Drive::new(false);
    assert_eq!(
        d.after_compact(Some("budget:context")).hidden,
        vec![PHYSICS_WRAP_NOTE.to_owned()]
    );
    assert!(d.after_compact(Some("budget:context")).finish.is_some());
}

#[test]
fn silent_hops_are_remarked_upon_once() {
    let mut d = Drive::new(false);
    let mut remarks = 0;
    for _ in 0..8 {
        let out = d.on_calls("", &Decision::Bypass, true, None);
        remarks += out.hidden.iter().filter(|h| *h == SILENT_TOOL_NOTE).count();
    }
    assert_eq!(remarks, 1);
    let mut d = Drive::new(false);
    for _ in 0..8 {
        assert!(d.on_calls("", &Decision::Bypass, false, None).hidden.is_empty());
    }
    let out = d.on_calls("", &Decision::Continue("look up".to_owned()), false, Some("dump"));
    assert_eq!(out.hidden, vec!["look up".to_owned(), "dump".to_owned()]);
}

#[test]
fn a_hop_is_judged_by_the_calls_of_its_reply() {
    let mut l = TurnLoop::new(false);
    at_asking(&mut l);
    l.step(Event::Reply(turn("the answer", "", &["write"])));
    l.step(Event::Read(reply("")));
    let mut dump = call("edit");
    dump.placeholder = true;
    l.step(Event::Hop { facts: hop(true, vec![dump]), read: vec![] });
    // The call is a write of a placeholder, so the answer counts as given.
    assert_eq!(l.drive.last_spoken.as_deref(), Some("the answer"));
    let mut l = TurnLoop::new(false);
    at_asking(&mut l);
    l.step(Event::Reply(turn("the answer", "", &["edit"])));
    l.step(Event::Read(reply("")));
    l.step(Event::Hop { facts: hop(true, vec![]), read: vec![] });
    assert_eq!(l.drive.last_spoken, None);
}
