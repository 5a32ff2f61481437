use q38::paint::{
    hold_back_tag_prefix, live_sink, paint_clean, PaintEvent, SinkWrite, StdioState, StdioWrite,
    StreamPaint, TokenSink,
};

fn paint_events(chunks: &[(&str, &str, bool)]) -> Vec<PaintEvent> {
    let mut paint = StreamPaint::new();
    let mut out = Vec::new();
    for (r, c, tools) in chunks {
        out.extend(paint.push_raw(r, c, *tools));
    }
    out
}

fn reasoning(events: &[PaintEvent]) -> String {
    events
        .iter()
        .filter_map(|e| match e {
            PaintEvent::Reasoning(s) => Some(s.as_str()),
            _ => None,
        })
        .collect()
}

fn content(events: &[PaintEvent]) -> String {
    events
        .iter()
        .filter_map(|e| match e {
            PaintEvent::Content(s) => Some(s.as_str()),
            _ => None,
        })
        .collect()
}

#[test]
fn hold_back_partial_think_tag() {
    let (a, b) = hold_back_tag_prefix("hello <thi");
    assert_eq!(a, "hello ");
    assert_eq!(b, "<thi");
    let (a, b) = hold_back_tag_prefix("a < 3");
    assert_eq!(a, "a < 3");
    assert!(b.is_empty());
    let (a, b) = hold_back_tag_prefix("x<");
    assert_eq!(a, "x");
    assert_eq!(b, "<");
}

#[test]
fn reasoning_then_content_skips_tool_json() {
    let events = paint_events(&[
        ("plan", "", false),
        ("plan", "hi", false),
        ("plan", "hi", true),
        ("plan", "hi{\"path\":", true),
    ]);
    assert!(matches!(events.first(), Some(PaintEvent::Reset)));
    assert_eq!(reasoning(&events), "plan");
    assert_eq!(content(&events), "hi");
    assert!(!content(&events).contains("path"));
}

#[test]
fn content_think_tags_go_to_reasoning_channel() {
    let events = paint_events(&[
        ("", "<thi", false),
        ("", "<think>abc", false),
        ("", "<think>abc</think>Hi", false),
    ]);
    assert_eq!(reasoning(&events), "abc");
    assert_eq!(content(&events), "Hi");
}

#[test]
fn xml_tool_call_is_not_answer_text() {
    let events = paint_events(&[
        ("", "I'll read\n<tool", false),
        (
            "",
            "I'll read\n<tool_call>\n<function=read>\n</tool_call>",
            false,
        ),
    ]);
    assert_eq!(content(&events), "I'll read\n");
    assert!(!content(&events).contains("function"));
}

#[test]
fn a_finished_reply_is_painted_once() {
    let events = paint_clean("plan", "done", false);
    assert_eq!(
        events,
        vec![
            PaintEvent::Reset,
            PaintEvent::Reasoning("plan".to_owned()),
            PaintEvent::Content("done".to_owned()),
        ]
    );
    assert!(paint_clean("plan", "done", true).is_empty());
    assert!(paint_clean("", "", false).is_empty());
}

#[test]
fn a_terminal_shows_thoughts_under_a_heading() {
    let mut sink = TokenSink::stdio(StdioState::new());
    assert!(sink.reset().is_empty());
    assert_eq!(
        sink.reasoning("a"),
        vec![
            SinkWrite::Terminal(StdioWrite::Stderr("[think]\n".to_owned())),
            SinkWrite::Terminal(StdioWrite::Stderr("a".to_owned())),
        ]
    );
    assert_eq!(
        sink.reasoning("b"),
        vec![SinkWrite::Terminal(StdioWrite::Stderr("b".to_owned()))]
    );
    assert_eq!(
        sink.content("c"),
        vec![
            SinkWrite::Terminal(StdioWrite::Stderr("\n".to_owned())),
            SinkWrite::Terminal(StdioWrite::Stdout("c".to_owned())),
        ]
    );
    assert!(sink.content("").is_empty());
}

#[test]
fn followers_get_events_and_no_empty_chunk() {
    let mut sink = TokenSink::events();
    assert_eq!(sink.reset(), vec![SinkWrite::Event(PaintEvent::Reset)]);
    assert!(sink.reasoning("").is_empty());
    assert_eq!(
        sink.content("x"),
        vec![SinkWrite::Event(PaintEvent::Content("x".to_owned()))]
    );
}

#[test]
fn a_session_without_watchers_has_no_sink() {
    assert!(live_sink(false, false, StdioState::new()).is_none());
    assert_eq!(live_sink(true, true, StdioState::new()), Some(TokenSink::events()));
    assert_eq!(
        live_sink(false, true, StdioState::new()),
        Some(TokenSink::stdio(StdioState::new()))
    );
}
