use q38::double::out_of_range;
use q38::json::Json;
use q38::outside::{parse_json, parse_json_or, parse_toml, print_json};
use q38::pb::{pb_put_varint, pb_varint, PbFrame, PbHeader};
use q38::paint::PaintEvent;
use q38::reply::{ReadStep, ReplyReader};
use q38::stream::{parse_sse_event, take_text, SseBuf, SseReader, StreamAcc};
use q38::table::Table;
use q38::text::{
    after, before, clip, clip_bytes, is_blank, is_white, join, lines, parse_i64, parse_unsigned,
    replace_text, show_u64, split, strip_trailing, to_lower, trim,
};
use q38::think::{split_think, split_think_live, strip_think, watchdog_hit};
use q38::turn::{parse_turn, turn_from_json};
use q38::fault::Fault;
use q38::usage::{
    json_u64, parse_completion_tokens, parse_decode_tok_s, parse_prompt_tokens, Rate,
};
use q38::xml_tools::{coerce_param, extract_xml_tools, with_id, Draft};

#[test]
fn white_space_is_what_the_standard_says() {
    for n in 0..=0x10FFFFu32 {
        if let Some(c) = char::from_u32(n) {
            assert_eq!(is_white(c), c.is_whitespace(), "{n:x}");
        }
    }
}

#[test]
fn texts_are_cut_as_strings_are() {
    let samples = ["", " a b ", "\u{3000}修\u{a0}", "a\r\nb\n\nc", "x\n", "\n", "a/b//", "  \t"];
    for s in samples {
        assert_eq!(trim(s), s.trim());
        assert_eq!(is_blank(s), s.trim().is_empty());
        assert_eq!(lines(s), s.lines().map(str::to_owned).collect::<Vec<_>>());
        assert_eq!(split(s, '/'), s.split('/').map(str::to_owned).collect::<Vec<_>>());
        assert_eq!(strip_trailing(s, '/'), s.trim_end_matches('/'));
        assert_eq!(to_lower(s), s.to_ascii_lowercase());
        assert_eq!(clip(s, 2), s.chars().take(2).collect::<String>());
        assert_eq!(replace_text(s, "a", "aa"), s.replace("a", "aa"));
        assert_eq!(replace_text(s, "//", "/"), s.replace("//", "/"));
        assert_eq!(before(s, "b"), s.split('b').next().unwrap());
        assert_eq!(after(s, "b"), s.split_once('b').map(|p| p.1.to_owned()));
    }
    assert_eq!(replace_text("aaa", "aa", "b"), "aaa".replace("aa", "b"));
    assert_eq!(join(&vec!["a".to_owned(), "b".to_owned()], ", "), "a, b");
    assert_eq!(clip_bytes("修改", 4), "修");
    assert_eq!(clip_bytes("abc", 9), "abc");
}

#[test]
fn numbers_read_back() {
    for n in [0u64, 7, 10, 12_345, u64::MAX] {
        assert_eq!(show_u64(n), n.to_string());
        assert_eq!(parse_unsigned(&n.to_string(), u64::MAX), Some(n));
    }
    for s in ["", "-1", "+5", "12a", "18446744073709551616", " 1"] {
        assert_eq!(parse_unsigned(s, u64::MAX), s.parse::<u64>().ok(), "{s}");
    }
    for s in ["", "-", "-9223372036854775808", "9223372036854775808", "+3", "0x1"] {
        assert_eq!(parse_i64(s), s.parse::<i64>().ok(), "{s}");
    }
}

#[test]
fn json_goes_through_its_text() {
    let text = r#"{"a":[1,-2,3.5,true,null,"x\"y"],"b":{"c":""}}"#;
    let v = parse_json(text).unwrap();
    assert_eq!(print_json(&v), text);
    assert_eq!(v.get2("b", "c").and_then(|c| c.as_str()), Some(""));
    assert!(parse_json("{").is_none());
    let said = parse_json_or("[1,").unwrap_err();
    assert_eq!(said, serde_json::from_str::<serde_json::Value>("[1,").unwrap_err().to_string());
    // The last of several entries under one key counts.
    let twice = parse_json(r#"{"a": 1, "a": 2}"#).unwrap();
    assert_eq!(twice.get("a").and_then(|a| a.as_u64()), Some(2));
    let built = Json::object().with("k", Json::number(-3)).with("k", Json::string("v"));
    assert_eq!(print_json(&built), r#"{"k":"v"}"#);
    let t = parse_toml("[package]\nname = \"x\"\nn = 3\n").unwrap();
    assert_eq!(t.get2("package", "name").and_then(|n| n.as_str()), Some("x"));
    assert!(parse_toml("= 1").is_none());
}

#[test]
fn values_of_parameters_are_read() {
    assert_eq!(coerce_param("true"), Json::Bool(true));
    assert_eq!(coerce_param("-12"), Json::Nint(-12));
    assert_eq!(coerce_param("12"), Json::Uint(12));
    assert_eq!(coerce_param("[1]"), Json::Array(vec![Json::Uint(1)]));
    assert_eq!(coerce_param("{x}"), Json::string("{x}"));
    assert_eq!(coerce_param("src/a.rs"), Json::string("src/a.rs"));
}

#[test]
fn calls_without_an_identifier_get_one() {
    let x = extract_xml_tools(
        "<tool_call>{\"name\":\"a\"}</tool_call><tool_call>{\"name\":\"b\"}</tool_call>",
    );
    assert_eq!(x.calls.len(), 2);
    for c in &x.calls {
        assert_eq!(c.id.len(), 32);
        assert!(c.id.chars().all(|d| d.is_ascii_hexdigit()));
    }
    assert_ne!(x.calls[0].id, x.calls[1].id);
    let draft = |id: Option<&str>| Draft {
        id: id.map(|s| s.to_owned()),
        name: "n".to_owned(),
        arguments: Json::Null,
    };
    assert_eq!(with_id(draft(None), "fresh".to_owned()).id, "fresh");
    assert_eq!(with_id(draft(Some("own")), "fresh".to_owned()).id, "own");
}

#[test]
fn thoughts_are_split_off() {
    assert_eq!(split_think("plain"), (String::new(), "plain".to_owned()));
    assert_eq!(strip_think("a<think>b</think>c"), "ac");
    assert_eq!(split_think_live("a<think>b").0, "b");
    assert!(watchdog_hit(Some(3), "one two three", "", None));
    assert!(!watchdog_hit(Some(4), "one two three", "", None));
    assert!(!watchdog_hit(None, "one two three", "", None));
    assert!(watchdog_hit(Some(50), "x", "", Some(50)));
}

#[test]
fn counts_are_read_from_numbers_and_texts() {
    let count = |t: &str| json_u64(&parse_json(t).unwrap());
    assert_eq!(count("5"), Some(5));
    assert_eq!(count("-5"), None);
    assert_eq!(count("4.5"), Some(5));
    assert_eq!(count("4.4"), Some(4));
    assert_eq!(count("1e3"), Some(1000));
    assert_eq!(count("0.0"), Some(0));
    assert_eq!(count("1.152921504606847e18"), Some(1152921504606846976));
    assert_eq!(count("1.8446744073709552e19"), Some(u64::MAX));
    assert_eq!(count("1.8446744073709556e19"), None);
    assert_eq!(count("1e300"), None);
    assert_eq!(count("\"17\""), Some(17));
    assert_eq!(count("\"x\""), None);
    let shown = |t: &str| json_u64(&Json::Float(t.to_owned()));
    assert_eq!(shown("9007199254740991.0"), Some(9007199254740991));
    assert_eq!(shown("1.1529215046068472e18"), Some(1152921504606847232));
    assert_eq!(shown("1.844674407370955e19"), Some(18446744073709549568));
    assert_eq!(shown("9007199254740993.0"), Some(9007199254740992), "an even one of two");
    assert_eq!(shown("9007199254740993.1"), Some(9007199254740994));
    assert_eq!(shown("9007199254740995.0"), Some(9007199254740996));
    let v = parse_json(r#"{"usage": {"prompt_tokens": 3, "completion_tokens": 4}}"#).unwrap();
    assert_eq!((parse_prompt_tokens(&v), parse_completion_tokens(&v)), (3, 4));
}

#[test]
fn errors_of_an_endpoint_are_reported() {
    let no_message = parse_json("{}").unwrap();
    assert_eq!(
        parse_turn(&no_message).unwrap_err(),
        Fault::Http("chat completion missing choices[0].message".to_owned())
    );
    let refused = parse_json(r#"{"error": {"code": 500}}"#).unwrap();
    assert_eq!(
        turn_from_json(&refused, false).unwrap_err(),
        Fault::Http(r#"{"code":500}"#.to_owned())
    );
}

#[test]
fn a_stream_reads_the_same_in_any_chunks() {
    let text = "data: {\"choices\":[{\"delta\":{\"content\":\"修\"}}]}\r\n\r\ndata: {\"choices\":[{\"delta\":{\"content\":\"改\",\"tool_calls\":[{\"index\":0,\"id\":\"c1\",\"function\":{\"name\":\"read\",\"arguments\":\"{\\\"path\\\":\"}}]}}]}\n\ndata: {\"choices\":[{\"delta\":{\"tool_calls\":[{\"index\":0,\"function\":{\"arguments\":\"\\\"a\\\"}\"}}]}}]}\n\ndata: [DONE]\n\n";
    for size in [1usize, 2, 3, 7, 1000] {
        let mut reader = SseReader::new();
        let mut seen = 0;
        for chunk in text.as_bytes().chunks(size) {
            for event in reader.feed(&chunk.to_vec()) {
                reader.accept(&event).unwrap();
                seen += 1;
            }
        }
        assert_eq!(seen, 3, "{size}");
        let turn = reader.finish().unwrap();
        assert_eq!(turn.content, "修改", "{size}");
        assert_eq!(turn.tool_calls.len(), 1);
        assert_eq!(turn.tool_calls[0].arguments.text_at("path"), Some("a"));
    }
    let mut reader = SseReader::new();
    assert!(reader.accept(&parse_json(r#"{"error": "busy"}"#).unwrap()).is_err());
}

#[test]
fn events_are_cut_at_blank_lines() {
    assert_eq!(parse_sse_event("data: 1\ndata: 2"), None);
    assert_eq!(parse_sse_event("event: x\ndata: [1,\ndata: 2]"), parse_json("[1,2]"));
    let mut buf = SseBuf::new();
    assert!(buf.push("data: {\"a\"").is_empty());
    assert_eq!(buf.push(": 1}\n\ndata: 2").len(), 1);
    assert_eq!(buf.flush(), vec![Json::Uint(2)]);
    assert_eq!(take_text(&vec![0xe4, 0xbf, 0xae, 0xe6]), ("修".to_owned(), vec![0xe6]));
}

#[test]
fn a_stream_becomes_a_completion() {
    let mut acc = StreamAcc::new();
    acc.apply(&parse_json(r#"{"choices":[{"delta":{"reasoning_content":"plan"}}]}"#).unwrap());
    acc.apply(&parse_json(r#"{"choices":[{"delta":{"content":"hi"}}]}"#).unwrap());
    let turn = parse_turn(&acc.into_message_json()).unwrap().turn;
    assert_eq!(turn.reasoning, "plan");
    assert_eq!(turn.content, "hi");
}

#[test]
fn frames_read_back() {
    for n in [0u64, 1, 127, 128, 300, u64::MAX] {
        let mut out = Vec::new();
        pb_put_varint(n, &mut out);
        let len = out.len();
        assert_eq!(pb_varint(&out, 0), Some((n, len)));
    }
    assert_eq!(pb_varint(&vec![0x80], 0), None);
    let mut out = Vec::new();
    pb_put_varint(300, &mut out);
    assert_eq!(out, vec![0xac, 0x02]);
    let frame = PbFrame {
        seq_id: 9,
        log_id: 1 << 40,
        service: -1,
        method: 1,
        headers: vec![PbHeader { key: "type".to_owned(), value: "event".to_owned() }],
        payload_encoding: "gzip".to_owned(),
        payload_type: "json".to_owned(),
        payload: vec![0, 255],
        log_id_new: "x".to_owned(),
    };
    assert_eq!(PbFrame::decode(&frame.encode()), Some(frame.copy()));
    let pong = PbFrame::ping(5).to_pong();
    assert_eq!((pong.service, pong.header("type").as_str()), (5, "pong"));
    assert_eq!(frame.to_ack().seq_id, 9);
    assert!(PbFrame::decode(&vec![0x0a, 0x05, 0x01]).is_none());
}

#[test]
fn tables_hold_one_value_for_a_key() {
    let mut t = Table::new();
    t.insert("a", "1");
    t.insert("a", "2");
    assert_eq!(t.get("a").map(String::as_str), Some("2"));
    t.remove("a");
    assert!(t.get("a").is_none());
}

#[test]
fn numbers_that_no_double_holds_are_told_apart() {
    let limit = q38::double::DOUBLE_LIMIT;
    let trace = q38::double::DOUBLE_TRACE;
    let below = format!("{}1", &limit[..limit.len() - 1]);
    let mut samples = vec![
        "1e400".to_owned(),
        "1e308".to_owned(),
        "1.7976931348623157e308".to_owned(),
        "1.7976931348623158e308".to_owned(),
        "1.7976931348623159e308".to_owned(),
        limit.to_owned(),
        below,
        format!("0.{limit}e309"),
        format!("{limit}.000"),
        format!("{limit}.1"),
        "1e-400".to_owned(),
        "4.9e-324".to_owned(),
        "2.5e-324".to_owned(),
        "2.4e-324".to_owned(),
        format!("0.{trace}e-323"),
        format!("0.{trace}1e-323"),
        "000000000012.5e+3".to_owned(),
        "0.0000001e10".to_owned(),
        ".5".to_owned(),
        "5.".to_owned(),
        "1e99999999999999999999999999999999999999999".to_owned(),
        "1e-99999999999999999999999999999999999999999".to_owned(),
        "0e99999999999999999999999999999999999999999".to_owned(),
        "0.0".to_owned(),
    ];
    for k in [-330i32, -326, -325, -324, -323, -300, 0, 300, 307, 308, 309, 310] {
        for d in ["1", "1.797", "2.4703282292062327e0", "2.4703282292062328", "9.99"] {
            if !d.contains('e') {
                samples.push(format!("{d}e{k}"));
            }
        }
    }
    for s in samples {
        let f: f64 = s.parse().unwrap();
        let zero = s.split(['e', 'E']).next().unwrap().chars().all(|c| c == '0' || c == '.');
        assert_eq!(out_of_range(&s), (f.is_infinite(), f == 0.0 && !zero), "{s}");
    }
    assert_eq!(coerce_param("1e400"), Json::Null);
    assert_eq!(coerce_param("-1e400"), Json::Null);
    assert_eq!(coerce_param("1e300"), Json::Float("1e300".to_owned()));
    let timings = |rate: &str| {
        parse_json(&format!(
            r#"{{"timings": {{"predicted_per_second": "{rate}", "predicted_n": 80, "predicted_ms": 2000}}}}"#
        ))
        .unwrap()
    };
    let over = Some(Rate::Over { tokens: 80, millis: "2000".to_owned() });
    assert_eq!(parse_decode_tok_s(&timings("1e400")), over);
    assert_eq!(parse_decode_tok_s(&timings("1e-400")), over);
    assert_eq!(
        parse_decode_tok_s(&timings("40.5")),
        Some(Rate::PerSecond("40.5".to_owned()))
    );
}

fn read_all(mut r: ReplyReader, chunks: &[&str]) -> (Vec<PaintEvent>, Result<ReplyReader, Fault>) {
    let mut shown = Vec::new();
    let mut at = 0;
    loop {
        match r.next() {
            ReadStep::Wait => {
                if at < chunks.len() {
                    r.on_chunk(&chunks[at].as_bytes().to_vec());
                    at += 1;
                } else {
                    r.on_end();
                }
            }
            ReadStep::Took(out) => {
                shown.extend(out);
                if r.too_long(None) {
                    return (shown, Err(Fault::Watchdog));
                }
            }
            ReadStep::Failed(e) => return (shown, Err(e)),
            ReadStep::End => return (shown, Ok(r)),
        }
    }
}

#[test]
fn a_reply_is_read_shown_and_broken_off() {
    let chunks = [
        "data: {\"choices\":[{\"delta\":{\"reasoning_content\":\"one two\"}}]}\n",
        "\ndata: {\"choices\":[{\"delta\":{\"content\":\"hi\"}}]}\n\n",
        "data: {\"choices\":[{\"delta\":{\"content\":\" you\"}}]}",
    ];
    let (shown, read) = read_all(ReplyReader::new(true, Some(9)), &chunks);
    assert_eq!(
        shown,
        vec![
            PaintEvent::Reset,
            PaintEvent::Reasoning("one two".to_owned()),
            PaintEvent::Content("hi".to_owned()),
            PaintEvent::Content(" you".to_owned()),
        ]
    );
    // What was left without a blank line behind it counts too.
    let turn = read.unwrap().finish(false).unwrap();
    assert_eq!((turn.reasoning.as_str(), turn.content.as_str()), ("one two", "hi you"));
    let (shown, read) = read_all(ReplyReader::new(false, Some(2)), &chunks);
    assert!(shown.is_empty());
    assert_eq!(read.unwrap_err(), Fault::Watchdog);
    let (_, read) = read_all(ReplyReader::new(false, None), &chunks);
    let broken = read.unwrap().finish(true).unwrap();
    assert!(broken.watchdog_hit && !broken.parse_fail);
    assert_eq!((broken.content.as_str(), broken.reasoning.as_str()), ("", ""));
    assert_eq!((broken.prompt_tokens, broken.completion_tokens), (0, 0));
    assert!(broken.tool_calls.is_empty() && broken.raw_tool_calls.is_none());
    assert!(broken.cached_tokens.is_none() && broken.decode_tok_s.is_none());
    let (_, read) = read_all(ReplyReader::new(false, None), &["data: {\"error\": \"busy\"}\n\n"]);
    assert_eq!(read.unwrap_err(), Fault::Http("\"busy\"".to_owned()));
}
