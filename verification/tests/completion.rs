use q38::adapter::EngineProfile;
use q38::endpoint::{configured_chat_model, session_slot, should_probe_slots};
use q38::json::Json;
use q38::outside::parse_json;
use q38::stream::{SseBuf, StreamAcc};
use q38::think::{count_think_tokens, split_think};
use q38::turn::{parse_turn, parse_turn_opts};
use q38::usage::{parse_cached_tokens, Rate};

fn js(text: &str) -> Json {
    parse_json(text).expect("json")
}

fn rate_value(r: &Rate) -> f64 {
    match r {
        Rate::PerSecond(s) => s.parse().unwrap(),
        Rate::Over { tokens, millis } => {
            let ms: f64 = millis.parse().unwrap();
            (*tokens as f64) * 1000.0 / ms
        }
    }
}

#[test]
fn parses_openai_tool_call() {
    let v = js(r##"{
        "choices": [{
            "message": {
                "content": null,
                "tool_calls": [{
                    "id": "c1",
                    "type": "function",
                    "function": {"name": "read", "arguments": "{\"path\":\"a.rs\"}"}
                }]
            }
        }],
        "usage": {"prompt_tokens": 3, "completion_tokens": 2}
    }"##);
    let o = parse_turn(&v).unwrap();
    assert!(!o.parse_fail);
    assert_eq!(o.turn.tool_calls.len(), 1);
    assert_eq!(o.turn.tool_calls[0].name, "read");
    assert_eq!(o.turn.tool_calls[0].arguments.text_at("path"), Some("a.rs"));
    assert!(o.turn.content.is_empty());
    assert!(!o.turn.watchdog_hit);
}

#[test]
fn parses_xml_tool_call() {
    let v = js(r##"{
        "choices": [{
            "message": {
                "content": "<tool_call>\n<function=read>\n<parameter=path>\nnote.txt\n</parameter>\n</function>\n</tool_call>"
            }
        }],
        "usage": {}
    }"##);
    let o = parse_turn(&v).unwrap();
    assert!(!o.parse_fail);
    assert_eq!(o.turn.tool_calls.len(), 1);
    assert_eq!(o.turn.tool_calls[0].name, "read");
    assert_eq!(o.turn.tool_calls[0].arguments.text_at("path"), Some("note.txt"));
    assert!(!o.turn.content.contains("tool_call"));
}

#[test]
fn parses_json_inside_xml() {
    let v = js(r##"{
        "choices": [{
            "message": {
                "content": "<tool_call>{\"name\":\"bash\",\"arguments\":{\"command\":\"ls\"}}</tool_call>"
            }
        }]
    }"##);
    let o = parse_turn(&v).unwrap();
    assert_eq!(o.turn.tool_calls[0].name, "bash");
    assert_eq!(o.turn.tool_calls[0].arguments.text_at("command"), Some("ls"));
}

#[test]
fn merges_openai_and_xml() {
    let v = js(r##"{
        "choices": [{
            "message": {
                "content": "note\n<tool_call>{\"id\":\"c2\",\"name\":\"bash\",\"arguments\":{\"command\":\"ls\"}}</tool_call>",
                "tool_calls": [{
                    "id": "c1",
                    "type": "function",
                    "function": {"name": "read", "arguments": "{\"path\":\"a.rs\"}"}
                }]
            }
        }]
    }"##);
    let o = parse_turn(&v).unwrap();
    assert!(!o.parse_fail);
    assert_eq!(o.turn.tool_calls.len(), 2);
    assert_eq!(o.turn.tool_calls[0].id, "c1");
    assert_eq!(o.turn.tool_calls[0].name, "read");
    assert_eq!(o.turn.tool_calls[1].id, "c2");
    assert_eq!(o.turn.tool_calls[1].name, "bash");
    assert!(!o.turn.content.contains("tool_call"));
    assert!(o.turn.content.contains("note"));
}

#[test]
fn openai_wins_on_id() {
    let v = js(r##"{
        "choices": [{
            "message": {
                "content": "<tool_call>{\"id\":\"c1\",\"name\":\"bash\",\"arguments\":{\"command\":\"pwd\"}}</tool_call>",
                "tool_calls": [{
                    "id": "c1",
                    "function": {"name": "read", "arguments": "{\"path\":\"a.rs\"}"}
                }]
            }
        }]
    }"##);
    let o = parse_turn(&v).unwrap();
    assert_eq!(o.turn.tool_calls.len(), 1);
    assert_eq!(o.turn.tool_calls[0].name, "read");
}

#[test]
fn malformed_xml_is_parse_fail() {
    let v = js(r##"{
        "choices": [{
            "message": {
                "content": "<tool_call>this is not a tool</tool_call>"
            }
        }]
    }"##);
    let o = parse_turn(&v).unwrap();
    assert!(o.parse_fail);
    assert!(o.turn.parse_fail);
    assert!(o.turn.tool_calls.is_empty());
    assert!(o.turn.content.contains("tool_call"));
}

#[test]
fn truncated_incomplete_json_not_parse_fail() {
    let v = js(r##"{
        "choices": [{
            "message": {
                "content": null,
                "tool_calls": [{
                    "id": "c1",
                    "function": {"name": "read", "arguments": "{\"path\":"}
                }]
            }
        }]
    }"##);
    let o = parse_turn_opts(&v, true).unwrap();
    assert!(!o.parse_fail);
    assert!(o.turn.tool_calls.is_empty());
}

#[test]
fn truncated_unclosed_xml_not_parse_fail() {
    let v = js(r##"{
        "choices": [{
            "message": {
                "content": "<tool_call>\n<function=read>\n<parameter=path>\nno"
            }
        }]
    }"##);
    let o = parse_turn_opts(&v, true).unwrap();
    assert!(!o.parse_fail);
    assert!(o.turn.tool_calls.is_empty());
}

#[test]
fn splits_think_block() {
    let (think, rest) = split_think("pre<think>\nabc\n</think>\npost");
    assert_eq!(think, "abc");
    assert_eq!(rest.trim(), "pre\npost");
}

#[test]
fn unclosed_think_is_all_thought() {
    let (think, rest) = split_think("pre<think>\nplan\n<tool_call>nope</tool_call>");
    assert!(think.contains("plan"));
    assert!(think.contains("tool_call"));
    assert_eq!(rest, "pre");
}

#[test]
fn recovers_tool_calls_from_think_and_content() {
    let v = js(r##"{
        "choices": [{
            "message": {
                "content": "<think>no\n<tool_call>{\"name\":\"read\",\"arguments\":{\"path\":\"secret.rs\"}}</tool_call>\n</think>\nI'll read it\n<tool_call>{\"name\":\"read\",\"arguments\":{\"path\":\"note.txt\"}}</tool_call>"
            }
        }]
    }"##);
    let o = parse_turn(&v).unwrap();
    assert!(!o.parse_fail);
    assert_eq!(o.turn.tool_calls.len(), 2);
    assert_eq!(o.turn.tool_calls[0].arguments.text_at("path"), Some("secret.rs"));
    assert_eq!(o.turn.tool_calls[1].arguments.text_at("path"), Some("note.txt"));
    assert!(o.turn.reasoning.contains("no"));
    assert!(!o.turn.reasoning.contains("tool_call"));
    assert!(o.turn.content.contains("I'll read it"));
    assert!(!o.turn.content.contains("tool_call"));
}

#[test]
fn recovers_complete_tool_call_from_unclosed_think() {
    let v = js(r##"{
        "choices": [{
            "message": {
                "content": "<think>\nplan\n<tool_call>{\"name\":\"read\",\"arguments\":{\"path\":\"a.rs\"}}</tool_call>"
            }
        }]
    }"##);
    let o = parse_turn(&v).unwrap();
    assert!(!o.parse_fail);
    assert_eq!(o.turn.tool_calls.len(), 1);
    assert_eq!(o.turn.tool_calls[0].arguments.text_at("path"), Some("a.rs"));
    assert!(o.turn.reasoning.contains("plan"));
    assert!(!o.turn.reasoning.contains("tool_call"));
}

#[test]
fn recovers_from_reasoning_content_channel() {
    let v = js(r##"{
        "choices": [{
            "message": {
                "reasoning_content": "plan\n<tool_call>{\"name\":\"read\",\"arguments\":{\"path\":\"a.rs\"}}</tool_call>",
                "content": "I'll read it"
            }
        }]
    }"##);
    let o = parse_turn(&v).unwrap();
    assert_eq!(o.turn.tool_calls.len(), 1);
    assert_eq!(o.turn.tool_calls[0].arguments.text_at("path"), Some("a.rs"));
    assert_eq!(o.turn.reasoning, "plan");
    assert_eq!(o.turn.content, "I'll read it");
}

#[test]
fn native_tool_calls_skip_think_recovery() {
    let v = js(r##"{
        "choices": [{
            "message": {
                "reasoning_content": "maybe\n<tool_call>{\"name\":\"read\",\"arguments\":{\"path\":\"secret.rs\"}}</tool_call>",
                "content": "",
                "tool_calls": [{
                    "id": "c1",
                    "function": {"name": "read", "arguments": "{\"path\":\"note.txt\"}"}
                }]
            }
        }]
    }"##);
    let o = parse_turn(&v).unwrap();
    assert_eq!(o.turn.tool_calls.len(), 1);
    assert_eq!(o.turn.tool_calls[0].arguments.text_at("path"), Some("note.txt"));
    assert!(o.turn.reasoning.contains("secret.rs"));
}

#[test]
fn preamble_before_tool_call_stays_in_content() {
    let v = js(r##"{
        "choices": [{
            "message": {
                "content": "I'll read the note first.\n<tool_call>{\"name\":\"read\",\"arguments\":{\"path\":\"note.txt\"}}</tool_call>"
            }
        }]
    }"##);
    let o = parse_turn(&v).unwrap();
    assert_eq!(o.turn.tool_calls.len(), 1);
    assert!(o.turn.content.contains("I'll read the note first."));
    assert!(!o.turn.content.contains("tool_call"));
}

#[test]
fn drops_text_after_tool_call() {
    let v = js(r##"{
        "choices": [{
            "message": {
                "content": "I'll read it.\n<tool_call>{\"name\":\"read\",\"arguments\":{\"path\":\"note.txt\"}}</tool_call>\noops leftover"
            }
        }]
    }"##);
    let o = parse_turn(&v).unwrap();
    assert_eq!(o.turn.tool_calls.len(), 1);
    assert_eq!(o.turn.content, "I'll read it.");
    assert!(!o.turn.content.contains("oops"));
}

#[test]
fn empty_plural_tool_calls_is_parse_fail() {
    let v = js(r##"{
        "choices": [{
            "message": {
                "content": "先确认上传文件是否存在。\n\n<tool_calls>\n</tool_calls>\n\n<tool_result>\n</tool_result>\n\n文件存在，读取内容。"
            }
        }]
    }"##);
    let o = parse_turn(&v).unwrap();
    assert!(o.parse_fail);
    assert!(o.turn.tool_calls.is_empty());
    assert_eq!(o.turn.content, "先确认上传文件是否存在。\n\n<tool_calls>\n</tool_calls>\n\n<tool_result>\n</tool_result>\n\n文件存在，读取内容。");
}

#[test]
fn plural_tool_calls_with_function_extracts() {
    let v = js(r##"{
        "choices": [{
            "message": {
                "content": "先读。\n<tool_calls>\n<function=read>\n<parameter=path>\na.pdf\n</parameter>\n</function>\n</tool_calls>"
            }
        }]
    }"##);
    let o = parse_turn(&v).unwrap();
    assert!(!o.parse_fail);
    assert_eq!(o.turn.tool_calls.len(), 1);
    assert_eq!(o.turn.tool_calls[0].name, "read");
    assert_eq!(o.turn.content, "先读。");
}

#[test]
fn native_bash_args_with_think_close_are_parse_fail() {
    let v = js(r##"{
        "choices": [{
            "message": {
                "content": "",
                "tool_calls": [{
                    "id": "9epb8FKpEkKV3RHlKZLhXbu4JOJOVFjw",
                    "type": "function",
                    "function": {
                        "name": "bash",
                        "arguments": "{\"command\":\"cd /Users/william/q-harness\\n</think>\\n\\n<tool_call>\\n<function=bash>\\n<parameter=command>\\ncd /Users/william/q-harness && grep -n \\\"extract_xml_tools\\\" crates/q38-loop/src -r\"}"
                    }
                }]
            }
        }]
    }"##);
    let o = parse_turn(&v).unwrap();
    assert!(o.parse_fail);
    assert!(o.turn.tool_calls.is_empty());
}

#[test]
fn native_grep_for_think_tag_still_runs() {
    let v = js(r##"{
        "choices": [{
            "message": {
                "tool_calls": [{
                    "id": "c1",
                    "type": "function",
                    "function": {
                        "name": "bash",
                        "arguments": "{\"command\":\"grep -n \\\"</think>\\\" crates/q38-loop/src/agent/delta.rs\"}"
                    }
                }]
            }
        }]
    }"##);
    let o = parse_turn(&v).unwrap();
    assert!(!o.parse_fail);
    assert_eq!(o.turn.tool_calls.len(), 1);
    assert!(o.turn.tool_calls[0].arguments.text_at("command")
        .unwrap()
        .contains("</think>"));
}

#[test]
fn unclosed_tool_call_in_think_is_not_executed() {
    let v = js(r##"{
        "choices": [{
            "message": {
                "reasoning_content": "plan\n<tool_call>\n<function=read>\n<parameter=path>\nnote",
                "content": "still thinking"
            }
        }]
    }"##);
    let o = parse_turn(&v).unwrap();
    assert!(!o.parse_fail);
    assert!(o.turn.tool_calls.is_empty());
    assert!(o.turn.reasoning.contains("plan"));
    assert_eq!(o.turn.content, "still thinking");
}

#[test]
fn parses_openai_and_llamacpp_cached_tokens() {
    let openai = js(r##"{
        "choices": [{"message": {"content": "ok"}}],
        "usage": {
            "prompt_tokens": 100,
            "completion_tokens": 4,
            "prompt_tokens_details": {"cached_tokens": 80}
        }
    }"##);
    assert_eq!(parse_cached_tokens(&openai), Some(80));
    assert_eq!(parse_turn(&openai).unwrap().turn.cached_tokens, Some(80));

    let llama = js(r##"{
        "choices": [{"message": {"content": "ok"}}],
        "usage": {"prompt_tokens": 100, "completion_tokens": 4},
        "timings": {"cache_n": 95, "prompt_n": 5}
    }"##);
    assert_eq!(parse_cached_tokens(&llama), Some(95));
    assert_eq!(parse_turn(&llama).unwrap().turn.prompt_tokens, 100);
    assert_eq!(
        parse_cached_tokens(&js(r##"{"usage": {"prompt_tokens": 10}}"##)),
        None
    );

    // Stream last chunk: timings only (no usage) — llama.cpp prompt_n is uncached prefill.
    let timings_only = js(r##"{
        "choices": [{"message": {"content": "ok"}}],
        "timings": {"cache_n": 56, "prompt_n": 4, "predicted_n": 8}
    }"##);
    let t = parse_turn(&timings_only).unwrap().turn;
    assert_eq!(t.prompt_tokens, 60);
    assert_eq!(t.completion_tokens, 8);
    assert_eq!(t.cached_tokens, Some(56));
    assert_eq!(t.decode_tok_s, None);

    let with_rate = js(r##"{
        "choices": [{"message": {"content": "ok"}}],
        "timings": {
            "predicted_n": 80,
            "predicted_ms": 2000,
            "predicted_per_second": 40.0
        }
    }"##);
    assert_eq!(
        parse_turn(&with_rate).unwrap().turn.decode_tok_s.as_ref().map(rate_value),
        Some(40.0)
    );

    let from_ms = js(r##"{
        "choices": [{"message": {"content": "ok"}}],
        "timings": {"predicted_n": 80, "predicted_ms": 2000.0}
    }"##);
    let rate = rate_value(&parse_turn(&from_ms).unwrap().turn.decode_tok_s.unwrap());
    assert!((rate - 40.0).abs() < 1e-6, "{rate}");

    let mut acc = StreamAcc::new();
    acc.apply(&js(r##"{"choices":[{"delta":{"content":"3"}}]}"##));
    acc.apply(&timings_only);
    let rebuilt = acc.into_message_json();
    assert_eq!(
        rebuilt.get2("usage", "prompt_tokens").and_then(|v| v.as_u64()),
        Some(60)
    );
    assert_eq!(
        rebuilt
            .get2("usage", "prompt_tokens_details")
            .and_then(|v| v.get("cached_tokens"))
            .and_then(|v| v.as_u64()),
        Some(56)
    );
    let from_stream = parse_turn(&rebuilt).unwrap().turn;
    assert_eq!(from_stream.prompt_tokens, 60);
    assert_eq!(from_stream.cached_tokens, Some(56));
}

#[test]
fn session_slot_reserves_last_when_parallel() {
    assert_eq!(session_slot("abc", 0), None);
    assert_eq!(session_slot("abc", 1), Some(0));
    let a = session_slot("soak-one", 4).unwrap();
    let b = session_slot("soak-one", 4).unwrap();
    assert_eq!(a, b);
    assert!(a < 3, "last slot reserved for unpinned probes, got {a}");
    assert_eq!(session_slot("other", 4).unwrap() < 3, true);
}

#[test]
fn sse_parses_data_lines() {
    let mut buf = SseBuf::new();
    let events = buf.push("data: {\"choices\":[{\"delta\":{\"content\":\"hi\"}}]}\n\n");
    assert_eq!(events.len(), 1);
    let delta = events[0]
        .get("choices")
        .and_then(|c| c.first())
        .and_then(|c| c.get("delta"))
        .unwrap();
    assert_eq!(delta.text_at("content"), Some("hi"));
    assert!(buf.push("data: [DONE]\n\n").is_empty());
}

#[test]
fn think_count_prefers_reasoning_content() {
    let n = count_think_tokens("one two three", "<think>ignored</think>", None);
    assert_eq!(n, 3);
}

#[test]
fn configured_model_skips_models_list() {
    assert_eq!(configured_chat_model("qwen3.8").as_deref(), Some("qwen3.8"));
    assert!(configured_chat_model("  ").is_none());
    assert!(configured_chat_model("").is_none());
}

#[test]
fn slot_probe_is_llamacpp_only() {
    assert!(should_probe_slots(EngineProfile::LlamaCpp));
    assert!(!should_probe_slots(EngineProfile::Generic));
    assert!(!should_probe_slots(EngineProfile::Auto));
    assert!(!should_probe_slots(EngineProfile::Vllm));
}
