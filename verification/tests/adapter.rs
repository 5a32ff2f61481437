use q38::adapter::{
    build_chat_body, contains_null, find_key, ChatRequestSpec, EngineProfile, Sampling,
};
use q38::json::Json;
use q38::outside::parse_json;

fn js(text: &str) -> Json {
    parse_json(text).expect("json")
}

fn at<'a>(v: &'a Json, keys: &[&str]) -> &'a Json {
    let mut here = v;
    for k in keys {
        here = here.get(k).expect(k);
    }
    here
}

fn sampling(temperature: &str, top_p: &str, presence: &str) -> Sampling {
    Sampling {
        temperature: temperature.to_owned(),
        top_p: top_p.to_owned(),
        presence_penalty: presence.to_owned(),
        top_k: 20,
        min_p: "0.0".to_owned(),
        repetition_penalty: "1.0".to_owned(),
    }
}

fn request(profile: EngineProfile, sampling: Sampling, kwargs: &str) -> ChatRequestSpec {
    ChatRequestSpec {
        model: "Qwen3.8-27B-UD-Q8".to_owned(),
        messages: vec![js(r#"{"role": "user", "content": "hi"}"#)],
        tools: None,
        stream: false,
        max_tokens: 4096,
        sampling,
        kwargs: js(kwargs),
        profile,
        id_slot: None,
        cache_prompt: false,
        lossy_repeat: false,
    }
}

fn thinking_low(profile: EngineProfile) -> ChatRequestSpec {
    request(
        profile,
        sampling("1.0", "0.95", "0.0"),
        r#"{"enable_thinking": true, "preserve_thinking": true, "reasoning_effort": "low"}"#,
    )
}

fn thinking_off(profile: EngineProfile) -> ChatRequestSpec {
    request(
        profile,
        sampling("0.7", "0.8", "1.5"),
        r#"{"enable_thinking": false, "preserve_thinking": true}"#,
    )
}

#[test]
fn stream_requests_include_usage() {
    let mut s = thinking_low(EngineProfile::LlamaCpp);
    s.stream = true;
    let body = build_chat_body(&s);
    assert_eq!(at(&body, &["stream"]), &Json::Bool(true));
    assert_eq!(at(&body, &["stream_options", "include_usage"]), &Json::Bool(true));
    assert!(!contains_null(&body), "{body:?}");

    let off = build_chat_body(&thinking_low(EngineProfile::LlamaCpp));
    assert_eq!(at(&off, &["stream"]), &Json::Bool(false));
    assert!(off.get("stream_options").is_none());
}

#[test]
fn llamacpp_pins_slot_and_cache_prompt() {
    let mut s = thinking_low(EngineProfile::LlamaCpp);
    s.cache_prompt = true;
    s.id_slot = Some(2);
    let body = build_chat_body(&s);
    assert_eq!(at(&body, &["cache_prompt"]), &Json::Bool(true));
    assert_eq!(at(&body, &["id_slot"]), &Json::Uint(2));
    assert!(!contains_null(&body), "{body:?}");
    let g = thinking_low(EngineProfile::Generic);
    let body = build_chat_body(&g);
    assert!(body.get("cache_prompt").is_none());
    assert!(body.get("id_slot").is_none());
}

#[test]
fn llamacpp_kwargs_at_root_no_null() {
    let body = build_chat_body(&thinking_low(EngineProfile::LlamaCpp));
    assert!(!contains_null(&body), "{body:?}");
    assert_eq!(at(&body, &["chat_template_kwargs", "reasoning_effort"]), &Json::string("low"));
    assert_eq!(at(&body, &["chat_template_kwargs", "enable_thinking"]), &Json::Bool(true));
    assert_eq!(at(&body, &["chat_template_kwargs", "preserve_thinking"]), &Json::Bool(true));
    assert!(body.get("extra_body").is_none());
    assert_eq!(at(&body, &["temperature"]), &Json::Float("1.0".to_owned()));
    assert_eq!(at(&body, &["top_p"]), &Json::Float("0.95".to_owned()));
    assert_eq!(at(&body, &["top_k"]), &Json::Uint(20));
    assert_eq!(at(&body, &["repetition_penalty"]), &Json::Float("1.0".to_owned()));
}

#[test]
fn lossy_repeat_raises_penalty() {
    let mut s = thinking_low(EngineProfile::LlamaCpp);
    s.lossy_repeat = true;
    let body = build_chat_body(&s);
    assert_eq!(at(&body, &["repetition_penalty"]), &Json::Float("1.1".to_owned()));
    let off = build_chat_body(&thinking_low(EngineProfile::LlamaCpp));
    assert_eq!(at(&off, &["repetition_penalty"]), &Json::Float("1.0".to_owned()));
}

#[test]
fn off_omits_reasoning_effort() {
    let body = build_chat_body(&thinking_off(EngineProfile::LlamaCpp));
    assert!(!contains_null(&body), "{body:?}");
    assert_eq!(at(&body, &["chat_template_kwargs", "enable_thinking"]), &Json::Bool(false));
    assert_eq!(at(&body, &["chat_template_kwargs", "preserve_thinking"]), &Json::Bool(true));
    assert!(find_key(&body, "reasoning_effort").is_none(), "{body:?}");
    assert_eq!(at(&body, &["temperature"]), &Json::Float("0.7".to_owned()));
    assert_eq!(at(&body, &["top_p"]), &Json::Float("0.8".to_owned()));
    assert_eq!(at(&body, &["presence_penalty"]), &Json::Float("1.5".to_owned()));
}

#[test]
fn vllm_puts_kwargs_in_extra_body() {
    let body = build_chat_body(&thinking_low(EngineProfile::Vllm));
    assert!(body.get("chat_template_kwargs").is_none());
    assert_eq!(at(&body, &["extra_body", "chat_template_kwargs", "reasoning_effort"]), &Json::string("low"));
    assert_eq!(at(&body, &["extra_body", "top_k"]), &Json::Uint(20));
    assert!(body.get("top_k").is_none());
    assert!(body.get("cache_prompt").is_none());
    assert!(body.get("id_slot").is_none());
}

#[test]
fn vllm_off_sends_preserve_in_extra_body() {
    let body = build_chat_body(&thinking_off(EngineProfile::Vllm));
    assert_eq!(at(&body, &["extra_body", "chat_template_kwargs", "preserve_thinking"]), &Json::Bool(true));
    assert_eq!(at(&body, &["extra_body", "chat_template_kwargs", "enable_thinking"]), &Json::Bool(false));
    assert!(body.get("cache_prompt").is_none());
    assert!(body.get("id_slot").is_none());
}

#[test]
fn sglang_matches_vllm_shape() {
    let body = build_chat_body(&thinking_low(EngineProfile::Sglang));
    assert!(at(&body, &["extra_body", "chat_template_kwargs"]).is_object());
}

#[test]
fn generic_openai_plus_extra_kwargs() {
    let body = build_chat_body(&thinking_low(EngineProfile::Generic));
    assert!(body.get("top_k").is_none());
    assert_eq!(at(&body, &["extra_body", "chat_template_kwargs", "reasoning_effort"]), &Json::string("low"));
}
