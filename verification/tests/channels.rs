use aes_gcm::aead::{Aead, KeyInit};
use aes_gcm::{Aes256Gcm, Nonce};
use base64::engine::general_purpose::STANDARD;
use base64::Engine;
use q38::channel::access::{admission, DenyReason, GateDecision};
use q38::channel::catalog::{endpoint_kind, supports_qr};
use q38::channel::config::{
    known_kind, merge_channel_endpoints, remove_channel_endpoint, upsert_channel_endpoint,
    ChannelEndpoint,
};
use q38::channel::dingtalk;
use q38::channel::envelope::{ContentPart, NativePayload};
use q38::channel::feishu;
use q38::channel::inbound::{
    is_fatal_serve_error, lock_file_name, needs_exclusive, supervise_backoff_secs,
    BACKOFF_MAX_SECS,
};
use q38::channel::mailbox::{BusyDecision, BusyPolicy, Mailbox};
use q38::channel::qrcode::{
    bind_key_of,
    decode_poll_token, decrypt_secret, dingtalk_map_status, encode_poll_token, generate_bind_key,
    qq_map_result, qr_image_from_url, wecom_settings_json,
};
use q38::channel::router::SessionRouter;
use q38::json::Json;
use q38::outside::{parse_json, print_json};
use q38::pb::{PbFrame, PbHeader, PB_CONTROL, PB_DATA};
use q38::table::Table;

fn js(text: &str) -> Json {
    parse_json(text).expect("json")
}

fn env(group: bool, mentioned: bool, sender: &str) -> NativePayload {
    let mut p = NativePayload::text_only("telegram", "hi");
    p.sender_id = sender.into();
    p.meta = Json::object()
        .with("is_group", Json::Bool(group))
        .with("is_mentioned", Json::Bool(mentioned));
    p
}

fn endpoint(id: &str, kind: &str) -> ChannelEndpoint {
    let mut ep = ChannelEndpoint::default();
    ep.id = id.into();
    ep.kind = kind.into();
    ep
}

#[test]
fn open_dm_allows() {
    let mut ep = endpoint("tg", "telegram");
    ep.enabled = true;
    assert_eq!(admission(&ep, &env(false, false, "1")), GateDecision::Allow);
}

#[test]
fn group_require_mention() {
    let mut ep = endpoint("tg", "telegram");
    ep.enabled = true;
    ep.require_mention = true;
    ep.group_policy = "open".into();
    assert_eq!(
        admission(&ep, &env(true, false, "1")),
        GateDecision::Deny(DenyReason::Mention)
    );
    assert_eq!(DenyReason::Mention.as_str(), "mention");
    assert_eq!(admission(&ep, &env(true, true, "1")), GateDecision::Allow);
}

#[test]
fn allow_from_filters() {
    let mut ep = endpoint("tg", "telegram");
    ep.enabled = true;
    ep.allow_from = vec!["42".into()];
    ep.dm_policy = "open".into();
    assert_eq!(
        admission(&ep, &env(false, false, "1")),
        GateDecision::Deny(DenyReason::Allowlist)
    );
    assert_eq!(DenyReason::Allowlist.as_str(), "allowlist");
    assert_eq!(admission(&ep, &env(false, false, "42")), GateDecision::Allow);
}

#[test]
fn scan_kinds_are_in_catalog() {
    for k in ["dingtalk", "feishu", "qq", "wechat", "wecom"] {
        assert!(supports_qr(k), "{k}");
        assert!(endpoint_kind(k), "{k}");
    }
    assert!(!supports_qr("telegram"));
    assert!(endpoint_kind("telegram"));
    assert!(endpoint_kind("webhook"));
    assert!(!endpoint_kind("cli"));
    assert!(!endpoint_kind("console"));
}

fn ding() -> ChannelEndpoint {
    endpoint("", "dingtalk")
}

fn chatbot_object() -> Json {
    js(r##"{
        "text": {"content": "  hello  "},
        "senderId": "$:LWCP_v1:$user",
        "senderStaffId": "manager1",
        "senderNick": "Will",
        "conversationId": "cidABC==",
        "conversationType": "2",
        "sessionWebhook": "https://oapi.dingtalk.com/robot/sendBySession?session=tok",
        "msgId": "msgLICYe==",
        "isInAtList": true,
        "atUsers": [{"dingtalkId": "bot"}]
    }"##)
}

#[test]
fn credentials_from_extra() {
    let mut e = ding();
    e.extra.insert("client_id", " id-1 ");
    e.extra.insert("client_secret", " sec-1 ");
    assert_eq!(
        dingtalk::credentials(&e, None, None),
        Some(("id-1".into(), "sec-1".into()))
    );
}

#[test]
fn credentials_extra_beats_env() {
    assert_eq!(
        dingtalk::pick_credentials(
            Some("qr-id"),
            Some("qr-sec"),
            Some("env-id"),
            Some("env-sec")
        ),
        Some(("qr-id".into(), "qr-sec".into()))
    );
}

#[test]
fn credentials_env_fallback() {
    assert_eq!(
        dingtalk::pick_credentials(None, None, Some("env-id"), Some("env-sec")),
        Some(("env-id".into(), "env-sec".into()))
    );
    assert_eq!(
        dingtalk::pick_credentials(Some("id"), None, None, Some("env-sec")),
        Some(("id".into(), "env-sec".into()))
    );
    assert!(dingtalk::pick_credentials(Some("id"), Some("  "), None, None).is_none());
    assert!(dingtalk::pick_credentials(None, None, None, None).is_none());
}

#[test]
fn parse_chatbot_data_string_vs_object() {
    let obj = chatbot_object();
    let as_string = Json::Str(print_json(&obj));
    let from_str = dingtalk::parse_chatbot_data(&as_string).unwrap();
    let from_obj = dingtalk::parse_chatbot_data(&obj).unwrap();
    assert_eq!(from_str.text_at("conversationId"), Some("cidABC=="));
    assert_eq!(from_obj.text_at("conversationId"), Some("cidABC=="));
    assert_eq!(
        dingtalk::session_webhook(&from_str),
        "https://oapi.dingtalk.com/robot/sendBySession?session=tok"
    );
    assert_eq!(
        dingtalk::session_webhook(&from_obj),
        dingtalk::session_webhook(&from_str)
    );
}

#[test]
fn parse_chatbot_text_plain_string() {
    let data = js(r##"{
        "text": "plain",
        "senderId": "u1",
        "conversationId": "c1",
        "conversationType": 1,
        "session_webhook": "https://oapi.dingtalk.com/robot/sendBySession?session=x"
    }"##);
    let env = dingtalk::native_from_chatbot(&ding(), &data).unwrap();
    assert_eq!(env.text, "plain");
    assert_eq!(
        env.meta.text_at("session_webhook"),
        Some("https://oapi.dingtalk.com/robot/sendBySession?session=x")
    );
    assert!(!env.is_group());
}

#[test]
fn native_payload_extracts_session_webhook() {
    let env = dingtalk::native_from_chatbot(&ding(), &chatbot_object()).unwrap();
    assert_eq!(env.channel, "dingtalk");
    assert_eq!(env.sender_id, "$:LWCP_v1:$user");
    assert_eq!(env.sender_name, "Will");
    assert_eq!(env.chat_id(), "cidABC==");
    assert!(env.is_group());
    assert!(env.is_mentioned());
    assert_eq!(
        env.reply_url().as_deref(),
        Some("https://oapi.dingtalk.com/robot/sendBySession?session=tok")
    );
    assert_eq!(env.meta.text_at("msg_id"), Some("msgLICYe=="));
    assert_eq!(
        dingtalk::webhook_from_env(&env).as_deref(),
        env.reply_url().as_deref()
    );
}

#[test]
fn missing_session_webhook_is_none() {
    let data = js(r##"{
        "text": {"content": "hi"},
        "senderId": "u1",
        "conversationId": "c1",
        "conversationType": "1"
    }"##);
    let env = dingtalk::native_from_chatbot(&ding(), &data).unwrap();
    assert!(dingtalk::webhook_from_env(&env).is_none());
    assert!(env.reply_url().is_none());
}

#[test]
fn ws_url_appends_ticket() {
    assert_eq!(
        dingtalk::ws_url("wss://wss-open-connection.dingtalk.com:443/connect", "tick"),
        "wss://wss-open-connection.dingtalk.com:443/connect?ticket=tick"
    );
    assert_eq!(
        dingtalk::ws_url("wss://host/connect?foo=1", "tick"),
        "wss://host/connect?foo=1&ticket=tick"
    );
}

#[test]
fn callback_ack_shape() {
    let success = "{\"status\": \"SUCCESS\", \"message\": \"OK\"}";
    let raw = dingtalk::ack_json("mid-1", success);
    let v = js(&raw);
    assert_eq!(v.get("code").and_then(|c| c.as_u64()), Some(200));
    assert_eq!(v.text_at("message"), Some("OK"));
    let headers = v.get("headers").unwrap();
    assert_eq!(headers.text_at("messageId"), Some("mid-1"));
    assert_eq!(headers.text_at("contentType"), Some("application/json"));
    assert_eq!(v.text_at("data"), Some(success));
}

#[test]
fn open_connection_url() {
    assert_eq!(
        dingtalk::open_url(),
        "https://api.dingtalk.com/v1.0/gateway/connections/open"
    );
    assert_eq!(dingtalk::bot_topic(), "/v1.0/im/bot/messages/get");
}

#[test]
fn text_alias_becomes_parts() {
    let p = NativePayload::text_only("telegram", "hello");
    assert_eq!(p.query_text(), "hello");
    assert!(p.media_parts().is_empty());
}

#[test]
fn qwenpaw_image_part() {
    let mut p = NativePayload::new();
    p.channel = "telegram".into();
    p.sender_id = "9".into();
    p.content_parts = vec![
        ContentPart::text("what color"),
        ContentPart::Image {
            image_url: "https://x/a.png".into(),
            url: String::new(),
            mime: String::new(),
        },
    ];
    p.meta = js(r#"{"is_group": false, "chat_id": "9"}"#);
    assert_eq!(p.channel, "telegram");
    assert_eq!(p.query_text(), "what color");
    assert_eq!(p.media_parts().len(), 1);
    assert_eq!(p.route_key(), "telegram:dm:9");
}

#[test]
fn merge_concat_parts() {
    let a = NativePayload::text_only("hook", "a");
    let mut b = NativePayload::text_only("hook", "b");
    b.content_parts.push(ContentPart::Image {
        image_url: "https://x/i.png".into(),
        url: String::new(),
        mime: String::new(),
    });
    let m = NativePayload::merge(vec![a, b]).unwrap();
    assert!(m.query_text().contains('a'));
    assert_eq!(m.media_parts().len(), 1);
}

fn ep_with(pairs: &[(&str, &str)]) -> ChannelEndpoint {
    let mut ep = endpoint("", "feishu");
    for (k, v) in pairs {
        ep.extra.insert(k, v);
    }
    ep
}

const FEISHU_BASE: &str = "https://open.feishu.cn";
const LARK_BASE: &str = "https://open.larksuite.com";

#[test]
fn credentials_app_id_secret() {
    let ep = ep_with(&[("app_id", "cli_a"), ("app_secret", "s3cret")]);
    assert_eq!(
        feishu::credentials(&ep),
        Some(("cli_a".into(), "s3cret".into()))
    );
}

#[test]
fn credentials_qr_client_id_maps_to_app_id() {
    let ep = ep_with(&[("client_id", "cli_qr"), ("app_secret", "s")]);
    assert_eq!(feishu::credentials(&ep).unwrap().0, "cli_qr");
}

#[test]
fn credentials_missing_secret() {
    let ep = ep_with(&[("app_id", "cli_a")]);
    assert!(feishu::credentials(&ep).is_none());
}

#[test]
fn domain_defaults_feishu() {
    let ep = ep_with(&[]);
    assert_eq!(feishu::open_base(&ep), FEISHU_BASE);
}

#[test]
fn domain_lark_from_domain() {
    let ep = ep_with(&[("domain", "lark")]);
    assert_eq!(feishu::open_base(&ep), LARK_BASE);
    let ep = ep_with(&[("domain", "larksuite")]);
    assert_eq!(feishu::open_base(&ep), LARK_BASE);
}

#[test]
fn domain_lark_from_tenant_brand() {
    let ep = ep_with(&[("tenant_brand", "lark")]);
    assert_eq!(feishu::open_base(&ep), LARK_BASE);
    let ep = ep_with(&[("tenant_brand", "feishu")]);
    assert_eq!(feishu::open_base(&ep), FEISHU_BASE);
}

#[test]
fn parse_text_content_json() {
    assert_eq!(feishu::parse_text_content_str(r#"{"text":"hello"}"#), "hello");
    assert_eq!(feishu::parse_text_content_str(""), "");
    assert_eq!(feishu::parse_text_content_str("plain"), "plain");
}

#[test]
fn native_p2p_text_event() {
    let ep = ep_with(&[]);
    let v = js(r##"{
        "header": {"event_type": "im.message.receive_v1"},
        "event": {
            "sender": {
                "sender_id": {"open_id": "ou_user"},
                "sender_type": "user"
            },
            "message": {
                "message_id": "om_1",
                "chat_id": "oc_dm",
                "chat_type": "p2p",
                "message_type": "text",
                "content": "{\"text\":\"hi bot\"}"
            }
        }
    }"##);
    let env = feishu::native_from_envelope(&ep, &v).unwrap();
    assert_eq!(env.channel, "feishu");
    assert_eq!(env.sender_id, "ou_user");
    assert_eq!(env.text, "hi bot");
    assert_eq!(env.meta.text_at("chat_id"), Some("oc_dm"));
    assert_eq!(env.meta.get("is_group"), Some(&Json::Bool(false)));
    assert_eq!(env.meta.text_at("message_id"), Some("om_1"));
    assert_eq!(env.meta.text_at("receive_id_type"), Some("open_id"));
    assert_eq!(env.meta.text_at("receive_id"), Some("ou_user"));
    assert_eq!(feishu::receive_id_type(&env), "open_id");
    assert_eq!(feishu::receive_id(&env, "open_id"), "ou_user");
}

#[test]
fn native_group_uses_chat_id() {
    let ep = ep_with(&[]);
    let v = js(r##"{
        "event": {
            "header": {"event_type": "im.message.receive_v1"},
            "sender": {"sender_id": {"open_id": "ou_2"}, "sender_type": "user"},
            "message": {
                "message_id": "om_g",
                "chat_id": "oc_group",
                "chat_type": "group",
                "message_type": "text",
                "content": {"text": "hey"},
                "mentions": [{"id": {"open_id": "ou_bot"}}]
            }
        }
    }"##);
    let env = feishu::native_from_envelope(&ep, &v).unwrap();
    assert_eq!(env.meta.get("is_group"), Some(&Json::Bool(true)));
    assert_eq!(env.meta.text_at("receive_id_type"), Some("chat_id"));
    assert_eq!(env.meta.text_at("receive_id"), Some("oc_group"));
    assert_eq!(env.meta.get("is_mentioned"), Some(&Json::Bool(true)));
    assert_eq!(feishu::receive_id(&env, "chat_id"), "oc_group");
}

#[test]
fn native_ingests_image() {
    let ep = ep_with(&[]);
    let v = js(r##"{
        "event": {
            "sender": {"sender_id": {"open_id": "ou_u"}, "sender_type": "user"},
            "message": {
                "message_id": "om_i",
                "chat_id": "oc_dm",
                "chat_type": "p2p",
                "message_type": "image",
                "content": "{\"image_key\":\"img_x\"}"
            }
        }
    }"##);
    let env = feishu::native_from_envelope(&ep, &v).expect("image");
    assert_eq!(env.text, "[图片]");
}

#[test]
fn skips_bot_sender() {
    let ep = ep_with(&[]);
    let v = js(r##"{
        "event": {
            "sender": {"sender_id": {"open_id": "ou_bot"}, "sender_type": "app"},
            "message": {
                "chat_id": "oc_x",
                "chat_type": "p2p",
                "message_type": "text",
                "content": "{\"text\":\"nope\"}"
            }
        }
    }"##);
    assert!(feishu::native_from_envelope(&ep, &v).is_none());
}

#[test]
fn protobuf_ping_roundtrip() {
    let f = PbFrame::ping(42);
    let bytes = f.encode();
    let d = PbFrame::decode(&bytes).unwrap();
    assert_eq!(d.service, 42);
    assert_eq!(d.method, PB_CONTROL);
    assert_eq!(d.header("type"), "ping");
    assert_eq!(d.seq_id, 0);
}

#[test]
fn protobuf_event_payload_is_json() {
    let payload = print_json(&js(r##"{
        "header": {"event_type": "im.message.receive_v1"},
        "event": {
            "sender": {"sender_id": {"open_id": "ou_z"}, "sender_type": "user"},
            "message": {
                "message_id": "om_z",
                "chat_id": "oc_z",
                "chat_type": "p2p",
                "message_type": "text",
                "content": "{\"text\":\"from pb\"}"
            }
        }
    }"##))
    .into_bytes();
    let frame = PbFrame {
        method: PB_DATA,
        headers: vec![PbHeader {
            key: "type".into(),
            value: "event".into(),
        }],
        payload,
        ..PbFrame::ping(0)
    };
    let d = PbFrame::decode(&frame.encode()).unwrap();
    assert_eq!(d.method, PB_DATA);
    let v = js(std::str::from_utf8(&d.payload).unwrap());
    let ep = ep_with(&[]);
    let env = feishu::native_from_envelope(&ep, &v).unwrap();
    assert_eq!(env.text, "from pb");
    assert_eq!(env.sender_id, "ou_z");
}

#[test]
fn json_ack_when_need_ack() {
    let v = js(r#"{"type": "event", "headers": {"need_ack": true, "message_id": "m1"}}"#);
    let ack = feishu::json_ack(&v).unwrap();
    assert!(ack.contains("m1"));
    assert!(ack.contains("ack"));
}

#[test]
fn backoff_caps() {
    assert_eq!(supervise_backoff_secs(1), 5);
    assert_eq!(supervise_backoff_secs(2), 10);
    assert_eq!(supervise_backoff_secs(3), 20);
    assert_eq!(supervise_backoff_secs(20), BACKOFF_MAX_SECS);
}

#[test]
fn fatal_unknown_kind() {
    assert!(is_fatal_serve_error(
        "q38 channel discord: no in-process client"
    ));
    assert!(!is_fatal_serve_error("wechat HTTP 502"));
}

#[test]
fn interrupt_stashes_redirect() {
    let mut m = Mailbox::default();
    assert_eq!(
        m.offer_while_busy("fix auth".into()),
        BusyDecision::AbortThenRedirect
    );
    assert_eq!(m.take_redirect().as_deref(), Some("fix auth"));
}

#[test]
fn queue_then_pop_fifo() {
    let mut m = Mailbox {
        busy: BusyPolicy::Queue,
        ..Mailbox::default()
    };
    m.offer_while_busy("a".into());
    m.offer_while_busy("b".into());
    assert_eq!(m.pop_queue().as_deref(), Some("a"));
    assert_eq!(m.pop_queue().as_deref(), Some("b"));
}

#[test]
fn peek_does_not_consume_steer() {
    let mut m = Mailbox::default();
    m.push_steer("focus auth".into());
    assert_eq!(m.steered(), 1);
    assert_eq!(m.peek_steer(), vec!["focus auth".to_string()]);
    assert_eq!(m.steered(), 1);
    assert_eq!(m.take_unused_steer(), vec!["focus auth".to_string()]);
    assert_eq!(m.steered(), 0);
}

#[test]
fn round_trip_save_keeps_secret_and_bot_token() {
    let mut prev = endpoint("tg", "telegram");
    prev.secret = "hook-secret".into();
    prev.extra.insert("bot_token", "123:ABC");
    prev.extra.insert("bot_username", "q38bot");

    let mut incoming = endpoint("tg", "telegram");
    incoming.enabled = true;
    incoming.extra.insert("bot_username", "q38bot");
    incoming.extra.insert("bot_token", "true");

    let out = merge_channel_endpoints(&vec![prev], vec![incoming]);
    assert_eq!(out[0].secret, "hook-secret");
    assert_eq!(
        out[0].extra.get("bot_token").map(String::as_str),
        Some("123:ABC")
    );
    assert_eq!(
        out[0].extra.get("bot_username").map(String::as_str),
        Some("q38bot")
    );
    assert!(out[0].enabled);
}

#[test]
fn typed_secret_replaces() {
    let mut prev = endpoint("wh", "");
    prev.secret = "old".into();
    let mut incoming = endpoint("wh", "");
    incoming.secret = "new".into();
    let out = merge_channel_endpoints(&vec![prev], vec![incoming]);
    assert_eq!(out[0].secret, "new");
}

#[test]
fn upsert_does_not_drop_siblings() {
    let mut list = vec![endpoint("tg", "telegram")];
    upsert_channel_endpoint(&mut list, endpoint("hook", "webhook"));
    assert_eq!(list.len(), 2);
    remove_channel_endpoint(&mut list, "hook");
    assert_eq!(list.len(), 1);
    assert_eq!(list[0].id, "tg");
}

#[test]
fn known_kind_includes_scan_platforms() {
    for k in ["feishu", "qq", "wechat", "wecom", "dingtalk"] {
        assert!(known_kind(k), "{k}");
        assert!(endpoint_kind(k), "{k}");
    }
    assert!(!endpoint_kind("cli"));
}

#[test]
fn exclusive_kinds() {
    assert!(needs_exclusive("wechat"));
    assert!(needs_exclusive("Telegram"));
    assert!(!needs_exclusive("webhook"));
    assert!(!needs_exclusive("console"));
}

#[test]
fn webhooks_have_no_lock_file() {
    assert_eq!(lock_file_name("webhook", "wh"), None);
    assert_eq!(lock_file_name("wechat", "bot").as_deref(), Some("bot.poll.lock"));
}

#[test]
fn qq_rate_limit_keeps_waiting() {
    let p = qq_map_result(
        &js(r#"{"msg":"轮询频率过高，请稍后再试","retcode":30012}"#),
        "unused",
    );
    assert_eq!(p.status, "waiting");
    assert!(p.credentials.get("app_id").is_none());
    assert_eq!(p.credentials, Table::new());
}

#[test]
fn qq_status_one_is_still_pending() {
    let p = qq_map_result(
        &js(r#"{"retcode":0,"msg":"success","data":{"status":1,"bot_appid":"0","bot_encrypt_secret":"","user_openid":""}}"#),
        "unused",
    );
    assert_eq!(p.status, "waiting");
}

#[test]
fn qq_token_roundtrip() {
    let tok = encode_poll_token("task-1", "aes-key");
    let (id, key) = decode_poll_token(&tok).unwrap();
    assert_eq!(id, "task-1");
    assert_eq!(key, "aes-key");
}

#[test]
fn qq_decrypt_aes256_gcm() {
    let key = STANDARD.decode(generate_bind_key()).unwrap();
    let cipher = Aes256Gcm::new_from_slice(&key).unwrap();
    let iv = [9u8; 12];
    let nonce = Nonce::from_slice(&iv);
    let ct = cipher.encrypt(nonce, b"qq-secret".as_ref()).unwrap();
    let mut raw = iv.to_vec();
    raw.extend_from_slice(&ct);
    let got = decrypt_secret(&STANDARD.encode(raw), &STANDARD.encode(&key)).unwrap();
    assert_eq!(got, "qq-secret");
}

#[test]
fn a_bind_key_is_made_of_two_identifiers() {
    let key = bind_key_of(&vec![1u8; 16], &vec![2u8; 16]);
    let mut both = vec![1u8; 16];
    both.extend([2u8; 16]);
    assert_eq!(key, STANDARD.encode(both));
    let drawn = STANDARD.decode(generate_bind_key()).unwrap();
    assert_eq!(drawn.len(), 32);
    for half in [&drawn[..16], &drawn[16..]] {
        assert_eq!(half[6] >> 4, 4);
        assert_eq!(half[8] >> 6, 2);
    }
    assert_ne!(generate_bind_key(), generate_bind_key());
}

#[test]
fn dingtalk_waiting_until_both_creds() {
    let waiting = dingtalk_map_status(&js(r#"{"status": "WAITING"}"#));
    assert_eq!(waiting.status, "waiting");
    let approving = dingtalk_map_status(&js(
        r#"{"status": "APPROVING", "client_id": "id-1", "client_secret": "sec-1"}"#,
    ));
    assert_eq!(approving.status, "success");
    assert_eq!(approving.credentials.get("client_id").unwrap(), "id-1");
    let expired = dingtalk_map_status(&js(r#"{"status": "EXPIRED"}"#));
    assert_eq!(expired.status, "expired");
    let null_id = dingtalk_map_status(&js(
        r#"{"status": "SUCCESS", "client_id": null, "client_secret": "x"}"#,
    ));
    assert_eq!(null_id.status, "waiting");
}

#[test]
fn wecom_settings_from_html() {
    let html = r#"<script>window.settings = {"scode":"abc","auth_url":"https://work.weixin.qq.com/qr"};</script>"#;
    let v = wecom_settings_json(html).unwrap();
    assert_eq!(v.text_at("scode"), Some("abc"));
}

#[test]
fn qr_svg_data_uri() {
    let img = qr_image_from_url("https://example.com/scan").unwrap();
    assert!(img.starts_with("data:image/svg+xml;base64,"));
}

fn from_sender(channel: &str, text: &str, id: &str) -> NativePayload {
    let mut p = NativePayload::text_only(channel, text);
    p.sender_id = id.into();
    p
}

#[test]
fn same_sender_reuses_session() {
    let mut r = SessionRouter::open(Table::new());
    let env = from_sender("telegram", "hi", "7");
    let a = r.resolve(&env, "s-1");
    let b = r.resolve(&env, "s-2");
    assert_eq!(a.session_id, b.session_id);
    let stored = r.overlay(&Table::new());
    let mut r2 = SessionRouter::open(stored);
    assert_eq!(r2.resolve(&env, "s-3").session_id, a.session_id);
}

#[test]
fn flush_merges_other_managers_keys() {
    let mut disk = Table::new();
    let mut wechat = SessionRouter::open(disk.copy());
    let mut qq = SessionRouter::open(disk.copy());
    let wx = from_sender("wechat", "hi", "wx-1");
    let qq_env = from_sender("qq", "hi", "qq-1");
    let wx_id = wechat.resolve(&wx, "s-1").session_id;
    disk = wechat.overlay(&disk);
    let qq_id = qq.resolve(&qq_env, "s-2").session_id;
    disk = qq.overlay(&disk);
    let wx2 = from_sender("wechat", "again", "wx-2");
    wechat.resolve(&wx2, "s-3");
    disk = wechat.overlay(&disk);
    let disk = SessionRouter::open(disk);
    assert_eq!(disk.lookup(&wx.route_key()), Some(&wx_id));
    assert_eq!(disk.lookup(&qq_env.route_key()), Some(&qq_id));
    assert!(disk.lookup(&wx2.route_key()).is_some());
}

#[test]
fn an_event_is_found_however_deep_texts_stand_in_texts() {
    let mut text = r#"{"sender": {"sender_id": {"open_id": "ou_user"}}, "message": {"message_id": "om_9", "chat_id": "oc_dm", "chat_type": "p2p", "message_type": "text", "content": "{\"text\":\"deep\"}"}}"#
        .to_owned();
    let event = js(&text);
    for _ in 0..80 {
        let quoted = text.replace('\\', "\\u005c").replace('"', "\\u0022");
        text = format!("{{\"data\": \"{quoted}\"}}");
    }
    let v = js(&text);
    assert_eq!(feishu::extract_event(&v), Some(event));
    let ep = ep_with(&[("app_id", "cli_x"), ("app_secret", "s")]);
    assert_eq!(feishu::native_from_envelope(&ep, &v).unwrap().text, "deep");
    assert_eq!(feishu::extract_event(&js(r#"{"data": "{\"data\": \"no event\"}"}"#)), None);
}
