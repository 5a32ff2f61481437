use q38::channel::access::{admission, DenyReason, GateDecision};
use q38::channel::catalog::{catalog, catalog_json, kind_spec};
use q38::channel::config::{ChannelEndpoint, ChannelsConfig};
use q38::channel::dingtalk;
use q38::channel::envelope::{boolish, ContentPart, NativePayload};
use q38::channel::feishu::{
    self, assemble, send_next, ws_endpoint, ws_endpoint_next, Attempt, CachedToken, EndpointNext,
    SendNext, Sent,
};
use q38::channel::inbound::{
    inbound_channel, inbound_session, lock_conflict_message, run, serve_endpoint, ClientEvent,
    ClientKind, ClientWatch, Supervisor,
};
use q38::channel::mailbox::{BusyDecision, BusyPolicy, Mailbox};
use q38::channel::manager::{ingest, Dispatcher, IngestResult};
use q38::channel::outbound::{
    deliver, outbound_notification, parts_to_text, reply_text, webhook_token, webhook_url, Carrier,
};
use q38::channel::qq::{self, Gateway};
use q38::channel::qrcode::{
    dingtalk_init, feishu_accounts, feishu_poll, fetch_qrcode, poll_qrcode, qq_fetch,
    fresh_wechat_uin, wechat_fetch, wechat_poll, wechat_uin, wecom_poll, QrError, QrKind,
};
use q38::channel::router::SessionRouter;
use q38::fault::Fault;
use q38::json::Json;
use q38::outside::parse_json;
use q38::pb::{PbFrame, PbHeader};

fn js(text: &str) -> Json {
    parse_json(text).expect("json")
}

fn endpoint(id: &str, kind: &str) -> ChannelEndpoint {
    let mut ep = ChannelEndpoint::default();
    ep.id = id.into();
    ep.kind = kind.into();
    ep.enabled = true;
    ep
}

fn text_of(p: &[ContentPart]) -> Vec<&str> {
    p.iter().filter_map(|x| x.as_text()).collect()
}

#[test]
fn channels_have_their_rules() {
    let mut ep = endpoint("tg", "telegram");
    let mut env = NativePayload::text_only("telegram", "hi");
    env.sender_id = "7".into();
    ep.deny_from = vec!["7".into()];
    assert_eq!(admission(&ep, &env), GateDecision::Deny(DenyReason::DenyFrom));
    ep.deny_from = vec![];
    ep.dm_policy = "closed".into();
    assert_eq!(admission(&ep, &env), GateDecision::Deny(DenyReason::Closed));
    let cfg = ChannelsConfig {
        busy: "queue".into(),
        enabled: vec![],
        endpoints: vec![ep],
    };
    assert_eq!(ingest(&cfg, env), Err(DenyReason::Closed));
    assert_eq!(cfg.busy_policy(), BusyPolicy::Queue);
    let env = NativePayload::text_only("telegram", "hi");
    assert!(ingest(&ChannelsConfig::default(), env).is_ok());
    let denied = IngestResult::of(Err(DenyReason::Closed));
    assert_eq!((denied.session_id.as_str(), denied.denied), ("", Some(DenyReason::Closed)));
    assert_eq!(IngestResult::of(Ok("s".into())).session_id, "s");
}

#[test]
fn messages_of_a_session_go_in_one_batch() {
    let mut d = Dispatcher::new();
    let msg = |session: &str, text: &str| {
        let mut p = NativePayload::text_only("telegram", text);
        p.session_id = session.into();
        p
    };
    let id = d.on_message(msg("s1", "a"));
    assert_eq!(d.on_message(msg("s1", "b")), id);
    let other = d.on_message(msg("s2", "c"));
    assert_ne!(other, id);
    let batch = d.on_flush(&id).unwrap();
    assert!(batch.query_text().contains('a') && batch.query_text().contains('b'));
    assert!(!batch.query_text().contains('c'));
    assert!(d.on_flush(&id).is_none());
    assert_eq!(d.on_flush(&other).unwrap().query_text(), "c");
}

#[test]
fn busy_sessions_keep_what_comes() {
    let mut m = Mailbox::default();
    m.busy = BusyPolicy::Steer;
    assert_eq!(m.offer_while_busy("look".into()), BusyDecision::Steered);
    assert_eq!(m.steer_slot().notes, vec!["look".to_owned()]);
    for (name, p) in [
        ("interrupt", BusyPolicy::Interrupt),
        ("queue", BusyPolicy::Queue),
        ("steer", BusyPolicy::Steer),
    ] {
        assert_eq!(p.as_str(), name);
        assert_eq!(BusyPolicy::parse(name), Ok(p));
    }
    assert!(BusyPolicy::parse("nope").is_err());
}

#[test]
fn replies_go_where_the_message_came_from() {
    assert!(reply_text("  ").is_empty());
    let parts = reply_text("hi");
    assert_eq!(text_of(&parts), vec!["hi"]);
    assert_eq!(parts_to_text(&parts), "hi");
    let env = NativePayload::text_only("qq", "x");
    let ep = endpoint("q", "qq");
    assert_eq!(deliver(Some(&ep), &env, &parts), Some(Carrier::Qq));
    assert_eq!(deliver(Some(&ep), &env, &vec![]), None);
    let mut hook = endpoint("h", "webhook");
    hook.reply_url = "http://r".into();
    hook.secret = "s".into();
    assert_eq!(webhook_url(Some(&hook), &env).as_deref(), Some("http://r"));
    assert_eq!(webhook_token(Some(&hook)).as_deref(), Some("s"));
    assert!(webhook_url(None, &env).is_none());
    let note = outbound_notification(&env, &parts);
    assert!(note.is_object());
    assert_eq!(SessionRouter::in_home("/h"), "/h/channels/routes.json");
    assert_eq!(SessionRouter::in_home("/h/"), "/h/channels/routes.json");
    assert_eq!(SessionRouter::in_home(""), "channels/routes.json");
    assert!(boolish(&Json::Bool(true)) && !boolish(&Json::Null));
}

#[test]
fn clients_are_watched() {
    let mut s = Supervisor::new();
    assert_eq!(s.keep_client_watched(ClientEvent::Locked), ClientWatch::Running);
    let w = s.keep_client_watched(ClientEvent::Failed("wechat HTTP 502".into()));
    assert!(matches!(w, ClientWatch::Retry { wait_secs: 5, .. }), "{w:?}");
    let w = s.keep_client_watched(ClientEvent::Failed("wechat HTTP 502".into()));
    assert!(matches!(w, ClientWatch::Retry { wait_secs: 10, .. }), "{w:?}");
    let fatal = serve_endpoint(&endpoint("d", "discord")).unwrap_err();
    let said = match fatal {
        q38::fault::Fault::Msg(s) => s,
        other => panic!("{other:?}"),
    };
    let w = s.keep_client_watched(ClientEvent::Failed(said));
    assert!(matches!(w, ClientWatch::Fatal { .. }), "{w:?}");
    assert_eq!(serve_endpoint(&endpoint("q", "QQ")), Ok(ClientKind::Qq));
    assert!(lock_conflict_message("wechat", "bot", "42").contains("42"));
    let mut cfg = ChannelsConfig::default();
    cfg.endpoints = vec![endpoint("q", "qq")];
    let plan = run(&cfg).unwrap();
    assert_eq!(plan.len(), 1);
    assert_eq!(plan[0].client, ClientKind::Qq);
    assert!(run(&ChannelsConfig::default()).is_err());
    let env = NativePayload::text_only("qq", "x");
    assert!(!inbound_session(&env).is_empty());
    assert_eq!(inbound_channel(&env), "qq");
}

#[test]
fn the_catalog_names_every_kind() {
    let all = catalog();
    assert!(all.len() > 5);
    for k in &all {
        assert_eq!(kind_spec(&k.id).unwrap().name, k.name);
    }
    assert!(kind_spec("nope").is_none());
    let v = catalog_json();
    let n = match &v {
        Json::Array(a) => a.len(),
        Json::Object(_) => all.len(),
        _ => 0,
    };
    assert_eq!(n, all.len());
}

#[test]
fn qq_payloads_are_answered() {
    let ep = endpoint("q", "qq");
    let mut g = Gateway::new("tok");
    let hello = g.on_text(&ep, r#"{"op": 10, "d": {"heartbeat_interval": 30000}}"#);
    assert!(matches!(hello, qq::Step::Identify { interval_ms: 30000, .. }), "{hello:?}");
    let event = r#"{"op": 0, "s": 5, "t": "C2C_MESSAGE_CREATE", "d": {"id": "m1", "content": " hi ", "author": {"user_openid": "u1"}}}"#;
    let step = g.on_text(&ep, event);
    let env = match step {
        qq::Step::Ingest(env) => env,
        other => panic!("{other:?}"),
    };
    assert_eq!(env.query_text(), "hi");
    assert_eq!(env.sender_id, "u1");
    assert_eq!(g.last_seq, Some(5));
    assert!(g.heartbeat().contains('5'));
    assert!(qq::send_path(&env).contains("u1"));
    assert!(qq::send_body(&env, "yo", 1).is_object());
    assert_eq!(g.on_text(&ep, r#"{"op": 7}"#), qq::Step::Reconnect);
    assert!(qq::access_token(&js("{}")).is_err());
    assert_eq!(qq::access_token(&js(r#"{"access_token": "t"}"#)), Ok("t".to_owned()));
}

#[test]
fn dingtalk_frames_are_answered() {
    let ep = endpoint("d", "dingtalk");
    let ping = r#"{"type": "SYSTEM", "headers": {"topic": "ping", "messageId": "m"}, "data": "{}"}"#;
    let step = dingtalk::handle_text(&ep, ping);
    assert!(step.send.unwrap().contains("\"m\""));
    assert!(dingtalk::open_connection(true, "200", &js("{}")).is_err());
    assert_eq!(
        dingtalk::open_connection(true, "200", &js(r#"{"endpoint": "wss://h", "ticket": "t"}"#)),
        Ok(("wss://h".to_owned(), "t".to_owned()))
    );
    let env = NativePayload::text_only("dingtalk", "x");
    assert_eq!(dingtalk::send(&env, &vec![]), Ok(None));
    assert!(dingtalk::send(&env, &reply_text("hi")).is_err());
    assert!(dingtalk::check_answer(&js(r#"{"errcode": 0}"#)).is_none());
    assert!(dingtalk::check_answer(&js(r#"{"errcode": 310000, "errmsg": "no"}"#)).is_some());
}

#[test]
fn feishu_frames_are_answered() {
    let ep = endpoint("f", "feishu");
    let mut frags = vec![];
    let step = feishu::handle_binary(&ep, &PbFrame::ping(3).encode(), &mut frags);
    let pong = PbFrame::decode(&step.send_binary.unwrap()).unwrap();
    assert_eq!(pong.header("type"), "pong");
    assert!(step.payload.is_none());
    assert!(feishu::handle_binary(&ep, &vec![0x0a], &mut frags).skipped);
    assert!(feishu::handle_text(&ep, "not json").payload.is_none());
    assert_eq!(
        feishu::pick_ws_url(&js(r#"{"data": {"URL": "wss://x?service_id=7"}}"#)).as_deref(),
        Some("wss://x?service_id=7")
    );
    assert_eq!(feishu::query_i32("wss://x?a=1&service_id=7", "service_id"), 7);
    assert!(feishu::post_ws_url(true, "200", &js("{}")).is_err());
    assert!(feishu::tenant_token(&js(r#"{"code": 1}"#)).is_err());
    let t = CachedToken::fresh("a", "b", "tok", 100);
    assert_eq!(t.usable("a", "b", 101).as_deref(), Some("tok"));
    assert!(t.usable("other", "b", 101).is_none());
    assert!(t.usable("a", "b", 100 + 3000).is_none());
    assert_eq!(feishu::send_text(200, "200 OK", &js(r#"{"code": 0}"#)), Sent::Done);
    assert!(matches!(feishu::send_text(401, "401", &js("{}")), Sent::Unauthorized(_)));
    assert!(matches!(feishu::send_text(500, "500", &js("{}")), Sent::Failed(_)));
}

#[test]
fn codes_are_fetched_and_polled() {
    assert_eq!(fetch_qrcode("feishu"), Ok(QrKind::Feishu));
    assert!(matches!(fetch_qrcode("telegram"), Err(QrError::UnknownKind(_))));
    assert!(matches!(poll_qrcode("qq", " "), Err(QrError::BadToken(_))));
    assert_eq!(poll_qrcode("QQ", " t ").map(|p| p.1), Ok("t".to_owned()));
    assert!(wechat_fetch(false, "502", &js("{}")).is_err());
    assert_eq!(wechat_poll(&js("{}")).status, "waiting");
    assert_eq!(wecom_poll(&js("{}")).status, "waiting");
    assert_eq!(feishu_poll(&js("{}")).status, "waiting");
    assert!(dingtalk_init(&js("{}")).is_err());
    assert!(qq_fetch("q.qq.com", "key", &js(r#"{"retcode": 3}"#)).is_err());
    assert_ne!(feishu_accounts(Some("lark")), feishu_accounts(None));
    assert!(!QrError::UnknownKind("x".into()).message().is_empty());
}

#[test]
fn replies_are_tried_twice_at_most() {
    let gone = || Attempt::Unreachable(Fault::Msg("gone".into()));
    assert_eq!(send_next(false, gone()), SendNext::Again { drop_token: false });
    assert!(matches!(send_next(true, gone()), SendNext::GiveUp { drop_token: false, .. }));
    let stale = || Attempt::Answered(Sent::Unauthorized(Fault::Msg("x".into())));
    assert_eq!(send_next(false, stale()), SendNext::Again { drop_token: true });
    assert!(matches!(send_next(true, stale()), SendNext::GiveUp { drop_token: true, .. }));
    let no = Attempt::Answered(Sent::Failed(Fault::Msg("x".into())));
    assert!(matches!(send_next(false, no), SendNext::GiveUp { .. }));
    assert_eq!(send_next(false, Attempt::Answered(Sent::Done)), SendNext::Done);
}

#[test]
fn lists_and_queues_are_shown() {
    let mut cfg = ChannelsConfig::default();
    cfg.endpoints = vec![endpoint("q", "qq")];
    let n = match cfg.list_json() {
        Json::Array(rows) => rows.len(),
        _ => 0,
    };
    assert_eq!(n, 4);
    let mut m = Mailbox::default();
    m.push_queue("a".into());
    m.push_queue("b".into());
    assert_eq!(m.queued(), 2);
    assert_eq!(m.peek_queue(), vec!["a".to_owned(), "b".to_owned()]);
    assert_eq!(m.clear_queue(), 2);
    assert!(!m.has_redirect());
    m.offer_while_busy("now".into());
    assert!(m.has_redirect());
    let mut ep = endpoint("q", "qq");
    ep.extra.insert("api_base", "http://own/");
    assert_eq!(
        qq::api_bases(&ep, Some(" http://env/ ")),
        vec![
            "http://own".to_owned(),
            "http://env".to_owned(),
            "https://api.sgroup.qq.com".to_owned(),
            "https://sandbox.api.sgroup.qq.com".to_owned(),
        ]
    );
    assert_eq!(
        qq::gateway_url(true, "http://own", "200 OK", &js(r#"{"url": "wss://g"}"#)),
        Ok("wss://g".to_owned())
    );
    assert!(qq::gateway_url(false, "http://own", "500", &js("{}")).is_err());
    assert!(dingtalk::check_sent(false, "500", "no").is_some());
    assert!(dingtalk::check_sent(true, "200", "{\"errcode\": 0}").is_none());
    assert_eq!(dingtalk::open_body("i", "s").text_at("clientId"), Some("i"));
    let msg = NativePayload::text_only("qq", "hi").to_chat_message();
    assert_eq!((msg.role.as_str(), msg.content.as_str()), ("user", "hi"));
}

fn part(id: &str, sum: usize, seq: usize, payload: &[u8]) -> PbFrame {
    let header = |key: &str, value: String| PbHeader { key: key.into(), value };
    PbFrame {
        headers: vec![
            header("message_id", id.into()),
            header("sum", sum.to_string()),
            header("seq", seq.to_string()),
        ],
        payload: payload.to_vec(),
        ..PbFrame::ping(0)
    }
}

#[test]
fn parts_come_in_any_order() {
    let parts: [&[u8]; 3] = [b"ab", b"c", b"de"];
    for order in [[0, 1, 2], [0, 2, 1], [1, 0, 2], [1, 2, 0], [2, 0, 1], [2, 1, 0]] {
        let mut frags = vec![];
        assert_eq!(assemble(&part("other", 2, 0, b"x"), &mut frags), None);
        for (i, k) in order.into_iter().enumerate() {
            let got = assemble(&part("m", 3, k, parts[k]), &mut frags);
            if i < 2 {
                assert_eq!(got, None);
            } else {
                assert_eq!(got.as_deref(), Some(&b"abcde"[..]));
            }
        }
        assert_eq!(frags.len(), 1);
        assert_eq!(frags[0].id, "other");
    }
    let mut frags = vec![];
    assert_eq!(assemble(&part("m", 1, 0, b"z"), &mut frags).as_deref(), Some(&b"z"[..]));
    assert_eq!(assemble(&part("", 3, 0, b"z"), &mut frags).as_deref(), Some(&b"z"[..]));
    assert!(frags.is_empty());
}

#[test]
fn the_address_of_the_socket_is_asked_for_three_times_at_most() {
    let asks = ws_endpoint("https://b", "id", "sec");
    assert_eq!(asks.len(), 3);
    assert_eq!(asks[0].url, "https://b/open-apis/callback/ws/endpoint");
    assert_eq!(asks[1].url, "https://b/callback/ws/endpoint");
    assert_eq!(asks[2].url, asks[1].url);
    assert!(asks[0].with_token && asks[1].with_token && !asks[2].with_token);
    assert_eq!(asks[2].body.text_at("AppSecret"), Some("sec"));
    let no = || Err(Fault::Msg("no".into()));
    assert_eq!(ws_endpoint_next(0, no()), EndpointNext::Try(1));
    assert_eq!(ws_endpoint_next(1, no()), EndpointNext::Try(2));
    assert_eq!(ws_endpoint_next(2, no()), EndpointNext::Failed(Fault::Msg("no".into())));
    assert_eq!(ws_endpoint_next(0, Ok("u".into())), EndpointNext::Found("u".into()));
}

#[test]
fn the_first_host_of_qq_that_answers_is_taken() {
    let bases = vec!["http://a".to_owned(), "http://b".to_owned()];
    let down = || Fault::Msg("down".to_owned());
    let ask = |url: &str| qq::GatewayNext::Ask(url.to_owned());
    assert_eq!(qq::gateway_next(&bases, 0, None), ask("http://a/gateway"));
    assert_eq!(qq::gateway_next(&bases, 1, Some(Err(down()))), ask("http://b/gateway"));
    assert_eq!(
        qq::gateway_next(&bases, 1, Some(Ok("wss://g".to_owned()))),
        qq::GatewayNext::Found("wss://g".to_owned())
    );
    assert_eq!(
        qq::gateway_next(&bases, 2, Some(Err(down()))),
        qq::GatewayNext::Failed(down())
    );
    assert_eq!(
        qq::gateway_next(&vec![], 0, None),
        qq::GatewayNext::Failed(Fault::Msg("qq gateway: no api base".to_owned()))
    );
}

#[test]
fn a_reply_to_qq_goes_to_the_first_host_that_takes_it() {
    let bases = vec!["http://a".to_owned(), "http://b".to_owned()];
    let wrong = || qq::send_fault(false, "500 Internal Server Error", "no");
    let post = |url: &str| qq::SendNext::Post(url.to_owned());
    assert_eq!(qq::send_next(&bases, "/v2/x", 0, None), post("http://a/v2/x"));
    assert_eq!(qq::send_next(&bases, "/v2/x", 1, wrong()), post("http://b/v2/x"));
    assert_eq!(
        qq::send_next(&bases, "/v2/x", 1, qq::send_fault(true, "200 OK", "")),
        qq::SendNext::Done
    );
    assert_eq!(
        qq::send_next(&bases, "/v2/x", 2, wrong()),
        qq::SendNext::Failed(Fault::Msg("qq send 500 Internal Server Error no".to_owned()))
    );
    assert_eq!(
        qq::send_next(&vec![], "/v2/x", 0, None),
        qq::SendNext::Failed(Fault::Msg("qq send failed".to_owned()))
    );
}

#[test]
fn a_number_tells_requests_to_wechat_apart() {
    assert_eq!(wechat_uin(0), "MA==");
    assert_eq!(wechat_uin(12345), "MTIzNDU=");
    assert_eq!(wechat_uin(u32::MAX), "NDI5NDk2NzI5NQ==");
    assert_ne!(fresh_wechat_uin(), "");
}
