//! DingTalk: chatbot messages out of stream frames, and replies as markdown.

use vstd::prelude::*;
use crate::channel::config::{ChannelEndpoint, EndpointV};
use crate::channel::envelope::{
    blank_payload, boolish, says_yes, ContentPart, NativePayload, PartV, PayloadV,
};
use crate::channel::feishu::opt_payload;
use crate::channel::outbound::{parts_text, parts_to_text};
use crate::channel::wire::{js_at, js_at2, js_text};
use crate::fault::{Fault, FaultV};
use crate::json::{
    items_view, lemma_items_push, opt_json, opt_text, put, show_i64, signed_decimal, Json, JsonV,
};
use crate::outside::{json_text, parse_json, parsed_json, print_json, settled_json};
use crate::table::bound;
use crate::text::{
    blank, clip, clipped, contains, holds, is_blank, lower, same, same_ignoring_case, text2, text4,
    texts, to_lower, trim, trimmed,
};

verus! {

/// Where a stream is opened.
pub fn open_url() -> (r: &'static str)
    ensures
        r@ == "https://api.dingtalk.com/v1.0/gateway/connections/open"@,
{
    "https://api.dingtalk.com/v1.0/gateway/connections/open"
}

/// The topic of messages to the bot.
pub fn bot_topic() -> (r: &'static str)
    ensures
        r@ == "/v1.0/im/bot/messages/get"@,
{
    "/v1.0/im/bot/messages/get"
}

pub const MAX_MARKDOWN: usize = 20000;

// ---------------------------------------------------------------------------
// Settings
// ---------------------------------------------------------------------------

/// A setting without the space around it, where anything is left.
pub open spec fn setting(s: Option<Seq<char>>) -> Option<Seq<char>> {
    match s {
        Some(t) => if trimmed(t).len() > 0 {
            Some(trimmed(t))
        } else {
            None
        },
        None => None,
    }
}

pub open spec fn first_setting(a: Option<Seq<char>>, b: Option<Seq<char>>) -> Option<Seq<char>> {
    match setting(a) {
        Some(s) => Some(s),
        None => setting(b),
    }
}

/// Identifier and secret: each from the endpoint, else from the environment.
pub open spec fn picked(
    extra_id: Option<Seq<char>>,
    extra_secret: Option<Seq<char>>,
    env_id: Option<Seq<char>>,
    env_secret: Option<Seq<char>>,
) -> Option<(Seq<char>, Seq<char>)> {
    match (first_setting(extra_id, env_id), first_setting(extra_secret, env_secret)) {
        (Some(a), Some(b)) => Some((a, b)),
        _ => None,
    }
}

pub open spec fn opt_str(s: Option<&str>) -> Option<Seq<char>> {
    match s {
        Some(t) => Some(t@),
        None => None,
    }
}

fn nonempty(s: Option<&str>) -> (r: Option<String>)
    ensures
        opt_text(r) == setting(opt_str(s)),
{
    match s {
        Some(t) => {
            let u = trim(t);
            if u.as_str().is_empty() {
                None
            } else {
                Some(u)
            }
        },
        None => None,
    }
}

fn first_nonempty(a: Option<&str>, b: Option<&str>) -> (r: Option<String>)
    ensures
        opt_text(r) == first_setting(opt_str(a), opt_str(b)),
{
    match nonempty(a) {
        Some(s) => Some(s),
        None => nonempty(b),
    }
}

/// Identifier and secret: each from the endpoint, else from the environment.
pub fn pick_credentials(
    extra_id: Option<&str>,
    extra_secret: Option<&str>,
    env_id: Option<&str>,
    env_secret: Option<&str>,
) -> (r: Option<(String, String)>)
    ensures
        r is Some <==> picked(
            opt_str(extra_id),
            opt_str(extra_secret),
            opt_str(env_id),
            opt_str(env_secret),
        ) is Some,
        r matches Some(x) ==> picked(
            opt_str(extra_id),
            opt_str(extra_secret),
            opt_str(env_id),
            opt_str(env_secret),
        ) == Some((x.0@, x.1@)),
{
    match (first_nonempty(extra_id, env_id), first_nonempty(extra_secret, env_secret)) {
        (Some(a), Some(b)) => Some((a, b)),
        _ => None,
    }
}

/// Identifier and secret of an endpoint, with what the environment has for them.
pub fn credentials(ep: &ChannelEndpoint, env_id: Option<&str>, env_secret: Option<&str>) -> (r:
    Option<(String, String)>)
    ensures
        ({
            let p = picked(
                bound(ep@.extra, "client_id"@),
                bound(ep@.extra, "client_secret"@),
                opt_str(env_id),
                opt_str(env_secret),
            );
            &&& r is Some <==> p is Some
            &&& r matches Some(x) ==> p == Some((x.0@, x.1@))
        }),
{
    let id: Option<&str> = match ep.extra.get("client_id") {
        Some(s) => Some(s.as_str()),
        None => None,
    };
    let secret: Option<&str> = match ep.extra.get("client_secret") {
        Some(s) => Some(s.as_str()),
        None => None,
    };
    pick_credentials(id, secret, env_id, env_secret)
}

// ---------------------------------------------------------------------------
// The connection
// ---------------------------------------------------------------------------

pub open spec fn subscription(kind: Seq<char>, topic: Seq<char>) -> JsonV {
    put(
        put(JsonV::Object(Map::empty()), "type"@, JsonV::Str(kind)),
        "topic"@,
        JsonV::Str(topic),
    )
}

/// What is posted to open a stream.
pub open spec fn open_request(id: Seq<char>, secret: Seq<char>) -> JsonV {
    put(
        put(
            put(
                put(
                    put(JsonV::Object(Map::empty()), "clientId"@, JsonV::Str(id)),
                    "clientSecret"@,
                    JsonV::Str(secret),
                ),
                "subscriptions"@,
                JsonV::Array(
                    seq![
                        subscription("CALLBACK"@, "/v1.0/im/bot/messages/get"@),
                        subscription("EVENT"@, "*"@),
                    ],
                ),
            ),
            "ua"@,
            JsonV::Str("q38"@),
        ),
        "localIp"@,
        JsonV::Str("127.0.0.1"@),
    )
}

fn subscription_of(kind: &str, topic: &str) -> (r: Json)
    ensures
        r@ == subscription(kind@, topic@),
{
    Json::object().with("type", Json::string(kind)).with("topic", Json::string(topic))
}

/// What is posted to open a stream.
pub fn open_body(client_id: &str, client_secret: &str) -> (r: Json)
    ensures
        r@ == open_request(client_id@, client_secret@),
{
    let mut subs: Vec<Json> = Vec::new();
    let a = subscription_of("CALLBACK", bot_topic());
    let b = subscription_of("EVENT", "*");
    proof {
        lemma_items_push(subs@, a);
        lemma_items_push(subs@.push(a), b);
        assert(items_view(subs@) =~= Seq::empty());
    }
    subs.push(a);
    subs.push(b);
    assert(items_view(subs@) =~= seq![a@, b@]);
    Json::object().with("clientId", Json::string(client_id)).with(
        "clientSecret",
        Json::string(client_secret),
    ).with("subscriptions", Json::Array(subs)).with("ua", Json::string("q38")).with(
        "localIp",
        Json::string("127.0.0.1"),
    )
}

pub open spec fn text_or_empty(v: JsonV, key: Seq<char>) -> Seq<char> {
    match v.text_at(key) {
        Some(s) => s,
        None => Seq::empty(),
    }
}

fn text_or(v: &Json, key: &str) -> (r: String)
    ensures
        r@ == text_or_empty(v@, key@),
{
    match v.text_at(key) {
        Some(s) => s.to_owned(),
        None => String::new(),
    }
}

/// The stream that an answer opens, or what went wrong.
pub open spec fn open_answer(ok: bool, status: Seq<char>, data: JsonV) -> Result<
    (Seq<char>, Seq<char>),
    FaultV,
> {
    let endpoint = trimmed(text_or_empty(data, "endpoint"@));
    let ticket = trimmed(text_or_empty(data, "ticket"@));
    let shown = json_text(settled_json(data));
    if !ok {
        Err(FaultV::Msg("dingtalk open "@ + status + ": "@ + shown))
    } else if endpoint.len() == 0 || ticket.len() == 0 {
        Err(FaultV::Msg("dingtalk open: missing endpoint/ticket "@ + shown))
    } else {
        Ok((endpoint, ticket))
    }
}

/// The stream that an answer opens, or what went wrong.
pub fn open_connection(ok: bool, status: &str, data: &Json) -> (r: Result<(String, String), Fault>)
    ensures
        r is Ok <==> open_answer(ok, status@, data@) is Ok,
        r matches Ok(x) ==> open_answer(ok, status@, data@) == Ok::<(Seq<char>, Seq<char>), FaultV>(
            (x.0@, x.1@),
        ),
        r matches Err(e) ==> open_answer(ok, status@, data@) == Err::<
            (Seq<char>, Seq<char>),
            FaultV,
        >(e@),
{
    if !ok {
        return Err(
            Fault::Msg(text4("dingtalk open ", status, ": ", print_json(data).as_str())),
        );
    }
    let endpoint = trim(text_or(data, "endpoint").as_str());
    let ticket = trim(text_or(data, "ticket").as_str());
    if endpoint.as_str().is_empty() || ticket.as_str().is_empty() {
        return Err(
            Fault::Msg(
                text2("dingtalk open: missing endpoint/ticket ", print_json(data).as_str()),
            ),
        );
    }
    Ok((endpoint, ticket))
}

/// The address of a stream with its ticket.
pub open spec fn ticketed(endpoint: Seq<char>, ticket: Seq<char>) -> Seq<char> {
    endpoint + (if holds(endpoint, "?"@) {
        "&"@
    } else {
        "?"@
    }) + "ticket="@ + ticket
}

/// The address of a stream with its ticket.
pub fn ws_url(endpoint: &str, ticket: &str) -> (r: String)
    ensures
        r@ == ticketed(endpoint@, ticket@),
{
    let sep = if contains(endpoint, "?") {
        "&"
    } else {
        "?"
    };
    text4(endpoint, sep, "ticket=", ticket)
}

// ---------------------------------------------------------------------------
// Frames
// ---------------------------------------------------------------------------

pub open spec fn frame_header(frame: JsonV, key: Seq<char>) -> Seq<char> {
    text_or_empty(frame.at("headers"@), key)
}

fn header_str(frame: &Json, key: &str) -> (r: String)
    ensures
        r@ == frame_header(frame@, key@),
{
    match frame.get("headers") {
        Some(h) => text_or(h, key),
        None => String::new(),
    }
}

/// An acknowledgement with what it carries.
pub open spec fn ack_value(message_id: Seq<char>, data: Seq<char>) -> JsonV {
    let none = JsonV::Object(Map::empty());
    put(
        put(
            put(
                put(none, "code"@, JsonV::Int(200)),
                "headers"@,
                put(
                    put(none, "messageId"@, JsonV::Str(message_id)),
                    "contentType"@,
                    JsonV::Str("application/json"@),
                ),
            ),
            "message"@,
            JsonV::Str("OK"@),
        ),
        "data"@,
        JsonV::Str(data),
    )
}

/// An acknowledgement with what it carries.
pub fn ack_json(message_id: &str, data: &str) -> (r: String)
    ensures
        r@ == json_text(settled_json(ack_value(message_id@, data@))),
{
    let headers = Json::object().with("messageId", Json::string(message_id)).with(
        "contentType",
        Json::string("application/json"),
    );
    print_json(
        &Json::object().with("code", Json::Uint(200)).with("headers", headers).with(
            "message",
            Json::string("OK"),
        ).with("data", Json::string(data)),
    )
}

/// The data of a frame as text.
pub open spec fn raw_data(frame: JsonV) -> Seq<char> {
    match frame.field("data"@) {
        Some(JsonV::Str(s)) => s,
        Some(v) => json_text(settled_json(v)),
        None => "{}"@,
    }
}

fn frame_data_raw(frame: &Json) -> (r: String)
    ensures
        r@ == raw_data(frame@),
{
    match frame.get("data") {
        Some(Json::Str(s)) => s.clone(),
        Some(v) => print_json(v),
        None => "{}".to_owned(),
    }
}

/// The data of a chatbot message: an object, or the text of a value.
pub open spec fn chatbot_data(data: JsonV) -> Option<JsonV> {
    match data {
        JsonV::Str(s) => parsed_json(s),
        JsonV::Object(_) => Some(data),
        _ => None,
    }
}

/// The data of a chatbot message.
pub fn parse_chatbot_data(data: &Json) -> (r: Option<Json>)
    ensures
        opt_json(r) == chatbot_data(data@),
{
    match data {
        Json::Str(s) => parse_json(s.as_str()),
        Json::Object(_) => Some(data.copy()),
        _ => None,
    }
}

/// The first of the values under the keys, from `i` on, that is not blank, trimmed.
pub open spec fn first_under(v: JsonV, keys: Seq<Seq<char>>, i: int) -> Seq<char>
    decreases keys.len() - i,
{
    if i < 0 || i >= keys.len() {
        Seq::empty()
    } else if trimmed(js_text(v.at(keys[i]))).len() > 0 {
        trimmed(js_text(v.at(keys[i])))
    } else {
        first_under(v, keys, i + 1)
    }
}

/// The first of the values under the keys that is not blank, trimmed.
pub fn first_str(v: &Json, keys: &Vec<String>) -> (r: String)
    ensures
        r@ == first_under(v@, texts(keys@), 0),
{
    let ghost ks = texts(keys@);
    let mut i: usize = 0;
    while i < keys.len()
        invariant
            i <= keys@.len(),
            ks == texts(keys@),
            first_under(v@, ks, 0) == first_under(v@, ks, i as int),
        decreases keys.len() - i,
    {
        assert(ks[i as int] == keys@[i as int]@);
        let s = trim(js_at(v, keys[i].as_str()).as_str());
        if !s.as_str().is_empty() {
            return s;
        }
        i = i + 1;
    }
    String::new()
}

fn keys2(a: &str, b: &str) -> (r: Vec<String>)
    ensures
        texts(r@) == seq![a@, b@],
{
    let mut v: Vec<String> = Vec::new();
    v.push(a.to_owned());
    v.push(b.to_owned());
    assert(texts(v@) =~= seq![a@, b@]);
    v
}

fn keys3(a: &str, b: &str, c: &str) -> (r: Vec<String>)
    ensures
        texts(r@) == seq![a@, b@, c@],
{
    let mut v: Vec<String> = keys2(a, b);
    let ghost before = v@;
    v.push(c.to_owned());
    assert(texts(v@) =~= texts(before).push(c@));
    assert(texts(v@) =~= seq![a@, b@, c@]);
    v
}

fn keys4(a: &str, b: &str, c: &str, d: &str) -> (r: Vec<String>)
    ensures
        texts(r@) == seq![a@, b@, c@, d@],
{
    let mut v: Vec<String> = keys3(a, b, c);
    let ghost before = v@;
    v.push(d.to_owned());
    assert(texts(v@) =~= texts(before).push(d@));
    assert(texts(v@) =~= seq![a@, b@, c@, d@]);
    v
}

/// What a chatbot message says: its text, else what stands for its kind.
pub open spec fn chatbot_words(data: JsonV) -> Seq<char> {
    let content = trimmed(
        match data.at("text"@) {
            JsonV::Str(s) => s,
            JsonV::Object(_) => js_text(data.at("text"@).at("content"@)),
            _ => Seq::empty(),
        },
    );
    let kind = lower(first_under(data, seq!["msgtype"@, "msgType"@], 0));
    let name = first_under(data, seq!["fileName"@, "filename"@, "file_name"@], 0);
    if content.len() > 0 {
        content
    } else if kind == "picture"@ || kind == "image"@ || kind == "photo"@ {
        "[图片]"@
    } else if kind == "video"@ {
        "[视频]"@
    } else if kind == "audio"@ || kind == "voice"@ {
        "[语音]"@
    } else if kind == "file"@ {
        if name.len() == 0 {
            "[文件]"@
        } else {
            "[文件] "@ + name
        }
    } else {
        Seq::empty()
    }
}

/// What a chatbot message says.
pub fn chatbot_text(data: &Json) -> (r: String)
    ensures
        r@ == chatbot_words(data@),
{
    let raw: String = match data.get("text") {
        Some(Json::Str(s)) => s.clone(),
        Some(Json::Object(_)) => js_at2(data, "text", "content"),
        _ => String::new(),
    };
    let content = trim(raw.as_str());
    if !content.as_str().is_empty() {
        return content;
    }
    let kind = to_lower(first_str(data, &keys2("msgtype", "msgType")).as_str());
    let k = kind.as_str();
    if same(k, "picture") || same(k, "image") || same(k, "photo") {
        "[图片]".to_owned()
    } else if same(k, "video") {
        "[视频]".to_owned()
    } else if same(k, "audio") || same(k, "voice") {
        "[语音]".to_owned()
    } else if same(k, "file") {
        let name = first_str(data, &keys3("fileName", "filename", "file_name"));
        if name.as_str().is_empty() {
            "[文件]".to_owned()
        } else {
            text2("[文件] ", name.as_str())
        }
    } else {
        String::new()
    }
}

/// Where replies to a chatbot message are posted.
pub fn session_webhook(data: &Json) -> (r: String)
    ensures
        r@ == first_under(data@, seq!["sessionWebhook"@, "session_webhook"@], 0),
{
    first_str(data, &keys2("sessionWebhook", "session_webhook"))
}

/// A text put in under a key, where there is one.
pub open spec fn put_some(v: JsonV, key: Seq<char>, s: Seq<char>) -> JsonV {
    if s.len() == 0 {
        v
    } else {
        put(v, key, JsonV::Str(s))
    }
}

fn with_some(v: Json, key: &str, s: &str) -> (r: Json)
    ensures
        r@ == put_some(v@, key@, s@),
{
    if s.is_empty() {
        v
    } else {
        v.with(key, Json::string(s))
    }
}

/// Who sent a chatbot message.
pub open spec fn chatbot_sender(data: JsonV) -> Seq<char> {
    first_under(
        data,
        seq!["senderId"@, "sender_id"@, "senderStaffId"@, "sender_staff_id"@],
        0,
    )
}

/// The payload of a chatbot message. One without a sender and one that says nothing
/// has none.
pub open spec fn payload_of_chatbot(e: EndpointV, data: JsonV) -> Option<PayloadV> {
    let sender = chatbot_sender(data);
    let text = chatbot_words(data);
    let conversation = first_under(data, seq!["conversationId"@, "conversation_id"@], 0);
    let group = first_under(data, seq!["conversationType"@, "conversation_type"@], 0) == "2"@;
    let meta = put(
        put(
            put(
                JsonV::Object(Map::empty()),
                "chat_id"@,
                JsonV::Str(
                    if conversation.len() == 0 {
                        sender
                    } else {
                        conversation
                    },
                ),
            ),
            "is_group"@,
            JsonV::Bool(group),
        ),
        "is_mentioned"@,
        JsonV::Bool(says_yes(data.at("isInAtList"@)) || says_yes(data.at("is_in_at_list"@))),
    );
    if sender.len() == 0 || text.len() == 0 {
        None
    } else {
        Some(
            PayloadV {
                channel: if e.kind.len() == 0 {
                    "dingtalk"@
                } else {
                    e.kind
                },
                sender_id: sender,
                sender_name: first_under(data, seq!["senderNick"@, "sender_nick"@], 0),
                content_parts: seq![PartV::Text { text }],
                text,
                meta: put_some(
                    put_some(
                        put_some(
                            meta,
                            "session_webhook"@,
                            first_under(data, seq!["sessionWebhook"@, "session_webhook"@], 0),
                        ),
                        "msg_id"@,
                        first_under(data, seq!["msgId"@, "msg_id"@], 0),
                    ),
                    "conversation_id"@,
                    conversation,
                ),
                ..blank_payload()
            },
        )
    }
}

fn yes_at(v: &Json, key: &str) -> (r: bool)
    ensures
        r == says_yes(v@.at(key@)),
{
    match v.get(key) {
        Some(x) => boolish(x),
        None => false,
    }
}

/// The payload of a chatbot message.
pub fn native_from_chatbot(ep: &ChannelEndpoint, data: &Json) -> (r: Option<NativePayload>)
    ensures
        opt_payload(r) == payload_of_chatbot(ep@, data@),
{
    let sender = first_str(
        data,
        &keys4("senderId", "sender_id", "senderStaffId", "sender_staff_id"),
    );
    if sender.as_str().is_empty() {
        return None;
    }
    let text = chatbot_text(data);
    if text.as_str().is_empty() {
        return None;
    }
    let conversation = first_str(data, &keys2("conversationId", "conversation_id"));
    let conv_type = first_str(data, &keys2("conversationType", "conversation_type"));
    let group: bool = same(conv_type.as_str(), "2");
    let mentioned: bool = yes_at(data, "isInAtList") || yes_at(data, "is_in_at_list");
    let chat: String = if conversation.as_str().is_empty() {
        sender.clone()
    } else {
        conversation.clone()
    };
    let base = Json::object().with("chat_id", Json::Str(chat)).with(
        "is_group",
        Json::Bool(group),
    ).with("is_mentioned", Json::Bool(mentioned));
    let meta = with_some(
        with_some(
            with_some(base, "session_webhook", session_webhook(data).as_str()),
            "msg_id",
            first_str(data, &keys2("msgId", "msg_id")).as_str(),
        ),
        "conversation_id",
        conversation.as_str(),
    );
    let mut env = NativePayload::text_only(
        if ep.kind.as_str().is_empty() {
            "dingtalk"
        } else {
            ep.kind.as_str()
        },
        text.as_str(),
    );
    env.sender_id = sender;
    env.sender_name = first_str(data, &keys2("senderNick", "sender_nick"));
    env.meta = meta;
    Some(env)
}

/// What to do with a frame: what to send back, what to take in, and whether the
/// connection ends.
#[derive(Debug, PartialEq, Eq)]
pub struct Step {
    pub send: Option<String>,
    pub payload: Option<NativePayload>,
    pub disconnect: bool,
}

pub ghost struct StepV {
    pub send: Option<Seq<char>>,
    pub payload: Option<PayloadV>,
    pub disconnect: bool,
}

impl View for Step {
    type V = StepV;

    open spec fn view(&self) -> StepV {
        StepV {
            send: opt_text(self.send),
            payload: opt_payload(self.payload),
            disconnect: self.disconnect,
        }
    }
}

pub open spec fn ack_of(id: Seq<char>, data: Seq<char>) -> Option<Seq<char>> {
    Some(json_text(settled_json(ack_value(id, data))))
}

/// What to do with a frame: system frames are echoed but for the one that ends the
/// connection, events are acknowledged, and the message of a callback is taken in.
pub open spec fn frame_step(e: EndpointV, frame: JsonV) -> StepV {
    let kind = lower(text_or_empty(frame, "type"@));
    let id = frame_header(frame, "messageId"@);
    let none = StepV { send: None, payload: None, disconnect: false };
    if kind == lower("SYSTEM"@) {
        if lower(frame_header(frame, "topic"@)) == lower("disconnect"@) {
            StepV { disconnect: true, ..none }
        } else {
            StepV { send: ack_of(id, raw_data(frame)), ..none }
        }
    } else if kind == lower("CALLBACK"@) {
        StepV {
            send: ack_of(id, "{\"status\":\"SUCCESS\"}"@),
            payload: match chatbot_data(frame.at("data"@)) {
                Some(d) => payload_of_chatbot(e, d),
                None => None,
            },
            ..none
        }
    } else if kind == lower("EVENT"@) {
        StepV { send: ack_of(id, "{\"status\":\"SUCCESS\"}"@), ..none }
    } else {
        none
    }
}

/// What to do with a frame.
pub fn handle_frame(ep: &ChannelEndpoint, frame: &Json) -> (r: Step)
    ensures
        r@ == frame_step(ep@, frame@),
{
    let kind = text_or(frame, "type");
    let id = header_str(frame, "messageId");
    if same_ignoring_case(kind.as_str(), "SYSTEM") {
        let topic = header_str(frame, "topic");
        if same_ignoring_case(topic.as_str(), "disconnect") {
            return Step { send: None, payload: None, disconnect: true };
        }
        return Step {
            send: Some(ack_json(id.as_str(), frame_data_raw(frame).as_str())),
            payload: None,
            disconnect: false,
        };
    }
    let callback: bool = same_ignoring_case(kind.as_str(), "CALLBACK");
    if callback || same_ignoring_case(kind.as_str(), "EVENT") {
        let send = Some(ack_json(id.as_str(), "{\"status\":\"SUCCESS\"}"));
        let mut payload: Option<NativePayload> = None;
        if callback {
            if let Some(raw) = frame.get("data") {
                if let Some(d) = parse_chatbot_data(raw) {
                    payload = native_from_chatbot(ep, &d);
                }
            }
        }
        return Step { send, payload, disconnect: false };
    }
    Step { send: None, payload: None, disconnect: false }
}

/// What to do with a text from the connection; one that is no JSON is as `null`.
pub fn handle_text(ep: &ChannelEndpoint, text: &str) -> (r: Step)
    ensures
        r@ == frame_step(
            ep@,
            match parsed_json(text@) {
                Some(v) => v,
                None => JsonV::Null,
            },
        ),
{
    match parse_json(text) {
        Some(v) => handle_frame(ep, &v),
        None => handle_frame(ep, &Json::Null),
    }
}

// ---------------------------------------------------------------------------
// Replies
// ---------------------------------------------------------------------------

/// Where the reply to a payload is posted.
pub open spec fn webhook_of(p: PayloadV) -> Option<Seq<char>> {
    match p.reply_to() {
        Some(u) => Some(u),
        None => match p.meta.text_at("sessionWebhook"@) {
            Some(s) => if s.len() > 0 {
                Some(s)
            } else {
                None
            },
            None => None,
        },
    }
}

/// Where the reply to a payload is posted.
pub fn webhook_from_env(env: &NativePayload) -> (r: Option<String>)
    ensures
        opt_text(r) == webhook_of(env@),
{
    if let Some(u) = env.reply_url() {
        return Some(u);
    }
    match env.meta.text_at("sessionWebhook") {
        Some(s) => if s.is_empty() {
            None
        } else {
            Some(s.to_owned())
        },
        None => None,
    }
}

/// A reply as it is posted.
pub open spec fn markdown_body(text: Seq<char>) -> JsonV {
    let none = JsonV::Object(Map::empty());
    put(
        put(none, "msgtype"@, JsonV::Str("markdown"@)),
        "markdown"@,
        put(
            put(none, "title"@, JsonV::Str("q38"@)),
            "text"@,
            JsonV::Str(clipped(text, 20000)),
        ),
    )
}

/// A post to make.
#[derive(Debug, PartialEq, Eq)]
pub struct Post {
    pub url: String,
    pub body: Json,
}

/// The post that sends a reply: none for a blank one, an error where there is no
/// place to post it.
pub fn send(env: &NativePayload, parts: &Vec<ContentPart>) -> (r: Result<Option<Post>, Fault>)
    ensures
        ({
            let text = parts_text(crate::channel::envelope::parts_view(parts@));
            &&& r is Err <==> !blank(text) && webhook_of(env@) is None
            &&& r matches Err(e) ==> e@ == FaultV::Msg("dingtalk send: missing session_webhook"@)
            &&& r matches Ok(p) ==> (p is None <==> blank(text))
            &&& r matches Ok(Some(p)) ==> Some(p.url@) == webhook_of(env@) && p.body@
                == markdown_body(text)
        }),
{
    let text = parts_to_text(parts);
    if is_blank(text.as_str()) {
        return Ok(None);
    }
    let url: String = match webhook_from_env(env) {
        Some(u) => u,
        None => {
            return Err(Fault::msg("dingtalk send: missing session_webhook"));
        },
    };
    let markdown = Json::object().with("title", Json::string("q38")).with(
        "text",
        Json::Str(clip(text.as_str(), MAX_MARKDOWN)),
    );
    let body = Json::object().with("msgtype", Json::string("markdown")).with("markdown", markdown);
    Ok(Some(Post { url, body }))
}

/// What a reply's answer means; `None` where it went through.
pub open spec fn send_fault(ok: bool, status: Seq<char>, answer: Seq<char>) -> Option<FaultV> {
    if !ok {
        Some(FaultV::Msg("dingtalk send "@ + status + " "@ + answer))
    } else {
        match parsed_json(answer) {
            Some(v) => answer_fault(v),
            None => None,
        }
    }
}

/// What the value of an answer means.
pub open spec fn answer_fault(v: JsonV) -> Option<FaultV> {
    match v.at("errcode"@) {
        JsonV::Int(n) => if n != 0 && i64::MIN <= n <= i64::MAX {
            Some(
                FaultV::Msg(
                    "dingtalk send errcode="@ + signed_decimal(n) + " "@ + text_or_empty(
                        v,
                        "errmsg"@,
                    ),
                ),
            )
        } else {
            None
        },
        _ => None,
    }
}

pub open spec fn opt_fault(f: Option<Fault>) -> Option<FaultV> {
    match f {
        Some(e) => Some(e@),
        None => None,
    }
}

/// What the value of an answer means.
pub fn check_answer(v: &Json) -> (r: Option<Fault>)
    ensures
        opt_fault(r) == answer_fault(v@),
{
    let code: Option<i64> = match v.get("errcode") {
        Some(c) => c.as_i64(),
        None => None,
    };
    match code {
        Some(n) => if n != 0 {
            Some(
                Fault::Msg(
                    text4(
                        "dingtalk send errcode=",
                        show_i64(n).as_str(),
                        " ",
                        text_or(v, "errmsg").as_str(),
                    ),
                ),
            )
        } else {
            None
        },
        None => None,
    }
}

/// What a reply's answer means.
pub fn check_sent(ok: bool, status: &str, answer: &str) -> (r: Option<Fault>)
    ensures
        opt_fault(r) == send_fault(ok, status@, answer@),
{
    if !ok {
        return Some(Fault::Msg(text4("dingtalk send ", status, " ", answer)));
    }
    match parse_json(answer) {
        Some(v) => check_answer(&v),
        None => None,
    }
}

/// Identifier and secret come from the endpoint, else from the environment, each for
/// itself and without the space around them; without one of them there is none.
pub proof fn law_where_the_credentials_come_from(
    a: Option<Seq<char>>,
    b: Option<Seq<char>>,
    c: Option<Seq<char>>,
    d: Option<Seq<char>>,
)
    ensures
        ({
            let has_a = a is Some && trimmed(a->0).len() > 0;
            let has_b = b is Some && trimmed(b->0).len() > 0;
            let has_c = c is Some && trimmed(c->0).len() > 0;
            let has_d = d is Some && trimmed(d->0).len() > 0;
            let r = picked(a, b, c, d);
            &&& has_a && has_b ==> r == Some((trimmed(a->0), trimmed(b->0)))
            &&& !has_a && has_c && has_b ==> r == Some((trimmed(c->0), trimmed(b->0)))
            &&& has_a && !has_b && has_d ==> r == Some((trimmed(a->0), trimmed(d->0)))
            &&& !has_a && has_c && !has_b && has_d ==> r == Some((trimmed(c->0), trimmed(d->0)))
            &&& !has_a && !has_c ==> r is None
            &&& !has_b && !has_d ==> r is None
        }),
{
}

/// A stream is opened by an answer that has both an endpoint and a ticket, and went well.
pub proof fn law_when_a_stream_opens(ok: bool, status: Seq<char>, data: JsonV, e: Seq<char>, t: Seq<char>)
    requires
        data.text_at("endpoint"@) == Some(e),
        data.text_at("ticket"@) == Some(t),
    ensures
        ok && trimmed(e).len() > 0 && trimmed(t).len() > 0 ==> open_answer(ok, status, data) == Ok::<
            (Seq<char>, Seq<char>),
            FaultV,
        >((trimmed(e), trimmed(t))),
        !ok || trimmed(e).len() == 0 || trimmed(t).len() == 0 ==> open_answer(
            ok,
            status,
            data,
        ) is Err,
{
}

/// The ticket is put behind the address, with what joins it there.
pub proof fn law_where_the_ticket_goes(endpoint: Seq<char>, ticket: Seq<char>)
    ensures
        !endpoint.contains('?') ==> ticketed(endpoint, ticket) == endpoint + "?"@ + "ticket="@ + ticket,
        endpoint.contains('?') ==> ticketed(endpoint, ticket) == endpoint + "&"@ + "ticket="@ + ticket,
{
    reveal_strlit("?");
    if endpoint.contains('?') {
        let i = choose|i: int| 0 <= i < endpoint.len() && endpoint[i] == '?';
        assert(endpoint.subrange(i, i + 1) =~= "?"@);
        assert(crate::text::at(endpoint, "?"@, i));
    }
    if holds(endpoint, "?"@) {
        let i = choose|i: int| crate::text::at(endpoint, "?"@, i);
        assert(endpoint.subrange(i, i + 1)[0] == endpoint[i]);
    }
}

/// The first of some fields that says anything counts.
pub proof fn law_the_first_field_counts(v: JsonV, a: Seq<char>, b: Seq<char>)
    ensures
        trimmed(js_text(v.at(a))).len() > 0 ==> first_under(v, seq![a, b], 0) == trimmed(
            js_text(v.at(a)),
        ),
        trimmed(js_text(v.at(a))).len() == 0 ==> first_under(v, seq![a, b], 0) == trimmed(
            js_text(v.at(b)),
        ),
{
    reveal_with_fuel(first_under, 4);
    if trimmed(js_text(v.at(b))).len() == 0 {
        assert(trimmed(js_text(v.at(b))) =~= Seq::<char>::empty());
    }
}

/// What a message says: its text, and only without one what stands for its kind.
pub proof fn law_what_a_message_says(data: JsonV, t: Seq<char>)
    ensures
        data.at("text"@) == JsonV::Str(t) && trimmed(t).len() > 0 ==> chatbot_words(data) == trimmed(
            t,
        ),
        data.at("text"@) is Object && data.at("text"@).at("content"@) == JsonV::Str(t) && trimmed(
            t,
        ).len() > 0 ==> chatbot_words(data) == trimmed(t),
{
}

/// The payload of a message: who sent it, what it says, which conversation it belongs to,
/// whether that is a group and whether the bot was named. Without a sender or words there is
/// none.
pub proof fn law_what_is_taken_of_a_message(e: EndpointV, data: JsonV)
    ensures
        ({
            let p = payload_of_chatbot(e, data);
            let who = chatbot_sender(data);
            let chat = first_under(data, seq!["conversationId"@, "conversation_id"@], 0);
            &&& who.len() == 0 || chatbot_words(data).len() == 0 ==> p is None
            &&& who.len() > 0 && chatbot_words(data).len() > 0 ==> p is Some
            &&& p is Some ==> {
                &&& p->0.sender_id == who
                &&& p->0.text == chatbot_words(data)
                &&& p->0.content_parts == seq![PartV::Text { text: chatbot_words(data) }]
                &&& e.kind.len() > 0 ==> p->0.channel == e.kind
                &&& e.kind.len() == 0 ==> p->0.channel == "dingtalk"@
                &&& chat.len() > 0 ==> p->0.meta.at("chat_id"@) == JsonV::Str(chat)
                &&& chat.len() == 0 ==> p->0.meta.at("chat_id"@) == JsonV::Str(who)
                &&& p->0.meta.at("is_group"@) == JsonV::Bool(
                    first_under(data, seq!["conversationType"@, "conversation_type"@], 0) == "2"@,
                )
                &&& p->0.meta.at("is_mentioned"@) == JsonV::Bool(
                    says_yes(data.at("isInAtList"@)) || says_yes(data.at("is_in_at_list"@)),
                )
                &&& first_under(data, seq!["sessionWebhook"@, "session_webhook"@], 0).len() > 0
                    ==> p->0.meta.at("session_webhook"@) == JsonV::Str(
                    first_under(data, seq!["sessionWebhook"@, "session_webhook"@], 0),
                )
            }
        }),
{
    reveal_strlit("chat_id");
    reveal_strlit("is_group");
    reveal_strlit("is_mentioned");
    reveal_strlit("session_webhook");
    reveal_strlit("msg_id");
    reveal_strlit("conversation_id");
    assert("chat_id"@.len() == 7 && "is_group"@.len() == 8 && "is_mentioned"@.len() == 12 && "session_webhook"@.len() == 15 && "msg_id"@.len() == 6 && "conversation_id"@.len() == 15);
    assert("session_webhook"@[0] == 's' && "conversation_id"@[0] == 'c');
}

/// What is done with a frame: a system frame is echoed, the one that ends the connection ends
/// it; a callback is acknowledged and its message taken in; an event is only acknowledged;
/// and any other is left alone.
pub proof fn law_what_is_done_with_a_frame(e: EndpointV, f: JsonV)
    ensures
        ({
            let kind = lower(text_or_empty(f, "type"@));
            let topic = lower(frame_header(f, "topic"@));
            let s = frame_step(e, f);
            &&& kind == "system"@ && topic == "disconnect"@ ==> s.disconnect && s.send is None
                && s.payload is None
            &&& kind == "system"@ && topic != "disconnect"@ ==> !s.disconnect && s.send is Some
                && s.payload is None
            &&& kind == "callback"@ ==> s.send is Some && !s.disconnect
            &&& kind == "callback"@ && f.at("data"@) is Object ==> s.payload == payload_of_chatbot(
                e,
                f.at("data"@),
            )
            &&& kind == "callback"@ && f.at("data"@) is Str ==> s.payload == (match parsed_json(
                f.at("data"@)->Str_0,
            ) {
                Some(d) => payload_of_chatbot(e, d),
                None => None,
            })
            &&& kind == "event"@ ==> s.send is Some && s.payload is None && !s.disconnect
            &&& kind != "system"@ && kind != "callback"@ && kind != "event"@ ==> s.send is None
                && s.payload is None && !s.disconnect
        }),
{
    reveal_strlit("SYSTEM");
    reveal_strlit("CALLBACK");
    reveal_strlit("EVENT");
    reveal_strlit("disconnect");
    reveal_strlit("system");
    reveal_strlit("callback");
    reveal_strlit("event");
    assert(lower("SYSTEM"@) =~= "system"@);
    assert(lower("CALLBACK"@) =~= "callback"@);
    assert(lower("EVENT"@) =~= "event"@);
    assert(lower("disconnect"@) =~= "disconnect"@);
    assert("system"@.len() == 6 && "callback"@.len() == 8 && "event"@.len() == 5);
}

/// An acknowledgement names its message and carries what it is given.
pub proof fn law_what_an_acknowledgement_says(id: Seq<char>, data: Seq<char>)
    ensures
        ({
            let a = ack_value(id, data);
            &&& a.at("code"@) == JsonV::Int(200)
            &&& a.at("headers"@).text_at("messageId"@) == Some(id)
            &&& a.text_at("message"@) == Some("OK"@)
            &&& a.text_at("data"@) == Some(data)
        }),
{
    reveal_strlit("code");
    reveal_strlit("headers");
    reveal_strlit("message");
    reveal_strlit("data");
    reveal_strlit("messageId");
    reveal_strlit("contentType");
    assert("code"@.len() == 4 && "headers"@.len() == 7 && "message"@.len() == 7 && "data"@.len() == 4 && "messageId"@.len() == 9 && "contentType"@.len() == 11);
    assert("code"@[0] == 'c' && "data"@[0] == 'd');
    assert("headers"@[0] == 'h' && "message"@[0] == 'm');
}

/// A reply went through unless its status or its code says otherwise.
pub proof fn law_when_a_reply_went_through(status: Seq<char>, answer: Seq<char>, n: int)
    ensures
        send_fault(false, status, answer) is Some,
        parsed_json(answer) is None ==> send_fault(true, status, answer) is None,
        parsed_json(answer) is Some && parsed_json(answer)->0.at("errcode"@) == JsonV::Int(0)
            ==> send_fault(true, status, answer) is None,
        parsed_json(answer) is Some && parsed_json(answer)->0.at("errcode"@) == JsonV::Int(n) && n
            != 0 && i64::MIN <= n <= i64::MAX ==> send_fault(true, status, answer) is Some,
        parsed_json(answer) is Some && parsed_json(answer)->0.field("errcode"@) is None
            ==> send_fault(true, status, answer) is None,
{
}

/// A reply carries its text, up to twenty thousand characters.
pub proof fn law_a_reply_carries_its_text(text: Seq<char>)
    ensures
        markdown_body(text).text_at("msgtype"@) == Some("markdown"@),
        text.len() <= 20000 ==> markdown_body(text).at("markdown"@).text_at("text"@) == Some(text),
        text.len() > 20000 ==> markdown_body(text).at("markdown"@).text_at("text"@) == Some(
            text.take(20000),
        ),
{
    reveal_strlit("msgtype");
    reveal_strlit("markdown");
    reveal_strlit("title");
    reveal_strlit("text");
    assert("msgtype"@.len() == 7 && "markdown"@.len() == 8 && "title"@.len() == 5 && "text"@.len() == 4);
}

/// What is posted to open a stream: who asks, and what for.
pub proof fn law_what_opens_a_stream(id: Seq<char>, secret: Seq<char>)
    ensures
        ({
            let q = open_request(id, secret);
            let subs = q.at("subscriptions"@);
            &&& q.text_at("clientId"@) == Some(id)
            &&& q.text_at("clientSecret"@) == Some(secret)
            &&& subs is Array && subs->Array_0.len() == 2
            &&& subs->Array_0[0].text_at("type"@) == Some("CALLBACK"@)
            &&& subs->Array_0[0].text_at("topic"@) == Some("/v1.0/im/bot/messages/get"@)
            &&& subs->Array_0[1].text_at("type"@) == Some("EVENT"@)
            &&& subs->Array_0[1].text_at("topic"@) == Some("*"@)
        }),
{
    reveal_strlit("clientId");
    reveal_strlit("clientSecret");
    reveal_strlit("subscriptions");
    reveal_strlit("ua");
    reveal_strlit("localIp");
    assert("clientId"@.len() == 8 && "clientSecret"@.len() == 12 && "subscriptions"@.len() == 13 && "ua"@.len() == 2 && "localIp"@.len() == 7);
    reveal_strlit("type");
    reveal_strlit("topic");
    assert("type"@.len() == 4 && "topic"@.len() == 5);
}

/// The data of a frame goes back as it came: a text as itself, another value as its text.
pub proof fn law_what_goes_back(f: JsonV, s: Seq<char>)
    ensures
        f.field("data"@) == Some(JsonV::Str(s)) ==> raw_data(f) == s,
        f.field("data"@) is None ==> raw_data(f) == "{}"@,
        f.at("data"@) is Object ==> raw_data(f) == json_text(settled_json(f.at("data"@))),
{
}

} // verus!
