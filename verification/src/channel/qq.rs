//! QQ: messages out of gateway events, the gateway's handshake, and replies.

use vstd::prelude::*;
use crate::channel::config::{ChannelEndpoint, EndpointV};
use crate::channel::envelope::{
    blank_payload, parts_view, ContentPart, NativePayload, PartV, PayloadV,
};
use crate::channel::dingtalk::opt_fault;
use crate::channel::feishu::{opt_payload, text_result};
use crate::channel::wire::{extra, extra_of, js_text, or_else, or_text};
use crate::fault::{Fault, FaultV};
use crate::json::{items_view, lemma_items_push, lemma_items_view, put, Json, JsonV};
use crate::outside::{json_text, parse_json, parsed_json, print_json, settled_json};
use crate::text::{
    clip, clipped, ends_with, has_prefix, has_suffix, lower, push_new, same, starts_with,
    strip_trailing, text2, text3, text4, texts, to_lower, trim, trimmed, with_new, without_trailing,
};

verus! {

pub const OP_DISPATCH: i64 = 0;

pub const OP_HEARTBEAT: i64 = 1;

pub const OP_IDENTIFY: i64 = 2;

pub const OP_RECONNECT: i64 = 7;

pub const OP_INVALID_SESSION: i64 = 9;

pub const OP_HELLO: i64 = 10;

/// Public guild messages, guild members, interactions, direct messages, and groups
/// and single chats: bits 30, 1, 26, 12 and 25.
pub const INTENTS: u64 = 0x4600_1002;

// ---------------------------------------------------------------------------
// Settings
// ---------------------------------------------------------------------------

pub open spec fn credentials_of(e: EndpointV) -> Option<(Seq<char>, Seq<char>)> {
    let id = extra_of(e, "app_id"@);
    let secret = extra_of(e, "client_secret"@);
    if id.len() == 0 || secret.len() == 0 {
        None
    } else {
        Some((id, secret))
    }
}

/// The application and its secret.
pub fn credentials(ep: &ChannelEndpoint) -> (r: Option<(String, String)>)
    ensures
        r is Some <==> credentials_of(ep@) is Some,
        r matches Some(x) ==> credentials_of(ep@) == Some((x.0@, x.1@)),
{
    let id = extra(ep, "app_id");
    let secret = extra(ep, "client_secret");
    if id.as_str().is_empty() || secret.as_str().is_empty() {
        None
    } else {
        Some((id, secret))
    }
}

/// The hosts to try, in order: the endpoint's, the environment's, the public one and
/// the sandbox.
pub open spec fn bases_of(e: EndpointV, env_base: Option<Seq<char>>) -> Seq<Seq<char>> {
    let own = extra_of(e, "api_base"@);
    let first = if own.len() > 0 {
        seq![without_trailing(own, '/')]
    } else {
        Seq::empty()
    };
    let second = match env_base {
        Some(b) => {
            let s = without_trailing(trimmed(b), '/');
            if s.len() > 0 {
                with_new(first, s)
            } else {
                first
            }
        },
        None => first,
    };
    with_new(
        with_new(second, "https://api.sgroup.qq.com"@),
        "https://sandbox.api.sgroup.qq.com"@,
    )
}

/// The hosts to try, in order; `env_base` is what the environment has for them.
pub fn api_bases(ep: &ChannelEndpoint, env_base: Option<&str>) -> (r: Vec<String>)
    ensures
        texts(r@) == bases_of(
            ep@,
            match env_base {
                Some(b) => Some(b@),
                None => None,
            },
        ),
{
    let mut out: Vec<String> = Vec::new();
    assert(texts(out@) =~= Seq::empty());
    let own = extra(ep, "api_base");
    if !own.as_str().is_empty() {
        let s = strip_trailing(own.as_str(), '/');
        out.push(s);
        assert(texts(out@) =~= seq![s@]);
    }
    if let Some(b) = env_base {
        let s = strip_trailing(trim(b).as_str(), '/');
        if !s.as_str().is_empty() {
            push_new(&mut out, s.as_str());
        }
    }
    push_new(&mut out, "https://api.sgroup.qq.com");
    push_new(&mut out, "https://sandbox.api.sgroup.qq.com");
    out
}

// ---------------------------------------------------------------------------
// Answers
// ---------------------------------------------------------------------------

/// The token that an answer gives, or what went wrong.
pub open spec fn token_answer(data: JsonV) -> Result<Seq<char>, FaultV> {
    let fault = Err(FaultV::Msg("qq token: "@ + json_text(settled_json(data))));
    match data.text_at("access_token"@) {
        Some(s) => if s.len() > 0 {
            Ok(s)
        } else {
            fault
        },
        None => fault,
    }
}

/// The token that an answer gives, or what went wrong.
pub fn access_token(data: &Json) -> (r: Result<String, Fault>)
    ensures
        text_result(r) == token_answer(data@),
{
    if let Some(s) = data.text_at("access_token") {
        if !s.is_empty() {
            return Ok(s.to_owned());
        }
    }
    Err(Fault::Msg(text2("qq token: ", print_json(data).as_str())))
}

/// The gateway that an answer gives, or what went wrong.
pub open spec fn gateway_answer(
    ok: bool,
    base: Seq<char>,
    status: Seq<char>,
    data: JsonV,
) -> Result<Seq<char>, FaultV> {
    match data.text_at("url"@) {
        Some(u) => if ok {
            Ok(u)
        } else {
            Err(
                FaultV::Msg(
                    "qq gateway "@ + base + " HTTP "@ + status + ": "@ + json_text(
                        settled_json(data),
                    ),
                ),
            )
        },
        None => Err(
            FaultV::Msg(
                "qq gateway "@ + base + " HTTP "@ + status + ": "@ + json_text(settled_json(data)),
            ),
        ),
    }
}

/// The gateway that an answer gives, or what went wrong.
pub fn gateway_url(ok: bool, base: &str, status: &str, data: &Json) -> (r: Result<String, Fault>)
    ensures
        text_result(r) == gateway_answer(ok, base@, status@, data@),
{
    if ok {
        if let Some(u) = data.text_at("url") {
            return Ok(u.to_owned());
        }
    }
    let mut m = text4("qq gateway ", base, " HTTP ", status);
    m.append(": ");
    m.append(print_json(data).as_str());
    Err(Fault::Msg(m))
}

/// What follows while the gateway is looked for.
#[derive(Debug, PartialEq, Eq)]
pub enum GatewayNext {
    /// This address is asked next.
    Ask(String),
    Found(String),
    Failed(Fault),
}

pub ghost enum GatewayNextV {
    Ask(Seq<char>),
    Found(Seq<char>),
    Failed(FaultV),
}

impl View for GatewayNext {
    type V = GatewayNextV;

    open spec fn view(&self) -> GatewayNextV {
        match self {
            GatewayNext::Ask(u) => GatewayNextV::Ask(u@),
            GatewayNext::Found(u) => GatewayNextV::Found(u@),
            GatewayNext::Failed(f) => GatewayNextV::Failed(f@),
        }
    }
}

/// What follows once the first `asked` hosts were asked: the first gateway that is found
/// is taken, else the next host is asked, and after the last one its failure stands.
pub open spec fn gateway_after(
    bases: Seq<Seq<char>>,
    asked: nat,
    last: Option<Result<Seq<char>, FaultV>>,
) -> GatewayNextV {
    match last {
        Some(Ok(url)) => GatewayNextV::Found(url),
        _ => if asked < bases.len() {
            GatewayNextV::Ask(bases[asked as int] + "/gateway"@)
        } else {
            match last {
                Some(Err(e)) => GatewayNextV::Failed(e),
                _ => GatewayNextV::Failed(FaultV::Msg("qq gateway: no api base"@)),
            }
        },
    }
}

/// What follows once the first `asked` hosts were asked; `last` is what came of the last
/// of them.
pub fn gateway_next(
    bases: &Vec<String>,
    asked: usize,
    last: Option<Result<String, Fault>>,
) -> (r: GatewayNext)
    ensures
        r@ == gateway_after(
            texts(bases@),
            asked as nat,
            match last {
                Some(x) => Some(text_result(x)),
                None => None,
            },
        ),
{
    let failure: Fault = match last {
        Some(Ok(url)) => {
            return GatewayNext::Found(url);
        },
        Some(Err(e)) => e,
        None => Fault::Msg("qq gateway: no api base".to_owned()),
    };
    assert(texts(bases@).len() == bases@.len());
    if asked < bases.len() {
        assert(texts(bases@)[asked as int] == bases@[asked as int]@);
        GatewayNext::Ask(text2(bases[asked].as_str(), "/gateway"))
    } else {
        GatewayNext::Failed(failure)
    }
}

// ---------------------------------------------------------------------------
// Messages
// ---------------------------------------------------------------------------

/// A text or a number as text.
pub open spec fn qq_text(v: JsonV) -> Seq<char> {
    match v {
        JsonV::Bool(_) => Seq::empty(),
        _ => js_text(v),
    }
}

fn qq_at(v: &Json, key: &str) -> (r: String)
    ensures
        r@ == qq_text(v@.at(key@)),
{
    match v.get(key) {
        Some(Json::Str(s)) => s.clone(),
        Some(Json::Bool(_)) => String::new(),
        Some(x) => match x.number_text() {
            Some(s) => s,
            None => String::new(),
        },
        None => String::new(),
    }
}

fn qq_at2(v: &Json, a: &str, b: &str) -> (r: String)
    ensures
        r@ == qq_text(v@.at(a@).at(b@)),
{
    match v.get(a) {
        Some(x) => qq_at(x, b),
        None => String::new(),
    }
}

/// The kind of a message event, who sent it, and in which group.
pub open spec fn event_source(t: Seq<char>, d: JsonV) -> Option<(Seq<char>, Seq<char>, Seq<char>)> {
    let a = d.at("author"@);
    if t == "C2C_MESSAGE_CREATE"@ {
        Some(
            (
                "c2c"@,
                or_text(qq_text(a.at("user_openid"@)), qq_text(a.at("id"@))),
                Seq::empty(),
            ),
        )
    } else if t == "GROUP_AT_MESSAGE_CREATE"@ {
        Some(
            (
                "group"@,
                or_text(qq_text(a.at("member_openid"@)), qq_text(a.at("id"@))),
                qq_text(d.at("group_openid"@)),
            ),
        )
    } else if t == "AT_MESSAGE_CREATE"@ || t == "DIRECT_MESSAGE_CREATE"@ {
        Some(("guild"@, qq_text(a.at("id"@)), Seq::empty()))
    } else {
        None
    }
}

/// The part that an attachment becomes: a picture by its address, else a line.
pub open spec fn attachment_part(a: JsonV) -> PartV {
    let name = or_text(
        qq_text(a.at("filename"@)),
        or_text(qq_text(a.at("file_name"@)), qq_text(a.at("name"@))),
    );
    let url = or_text(qq_text(a.at("url"@)), qq_text(a.at("content"@)));
    let kind = lower(or_text(qq_text(a.at("content_type"@)), qq_text(a.at("contentType"@))));
    let l = lower(name);
    if has_prefix(kind, "image/"@) || has_suffix(l, ".png"@) || has_suffix(l, ".jpg"@)
        || has_suffix(l, ".jpeg"@) {
        if has_prefix(url, "http://"@) || has_prefix(url, "https://"@) {
            PartV::Image { image_url: url, url: Seq::empty(), mime: "image/jpeg"@ }
        } else {
            PartV::Text { text: "[图片]"@ }
        }
    } else if name.len() > 0 {
        PartV::Text { text: "[文件] "@ + name }
    } else {
        PartV::Text { text: "[文件]"@ }
    }
}

fn part_of_attachment(a: &Json) -> (r: ContentPart)
    ensures
        r@ == attachment_part(a@),
{
    let name = or_else(qq_at(a, "filename"), or_else(qq_at(a, "file_name"), qq_at(a, "name")));
    let url = or_else(qq_at(a, "url"), qq_at(a, "content"));
    let kind = to_lower(or_else(qq_at(a, "content_type"), qq_at(a, "contentType")).as_str());
    let lo = to_lower(name.as_str());
    let l = lo.as_str();
    if starts_with(kind.as_str(), "image/") || ends_with(l, ".png") || ends_with(l, ".jpg")
        || ends_with(l, ".jpeg") {
        if starts_with(url.as_str(), "http://") || starts_with(url.as_str(), "https://") {
            ContentPart::Image {
                image_url: url,
                url: String::new(),
                mime: "image/jpeg".to_owned(),
            }
        } else {
            ContentPart::text("[图片]")
        }
    } else if !name.as_str().is_empty() {
        ContentPart::text(text2("[文件] ", name.as_str()).as_str())
    } else {
        ContentPart::text("[文件]")
    }
}

/// The text of a message.
pub open spec fn event_words(d: JsonV) -> Seq<char> {
    trimmed(
        match d.text_at("content"@) {
            Some(s) => s,
            None => Seq::empty(),
        },
    )
}

/// The parts of a message: its text, then its attachments.
pub open spec fn event_parts(d: JsonV) -> Seq<PartV> {
    let text = event_words(d);
    let head = if text.len() > 0 {
        seq![PartV::Text { text }]
    } else {
        Seq::empty()
    };
    match d.at("attachments"@) {
        JsonV::Array(items) => head + items.map_values(|a: JsonV| attachment_part(a)),
        _ => head,
    }
}

fn parts_of_event(d: &Json) -> (r: Vec<ContentPart>)
    ensures
        parts_view(r@) == event_parts(d@),
{
    let raw: String = match d.text_at("content") {
        Some(s) => s.to_owned(),
        None => String::new(),
    };
    let text = trim(raw.as_str());
    assert(text@ == event_words(d@));
    let mut out: Vec<ContentPart> = Vec::new();
    assert(parts_view(out@) =~= Seq::empty());
    if !text.as_str().is_empty() {
        let p = ContentPart::text(text.as_str());
        out.push(p);
        assert(parts_view(out@) =~= seq![p@]);
    }
    if let Some(Json::Array(items)) = d.get("attachments") {
        let ghost head = parts_view(out@);
        let ghost vals = items_view(items@);
        let ghost more = vals.map_values(|a: JsonV| attachment_part(a));
        proof {
            lemma_items_view(items@);
            assert(head + more.take(0) =~= head);
        }
        let mut i: usize = 0;
        while i < items.len()
            invariant
                i <= items@.len() == vals.len(),
                forall|j: int| 0 <= j < vals.len() ==> #[trigger] vals[j] == items@[j]@,
                more == vals.map_values(|a: JsonV| attachment_part(a)),
                parts_view(out@) == head + more.take(i as int),
            decreases items.len() - i,
        {
            let ghost before = out@;
            let p = part_of_attachment(&items[i]);
            out.push(p);
            proof {
                assert(vals[i as int] == items@[i as int]@);
                assert(more[i as int] == p@);
                assert(parts_view(out@) =~= parts_view(before).push(p@));
                assert((head + more.take(i as int)).push(p@) =~= head + more.take(i + 1));
            }
            i = i + 1;
        }
        assert(more.take(i as int) =~= more);
    }
    out
}

/// The payload of a message event. One of another kind, one without a sender and one
/// that says nothing has none.
pub open spec fn payload_of_event(e: EndpointV, t: Seq<char>, d: JsonV) -> Option<PayloadV> {
    match event_source(t, d) {
        None => None,
        Some((kind, sender, group)) => {
            let parts = event_parts(d);
            let said = PayloadV { content_parts: parts, ..blank_payload() };
            let meta = put(
                put(
                    put(JsonV::Object(Map::empty()), "message_type"@, JsonV::Str(kind)),
                    "is_group"@,
                    JsonV::Bool(kind == "group"@),
                ),
                "is_mentioned"@,
                JsonV::Bool(kind != "c2c"@),
            );
            let with_id = match d.text_at("id"@) {
                Some(id) => put(meta, "msg_id"@, JsonV::Str(id)),
                None => meta,
            };
            let with_group = if group.len() > 0 {
                put(with_id, "group_openid"@, JsonV::Str(group))
            } else {
                with_id
            };
            if sender.len() == 0 || parts.len() == 0 {
                None
            } else {
                Some(
                    PayloadV {
                        channel: if e.kind.len() == 0 {
                            "qq"@
                        } else {
                            e.kind
                        },
                        sender_id: sender,
                        sender_name: match d.at("author"@).text_at("username"@) {
                            Some(s) => s,
                            None => Seq::empty(),
                        },
                        text: said.query(),
                        meta: put(with_group, "user_openid"@, JsonV::Str(sender)),
                        ..said
                    },
                )
            }
        },
    }
}

/// The payload of a message event.
pub fn native_from_event(ep: &ChannelEndpoint, t: &str, d: &Json) -> (r: Option<NativePayload>)
    ensures
        opt_payload(r) == payload_of_event(ep@, t@, d@),
{
    let (kind, sender, group) = if same(t, "C2C_MESSAGE_CREATE") {
        (
            "c2c",
            or_else(qq_at2(d, "author", "user_openid"), qq_at2(d, "author", "id")),
            String::new(),
        )
    } else if same(t, "GROUP_AT_MESSAGE_CREATE") {
        (
            "group",
            or_else(qq_at2(d, "author", "member_openid"), qq_at2(d, "author", "id")),
            qq_at(d, "group_openid"),
        )
    } else if same(t, "AT_MESSAGE_CREATE") || same(t, "DIRECT_MESSAGE_CREATE") {
        ("guild", qq_at2(d, "author", "id"), String::new())
    } else {
        return None;
    };
    assert(event_source(t@, d@) == Some((kind@, sender@, group@)));
    if sender.as_str().is_empty() {
        return None;
    }
    let parts = parts_of_event(d);
    assert(parts_view(parts@).len() == parts@.len());
    if parts.len() == 0 {
        return None;
    }
    let mut env = NativePayload::new();
    env.content_parts = parts;
    env.text = env.query_text();
    env.channel =
    if ep.kind.as_str().is_empty() {
        "qq".to_owned()
    } else {
        ep.kind.clone()
    };
    env.sender_name =
    match d.get("author") {
        Some(a) => match a.text_at("username") {
            Some(s) => s.to_owned(),
            None => String::new(),
        },
        None => String::new(),
    };
    let mut meta = Json::object().with("message_type", Json::string(kind)).with(
        "is_group",
        Json::Bool(same(kind, "group")),
    ).with("is_mentioned", Json::Bool(!same(kind, "c2c")));
    if let Some(id) = d.text_at("id") {
        meta.set("msg_id", Json::string(id));
    }
    if !group.as_str().is_empty() {
        meta.set("group_openid", Json::Str(group));
    }
    meta.set("user_openid", Json::string(sender.as_str()));
    env.meta = meta;
    env.sender_id = sender;
    Some(env)
}

// ---------------------------------------------------------------------------
// The gateway
// ---------------------------------------------------------------------------

/// What to do with what the gateway sent.
#[derive(Debug, PartialEq, Eq)]
pub enum Step {
    Nothing,
    /// Send the text, then a heartbeat in every interval.
    Identify { send: String, interval_ms: u64 },
    /// The gateway knows the bot.
    Ready { session: String },
    Ingest(NativePayload),
    /// Connect again.
    Reconnect,
}

pub ghost enum StepV {
    Nothing,
    Identify { send: Seq<char>, interval_ms: nat },
    Ready { session: Seq<char> },
    Ingest(PayloadV),
    Reconnect,
}

impl View for Step {
    type V = StepV;

    open spec fn view(&self) -> StepV {
        match self {
            Step::Nothing => StepV::Nothing,
            Step::Identify { send, interval_ms } => StepV::Identify {
                send: send@,
                interval_ms: *interval_ms as nat,
            },
            Step::Ready { session } => StepV::Ready { session: session@ },
            Step::Ingest(p) => StepV::Ingest(p@),
            Step::Reconnect => StepV::Reconnect,
        }
    }
}

/// How the bot identifies itself.
pub open spec fn identify_value(token: Seq<char>) -> JsonV {
    let none = JsonV::Object(Map::empty());
    put(
        put(none, "op"@, JsonV::Int(2)),
        "d"@,
        put(
            put(
                put(none, "token"@, JsonV::Str("QQBot "@ + token)),
                "intents"@,
                JsonV::Int(0x4600_1002),
            ),
            "shard"@,
            JsonV::Array(seq![JsonV::Int(0), JsonV::Int(1)]),
        ),
    )
}

/// How often the gateway wants a heartbeat, every five seconds at most.
pub open spec fn heartbeat_ms(payload: JsonV) -> nat {
    match payload.at("d"@).at("heartbeat_interval"@) {
        JsonV::Int(n) => if 0 <= n <= u64::MAX {
            if n < 5000 {
                5000
            } else {
                n as nat
            }
        } else {
            45000
        },
        _ => 45000,
    }
}

pub open spec fn small_int(v: JsonV) -> Option<int> {
    match v {
        JsonV::Int(n) => if i64::MIN <= n <= i64::MAX {
            Some(n)
        } else {
            None
        },
        _ => None,
    }
}

pub open spec fn op_of(payload: JsonV) -> int {
    match small_int(payload.at("op"@)) {
        Some(n) => n,
        None => -1,
    }
}

/// What to do with what the gateway sent.
pub open spec fn gateway_step(e: EndpointV, token: Seq<char>, payload: JsonV) -> StepV {
    let op = op_of(payload);
    let t = match payload.text_at("t"@) {
        Some(s) => s,
        None => Seq::empty(),
    };
    if op == 10 {
        StepV::Identify {
            send: json_text(settled_json(identify_value(token))),
            interval_ms: heartbeat_ms(payload),
        }
    } else if op == 0 {
        if t == "READY"@ {
            StepV::Ready {
                session: match payload.at("d"@).text_at("session_id"@) {
                    Some(s) => s,
                    None => Seq::empty(),
                },
            }
        } else {
            match payload_of_event(e, t, payload.at("d"@)) {
                Some(p) => StepV::Ingest(p),
                None => StepV::Nothing,
            }
        }
    } else if op == 7 || op == 9 {
        StepV::Reconnect
    } else {
        StepV::Nothing
    }
}

/// The last sequence number after what the gateway sent.
pub open spec fn seq_after(last: Option<int>, payload: JsonV) -> Option<int> {
    match small_int(payload.at("s"@)) {
        Some(n) => Some(n),
        None => last,
    }
}

/// A heartbeat: it carries the last sequence number, `null` before there is one.
pub open spec fn heartbeat_value(last: Option<int>) -> JsonV {
    put(
        put(JsonV::Object(Map::empty()), "op"@, JsonV::Int(1)),
        "d"@,
        match last {
            Some(n) => JsonV::Int(n),
            None => JsonV::Null,
        },
    )
}

pub open spec fn opt_int(n: Option<i64>) -> Option<int> {
    match n {
        Some(k) => Some(k as int),
        None => None,
    }
}

/// One connection to the gateway.
#[derive(Debug, PartialEq, Eq)]
pub struct Gateway {
    pub token: String,
    pub last_seq: Option<i64>,
}

fn int_at(v: &Json, key: &str) -> (r: Option<i64>)
    ensures
        opt_int(r) == small_int(v@.at(key@)),
{
    match v.get(key) {
        Some(x) => x.as_i64(),
        None => None,
    }
}

impl Gateway {
    pub fn new(token: &str) -> (r: Gateway)
        ensures
            r.token@ == token@,
            r.last_seq is None,
    {
        Gateway { token: token.to_owned(), last_seq: None }
    }

    fn identify(&self) -> (r: String)
        ensures
            r@ == json_text(settled_json(identify_value(self.token@))),
    {
        let mut shard: Vec<Json> = Vec::new();
        let a = Json::Uint(0);
        let b = Json::Uint(1);
        proof {
            lemma_items_push(shard@, a);
            lemma_items_push(shard@.push(a), b);
            assert(items_view(shard@) =~= Seq::empty());
        }
        shard.push(a);
        shard.push(b);
        assert(items_view(shard@) =~= seq![JsonV::Int(0), JsonV::Int(1)]);
        let d = Json::object().with(
            "token",
            Json::Str(text2("QQBot ", self.token.as_str())),
        ).with("intents", Json::Uint(INTENTS)).with("shard", Json::Array(shard));
        print_json(&Json::object().with("op", Json::Uint(2)).with("d", d))
    }

    /// A heartbeat as it is sent.
    pub fn heartbeat(&self) -> (r: String)
        ensures
            r@ == json_text(settled_json(heartbeat_value(opt_int(self.last_seq)))),
    {
        let d: Json = match self.last_seq {
            Some(n) => Json::number(n),
            None => Json::Null,
        };
        print_json(&Json::object().with("op", Json::number(OP_HEARTBEAT)).with("d", d))
    }

    /// What to do with what the gateway sent.
    pub fn on_payload(&mut self, ep: &ChannelEndpoint, payload: &Json) -> (r: Step)
        ensures
            r@ == gateway_step(ep@, old(self).token@, payload@),
            final(self).token == old(self).token,
            opt_int(final(self).last_seq) == seq_after(opt_int(old(self).last_seq), payload@),
    {
        if let Some(s) = int_at(payload, "s") {
            self.last_seq = Some(s);
        }
        let op: i64 = match int_at(payload, "op") {
            Some(n) => n,
            None => -1,
        };
        if op == OP_HELLO {
            let raw: Option<u64> = match payload.get2("d", "heartbeat_interval") {
                Some(n) => n.as_u64(),
                None => None,
            };
            let wanted: u64 = match raw {
                Some(n) => n,
                None => 45000,
            };
            let interval_ms: u64 = if wanted < 5000 {
                5000
            } else {
                wanted
            };
            return Step::Identify { send: self.identify(), interval_ms };
        }
        if op == OP_DISPATCH {
            let t: String = match payload.text_at("t") {
                Some(s) => s.to_owned(),
                None => String::new(),
            };
            if same(t.as_str(), "READY") {
                let session: String = match payload.get("d") {
                    Some(d) => match d.text_at("session_id") {
                        Some(s) => s.to_owned(),
                        None => String::new(),
                    },
                    None => String::new(),
                };
                return Step::Ready { session };
            }
            let null = Json::Null;
            let d = match payload.get("d") {
                Some(d) => d,
                None => &null,
            };
            assert(d@ == payload@.at("d"@));
            return match native_from_event(ep, t.as_str(), d) {
                Some(p) => Step::Ingest(p),
                None => Step::Nothing,
            };
        }
        if op == OP_RECONNECT || op == OP_INVALID_SESSION {
            return Step::Reconnect;
        }
        Step::Nothing
    }

    /// What to do with a text from the gateway; one that is no JSON is as `null`.
    pub fn on_text(&mut self, ep: &ChannelEndpoint, text: &str) -> (r: Step)
        ensures
            ({
                let payload = match parsed_json(text@) {
                    Some(v) => v,
                    None => JsonV::Null,
                };
                &&& r@ == gateway_step(ep@, old(self).token@, payload)
                &&& final(self).token == old(self).token
                &&& opt_int(final(self).last_seq) == seq_after(
                    opt_int(old(self).last_seq),
                    payload,
                )
            }),
    {
        match parse_json(text) {
            Some(v) => self.on_payload(ep, &v),
            None => self.on_payload(ep, &Json::Null),
        }
    }
}

// ---------------------------------------------------------------------------
// Replies
// ---------------------------------------------------------------------------

/// Where a reply is posted, below a host.
pub open spec fn reply_path(p: PayloadV) -> Seq<char> {
    if p.meta.text_at("message_type"@) == Some("group"@) {
        "/v2/groups/"@ + (match p.meta.text_at("group_openid"@) {
            Some(s) => s,
            None => Seq::empty(),
        }) + "/messages"@
    } else {
        "/v2/users/"@ + (match p.meta.text_at("user_openid"@) {
            Some(s) => s,
            None => p.sender_id,
        }) + "/messages"@
    }
}

/// Where a reply is posted, below a host.
pub fn send_path(env: &NativePayload) -> (r: String)
    ensures
        r@ == reply_path(env@),
{
    let group: bool = match env.meta.text_at("message_type") {
        Some(s) => same(s, "group"),
        None => false,
    };
    if group {
        let id: String = match env.meta.text_at("group_openid") {
            Some(s) => s.to_owned(),
            None => String::new(),
        };
        text3("/v2/groups/", id.as_str(), "/messages")
    } else {
        let id: String = match env.meta.text_at("user_openid") {
            Some(s) => s.to_owned(),
            None => env.sender_id.clone(),
        };
        text3("/v2/users/", id.as_str(), "/messages")
    }
}

/// A reply as it is posted.
pub open spec fn reply_body(p: PayloadV, text: Seq<char>, seq: nat) -> JsonV {
    let body = put(
        put(
            put(
                JsonV::Object(Map::empty()),
                "content"@,
                JsonV::Str(clipped(text, 2000)),
            ),
            "msg_type"@,
            JsonV::Int(0),
        ),
        "msg_seq"@,
        JsonV::Int(seq as int),
    );
    match p.meta.text_at("msg_id"@) {
        Some(id) => put(body, "msg_id"@, JsonV::Str(id)),
        None => body,
    }
}

/// A reply as it is posted; `seq` tells it from others to the same message.
pub fn send_body(env: &NativePayload, text: &str, seq: u64) -> (r: Json)
    ensures
        r@ == reply_body(env@, text@, seq as nat),
{
    let mut body = Json::object().with("content", Json::Str(clip(text, 2000))).with(
        "msg_type",
        Json::Uint(0),
    ).with("msg_seq", Json::Uint(seq));
    if let Some(id) = env.meta.text_at("msg_id") {
        body.set("msg_id", Json::string(id));
    }
    body
}

/// What is wrong with the answer to a reply that was posted.
pub open spec fn sent_fault(ok: bool, status: Seq<char>, body: Seq<char>) -> Option<FaultV> {
    if ok {
        None
    } else {
        Some(FaultV::Msg("qq send "@ + status + " "@ + body))
    }
}

/// What is wrong with the answer to a reply that was posted.
pub fn send_fault(ok: bool, status: &str, body: &str) -> (r: Option<Fault>)
    ensures
        opt_fault(r) == sent_fault(ok, status@, body@),
{
    if ok {
        None
    } else {
        Some(Fault::Msg(text4("qq send ", status, " ", body)))
    }
}

/// What follows while a reply is posted.
#[derive(Debug, PartialEq, Eq)]
pub enum SendNext {
    /// It is posted to this address next.
    Post(String),
    Done,
    Failed(Fault),
}

pub ghost enum SendNextV {
    Post(Seq<char>),
    Done,
    Failed(FaultV),
}

impl View for SendNext {
    type V = SendNextV;

    open spec fn view(&self) -> SendNextV {
        match self {
            SendNext::Post(u) => SendNextV::Post(u@),
            SendNext::Done => SendNextV::Done,
            SendNext::Failed(f) => SendNextV::Failed(f@),
        }
    }
}

/// What follows once a reply was posted to the first `tried` hosts, where `fault` came of
/// the last of them: it is done at the first host that takes it, else the next one is
/// tried, and after the last one its failure stands.
pub open spec fn send_after(
    bases: Seq<Seq<char>>,
    path: Seq<char>,
    tried: nat,
    fault: Option<FaultV>,
) -> SendNextV {
    if tried > 0 && fault is None {
        SendNextV::Done
    } else if tried < bases.len() {
        SendNextV::Post(bases[tried as int] + path)
    } else {
        SendNextV::Failed(
            match fault {
                Some(f) => f,
                None => FaultV::Msg("qq send failed"@),
            },
        )
    }
}

/// What follows once a reply was posted to the first `tried` hosts.
pub fn send_next(bases: &Vec<String>, path: &str, tried: usize, fault: Option<Fault>) -> (r:
    SendNext)
    ensures
        r@ == send_after(texts(bases@), path@, tried as nat, opt_fault(fault)),
{
    if tried > 0 && fault.is_none() {
        return SendNext::Done;
    }
    assert(texts(bases@).len() == bases@.len());
    if tried < bases.len() {
        assert(texts(bases@)[tried as int] == bases@[tried as int]@);
        return SendNext::Post(text2(bases[tried].as_str(), path));
    }
    match fault {
        Some(f) => SendNext::Failed(f),
        None => SendNext::Failed(Fault::Msg("qq send failed".to_owned())),
    }
}

// ---------------------------------------------------------------------------
// Laws
// ---------------------------------------------------------------------------

/// A reply goes back where the message came from: to the group of a group message,
/// else to its sender.
pub proof fn law_reply_goes_back(e: EndpointV, t: Seq<char>, d: JsonV)
    requires
        payload_of_event(e, t, d) is Some,
    ensures
        ({
            let p = payload_of_event(e, t, d)->0;
            &&& t != "GROUP_AT_MESSAGE_CREATE"@ ==> reply_path(p) == "/v2/users/"@ + p.sender_id
                + "/messages"@
            &&& t == "GROUP_AT_MESSAGE_CREATE"@ ==> reply_path(p) == "/v2/groups/"@ + qq_text(
                d.at("group_openid"@),
            ) + "/messages"@
        }),
{
    reveal_strlit("message_type");
    reveal_strlit("is_group");
    reveal_strlit("is_mentioned");
    reveal_strlit("msg_id");
    reveal_strlit("group_openid");
    reveal_strlit("user_openid");
    reveal_strlit("C2C_MESSAGE_CREATE");
    reveal_strlit("GROUP_AT_MESSAGE_CREATE");
    reveal_strlit("AT_MESSAGE_CREATE");
    reveal_strlit("DIRECT_MESSAGE_CREATE");
    reveal_strlit("c2c");
    reveal_strlit("group");
    reveal_strlit("guild");
    assert("message_type"@.len() == 12 && "is_group"@.len() == 8 && "is_mentioned"@.len() == 12
        && "msg_id"@.len() == 6 && "group_openid"@.len() == 12 && "user_openid"@.len() == 11);
    assert("message_type"@[0] == 'm' && "is_mentioned"@[0] == 'i' && "group_openid"@[0] == 'g');
    assert("C2C_MESSAGE_CREATE"@.len() == 18 && "GROUP_AT_MESSAGE_CREATE"@.len() == 23
        && "AT_MESSAGE_CREATE"@.len() == 17 && "DIRECT_MESSAGE_CREATE"@.len() == 21);
    assert("c2c"@.len() == 3 && "group"@.len() == 5 && "guild"@.len() == 5);
    assert("group"@[1] == 'r' && "guild"@[1] == 'u');
    let p = payload_of_event(e, t, d)->0;
    let m = p.meta->Object_0;
    if t == "GROUP_AT_MESSAGE_CREATE"@ {
        let g = qq_text(d.at("group_openid"@));
        if g.len() == 0 {
            assert(g =~= Seq::<char>::empty());
        }
    }
}

/// What is taken of an event: a single chat by the user's identifier, a group by the
/// member's, and a channel by the author's; the kind, the group and whether the bot was named
/// follow from it. Any other event has none.
pub proof fn law_what_is_taken_of_an_event(e: EndpointV, t: Seq<char>, d: JsonV)
    ensures
        ({
            let a = d.at("author"@);
            let p = payload_of_event(e, t, d);
            let c2c = t == "C2C_MESSAGE_CREATE"@;
            let group = t == "GROUP_AT_MESSAGE_CREATE"@;
            let guild = t == "AT_MESSAGE_CREATE"@ || t == "DIRECT_MESSAGE_CREATE"@;
            &&& !c2c && !group && !guild ==> p is None
            &&& event_parts(d).len() == 0 ==> p is None
            &&& c2c && a.text_at("user_openid"@) is Some && a.text_at("user_openid"@)->0.len() > 0
                && event_parts(d).len() > 0 ==> p is Some && p->0.sender_id == a.text_at(
                "user_openid"@,
            )->0
            &&& group && a.text_at("member_openid"@) is Some && a.text_at("member_openid"@)->0.len()
                > 0 && event_parts(d).len() > 0 ==> p is Some && p->0.sender_id == a.text_at(
                "member_openid"@,
            )->0
            &&& guild && a.text_at("id"@) is Some && a.text_at("id"@)->0.len() > 0 && event_parts(
                d,
            ).len() > 0 ==> p is Some && p->0.sender_id == a.text_at("id"@)->0
            &&& p is Some ==> {
                &&& p->0.content_parts == event_parts(d)
                &&& p->0.meta.at("is_group"@) == JsonV::Bool(group)
                &&& p->0.meta.at("is_mentioned"@) == JsonV::Bool(!c2c)
                &&& p->0.meta.at("user_openid"@) == JsonV::Str(p->0.sender_id)
                &&& d.text_at("id"@) matches Some(id) ==> p->0.meta.at("msg_id"@) == JsonV::Str(id)
                &&& e.kind.len() > 0 ==> p->0.channel == e.kind
                &&& e.kind.len() == 0 ==> p->0.channel == "qq"@
            }
        }),
{
    reveal_strlit("message_type");
    reveal_strlit("is_group");
    reveal_strlit("is_mentioned");
    reveal_strlit("msg_id");
    reveal_strlit("group_openid");
    reveal_strlit("user_openid");
    assert("message_type"@.len() == 12 && "is_group"@.len() == 8 && "is_mentioned"@.len() == 12 && "msg_id"@.len() == 6 && "group_openid"@.len() == 12 && "user_openid"@.len() == 11);
    assert("message_type"@[0] == 'm' && "is_mentioned"@[0] == 'i');
    assert("message_type"@[0] == 'm' && "group_openid"@[0] == 'g');
    assert("is_mentioned"@[0] == 'i' && "group_openid"@[0] == 'g');
    reveal_strlit("C2C_MESSAGE_CREATE");
    reveal_strlit("GROUP_AT_MESSAGE_CREATE");
    reveal_strlit("AT_MESSAGE_CREATE");
    reveal_strlit("DIRECT_MESSAGE_CREATE");
    assert("C2C_MESSAGE_CREATE"@.len() == 18 && "GROUP_AT_MESSAGE_CREATE"@.len() == 23 && "AT_MESSAGE_CREATE"@.len() == 17 && "DIRECT_MESSAGE_CREATE"@.len() == 21);
    reveal_strlit("c2c");
    reveal_strlit("group");
    reveal_strlit("guild");
    assert("c2c"@.len() == 3 && "group"@.len() == 5 && "guild"@.len() == 5);
    assert("group"@[1] == 'r' && "guild"@[1] == 'u');
}

/// What a message consists of: its text, where it says anything, and then its attachments,
/// each as one part.
pub proof fn law_what_a_message_consists_of(d: JsonV, s: Seq<char>, items: Seq<JsonV>)
    requires
        d.text_at("content"@) == Some(s),
    ensures
        trimmed(s).len() > 0 && !(d.at("attachments"@) is Array) ==> event_parts(d) == seq![
            PartV::Text { text: trimmed(s) },
        ],
        trimmed(s).len() == 0 && !(d.at("attachments"@) is Array) ==> event_parts(d).len() == 0,
        d.at("attachments"@) == JsonV::Array(items) && trimmed(s).len() > 0 ==> event_parts(d).len()
            == items.len() + 1 && event_parts(d)[0] == (PartV::Text { text: trimmed(s) }),
        d.at("attachments"@) == JsonV::Array(items) && trimmed(s).len() == 0 ==> event_parts(d).len()
            == items.len(),
{
}

/// An attachment is a picture by its kind or by its name, shown by its address where it has
/// one; any other is named.
pub proof fn law_what_an_attachment_becomes(a: JsonV, name: Seq<char>, url: Seq<char>, kind: Seq<char>)
    requires
        a.text_at("filename"@) == Some(name),
        a.text_at("url"@) == Some(url),
        a.text_at("content_type"@) == Some(kind),
        name.len() > 0 && url.len() > 0 && kind.len() > 0,
    ensures
        ({
            let picture = has_prefix(lower(kind), "image/"@) || has_suffix(lower(name), ".png"@)
                || has_suffix(lower(name), ".jpg"@) || has_suffix(lower(name), ".jpeg"@);
            let there = has_prefix(url, "http://"@) || has_prefix(url, "https://"@);
            &&& picture && there ==> attachment_part(a) == (PartV::Image {
                image_url: url,
                url: Seq::empty(),
                mime: "image/jpeg"@,
            })
            &&& picture && !there ==> attachment_part(a) == (PartV::Text { text: "[图片]"@ })
            &&& !picture ==> attachment_part(a) == (PartV::Text { text: "[文件] "@ + name })
        }),
{
}

/// What is done with what the gateway sends: a greeting is answered with who the bot is, and
/// sets the pace of the heartbeats; a message is taken in; and the gateway may ask for a new
/// connection.
pub proof fn law_what_is_done_with_the_gateway(e: EndpointV, token: Seq<char>, v: JsonV, n: int)
    ensures
        ({
            let s = gateway_step(e, token, v);
            let beat = v.at("d"@).at("heartbeat_interval"@);
            &&& v.at("op"@) == JsonV::Int(10) ==> s is Identify
            &&& v.at("op"@) == JsonV::Int(10) && beat == JsonV::Int(n) && 5000 <= n <= u64::MAX
                ==> s->interval_ms == n
            &&& v.at("op"@) == JsonV::Int(10) && beat == JsonV::Int(n) && 0 <= n < 5000
                ==> s->interval_ms == 5000
            &&& v.at("op"@) == JsonV::Int(10) && beat is Null ==> s->interval_ms == 45000
            &&& v.at("op"@) == JsonV::Int(0) && v.text_at("t"@) == Some("READY"@) ==> s is Ready
            &&& v.at("op"@) == JsonV::Int(0) && v.text_at("t"@) is Some && v.text_at("t"@)->0
                != "READY"@ && payload_of_event(e, v.text_at("t"@)->0, v.at("d"@)) is Some ==> s
                == StepV::Ingest(payload_of_event(e, v.text_at("t"@)->0, v.at("d"@))->0)
            &&& v.at("op"@) == JsonV::Int(7) || v.at("op"@) == JsonV::Int(9) ==> s is Reconnect
            &&& v.at("op"@) == JsonV::Int(11) || v.field("op"@) is None ==> s is Nothing
        }),
{
}

/// The bot says who it is by its token, and what it wants to hear of.
pub proof fn law_how_the_bot_identifies_itself(token: Seq<char>)
    ensures
        ({
            let v = identify_value(token);
            &&& v.at("op"@) == JsonV::Int(2)
            &&& v.at("d"@).text_at("token"@) == Some("QQBot "@ + token)
            &&& v.at("d"@).at("intents"@) == JsonV::Int(
                0x4000_0000int + 0x400_0000 + 0x200_0000 + 0x1000 + 2,
            )
            &&& v.at("d"@).at("shard"@) == JsonV::Array(seq![JsonV::Int(0), JsonV::Int(1)])
        }),
{
    reveal_strlit("op");
    reveal_strlit("d");
    reveal_strlit("token");
    reveal_strlit("intents");
    reveal_strlit("shard");
    assert("op"@.len() == 2 && "d"@.len() == 1 && "token"@.len() == 5 && "intents"@.len() == 7 && "shard"@.len() == 5);
    assert("token"@[0] == 't' && "shard"@[0] == 's');
}

/// A heartbeat carries the last number that the gateway sent.
pub proof fn law_heartbeats_carry_the_last_number(last: Option<int>, v: JsonV, n: int)
    ensures
        v.at("s"@) == JsonV::Int(n) && i64::MIN <= n <= i64::MAX ==> seq_after(last, v) == Some(n),
        v.field("s"@) is None || v.at("s"@) is Null ==> seq_after(last, v) == last,
        heartbeat_value(Some(n)).at("d"@) == JsonV::Int(n),
        heartbeat_value(None).at("d"@) is Null,
        heartbeat_value(last).at("op"@) == JsonV::Int(1),
{
    reveal_strlit("op");
    reveal_strlit("d");
    assert("op"@.len() == 2 && "d"@.len() == 1);
}

/// A reply is posted with its text, up to two thousand characters, its number and the message
/// that it answers.
pub proof fn law_what_is_posted(p: PayloadV, text: Seq<char>, seq: nat)
    ensures
        ({
            let b = reply_body(p, text, seq);
            &&& text.len() <= 2000 ==> b.text_at("content"@) == Some(text)
            &&& text.len() > 2000 ==> b.text_at("content"@) == Some(text.take(2000))
            &&& b.at("msg_type"@) == JsonV::Int(0)
            &&& b.at("msg_seq"@) == JsonV::Int(seq as int)
            &&& p.meta.text_at("msg_id"@) matches Some(id) ==> b.text_at("msg_id"@) == Some(id)
            &&& p.meta.text_at("msg_id"@) is None ==> b.field("msg_id"@) is None
        }),
{
    reveal_strlit("content");
    reveal_strlit("msg_type");
    reveal_strlit("msg_seq");
    reveal_strlit("msg_id");
    assert("content"@.len() == 7 && "msg_type"@.len() == 8 && "msg_seq"@.len() == 7 && "msg_id"@.len() == 6);
    assert("content"@[0] == 'c' && "msg_seq"@[0] == 'm');
}

/// The hosts are tried in turn until one does: none is left out, and the failure of the last
/// is the failure of all.
pub proof fn law_every_host_is_tried(
    bases: Seq<Seq<char>>,
    n: nat,
    url: Seq<char>,
    f: FaultV,
    path: Seq<char>,
)
    ensures
        gateway_after(bases, n, Some(Ok(url))) == GatewayNextV::Found(url),
        n < bases.len() ==> gateway_after(bases, n, Some(Err(f))) == GatewayNextV::Ask(
            bases[n as int] + "/gateway"@,
        ),
        n >= bases.len() ==> gateway_after(bases, n, Some(Err(f))) == GatewayNextV::Failed(f),
        bases.len() > 0 ==> gateway_after(bases, 0, None) == GatewayNextV::Ask(
            bases[0] + "/gateway"@,
        ),
        n > 0 ==> send_after(bases, path, n, None) == SendNextV::Done,
        n < bases.len() ==> send_after(bases, path, n, Some(f)) == SendNextV::Post(
            bases[n as int] + path,
        ),
        n >= bases.len() ==> send_after(bases, path, n, Some(f)) == SendNextV::Failed(f),
        bases.len() > 0 ==> send_after(bases, path, 0, None) == SendNextV::Post(bases[0] + path),
{
}

/// The hosts: the endpoint's own, the environment's, and the two that there always are, each
/// once.
pub proof fn law_which_hosts_there_are(e: EndpointV, env: Option<Seq<char>>)
    ensures
        bases_of(e, env).contains("https://api.sgroup.qq.com"@),
        bases_of(e, env).contains("https://sandbox.api.sgroup.qq.com"@),
        extra_of(e, "api_base"@).len() > 0 ==> bases_of(e, env)[0] == without_trailing(
            extra_of(e, "api_base"@),
            '/',
        ),
        extra_of(e, "api_base"@).len() == 0 && env is Some && without_trailing(
            trimmed(env->0),
            '/',
        ).len() > 0 ==> bases_of(e, env)[0] == without_trailing(trimmed(env->0), '/'),
        extra_of(e, "api_base"@).len() == 0 && env is None ==> bases_of(e, env)[0]
            == "https://api.sgroup.qq.com"@,
{
    let a = "https://api.sgroup.qq.com"@;
    let b = "https://sandbox.api.sgroup.qq.com"@;
    let own = extra_of(e, "api_base"@);
    let first = if own.len() > 0 {
        seq![without_trailing(own, '/')]
    } else {
        Seq::<Seq<char>>::empty()
    };
    let second = match env {
        Some(x) => {
            let s = without_trailing(trimmed(x), '/');
            if s.len() > 0 {
                with_new(first, s)
            } else {
                first
            }
        },
        None => first,
    };
    lemma_new_is_there(second, a);
    lemma_new_is_there(with_new(second, a), b);
    if let Some(x) = env {
        lemma_new_is_there(first, without_trailing(trimmed(x), '/'));
    }
}

proof fn lemma_new_is_there(list: Seq<Seq<char>>, s: Seq<char>)
    ensures
        with_new(list, s).contains(s),
        forall|x: Seq<char>| list.contains(x) ==> #[trigger] with_new(list, s).contains(x),
        list.len() > 0 ==> with_new(list, s)[0] == list[0],
        list.len() == 0 ==> with_new(list, s)[0] == s,
{
    let l = with_new(list, s);
    if !list.contains(s) {
        assert(l[l.len() - 1] == s);
        assert forall|x: Seq<char>| list.contains(x) implies #[trigger] l.contains(x) by {
            let i = choose|i: int| 0 <= i < list.len() && list[i] == x;
            assert(l[i] == x);
        }
    }
}

/// Identifier and secret stand among the further settings, and both must be there.
pub proof fn law_where_the_credentials_stand(e: EndpointV)
    ensures
        ({
            let id = extra_of(e, "app_id"@);
            let secret = extra_of(e, "client_secret"@);
            &&& id.len() > 0 && secret.len() > 0 ==> credentials_of(e) == Some((id, secret))
            &&& id.len() == 0 || secret.len() == 0 ==> credentials_of(e) is None
        }),
{
}

/// A token and a gateway are what the answer says, where it says one.
pub proof fn law_what_the_answers_give(data: JsonV, base: Seq<char>, status: Seq<char>, s: Seq<char>)
    ensures
        data.text_at("access_token"@) == Some(s) && s.len() > 0 ==> token_answer(data) == Ok::<
            Seq<char>,
            FaultV,
        >(s),
        data.text_at("access_token"@) is None ==> token_answer(data) is Err,
        data.text_at("access_token"@) == Some(Seq::<char>::empty()) ==> token_answer(data) is Err,
        data.text_at("url"@) == Some(s) ==> gateway_answer(true, base, status, data) == Ok::<
            Seq<char>,
            FaultV,
        >(s),
        data.text_at("url"@) is None ==> gateway_answer(true, base, status, data) is Err,
        gateway_answer(false, base, status, data) is Err,
        sent_fault(true, status, s) is None,
        sent_fault(false, status, s) is Some,
{
}

} // verus!
