//! Replies on their way back.

use vstd::prelude::*;
use crate::channel::config::{ChannelEndpoint, EndpointV};
use crate::channel::envelope::{
    add_line, fallback_of, nonempty, nonempty_of, part_text, parts_view, ContentPart, NativePayload,
    PartV, PayloadV,
};
use crate::json::{items_view, lemma_items_push, opt_text, put, Json, JsonV};
use crate::table::bound;
use crate::text::{blank, is_blank, same};

verus! {

/// A reply that is one text; a blank one is none.
pub fn reply_text(body: &str) -> (r: Vec<ContentPart>)
    ensures
        parts_view(r@) == (if blank(body@) {
            Seq::empty()
        } else {
            seq![PartV::Text { text: body@ }]
        }),
{
    let mut out: Vec<ContentPart> = Vec::new();
    if !is_blank(body) {
        let p = ContentPart::text(body);
        out.push(p);
        assert(parts_view(out@) =~= seq![p@]);
    } else {
        assert(parts_view(out@) =~= Seq::empty());
    }
    out
}

/// What stands for a part in a reply: its text, else a line.
pub open spec fn part_line(p: PartV) -> Option<Seq<char>> {
    match part_text(p) {
        Some(t) => Some(t),
        None => fallback_of(p),
    }
}

/// The parts as one text, a line each.
pub open spec fn parts_text(parts: Seq<PartV>) -> Seq<char>
    decreases parts.len(),
{
    if parts.len() == 0 {
        Seq::empty()
    } else {
        let before = parts_text(parts.drop_last());
        match part_line(parts.last()) {
            Some(t) => add_line(before, t),
            None => before,
        }
    }
}

/// The parts as one text, a line each.
pub fn parts_to_text(parts: &Vec<ContentPart>) -> (r: String)
    ensures
        r@ == parts_text(parts_view(parts@)),
{
    let ghost ps = parts_view(parts@);
    let mut out: String = String::new();
    let mut i: usize = 0;
    while i < parts.len()
        invariant
            i <= parts@.len(),
            ps == parts_view(parts@),
            out@ == parts_text(ps.take(i as int)),
        decreases parts.len() - i,
    {
        assert(ps.take(i + 1).drop_last() =~= ps.take(i as int));
        assert(ps.take(i + 1).last() == parts@[i as int]@);
        let line: Option<String> = match parts[i].as_text() {
            Some(t) => Some(t.to_owned()),
            None => parts[i].fallback_line(),
        };
        if let Some(t) = line {
            if !out.as_str().is_empty() {
                out.push('\n');
            }
            out.append(t.as_str());
        }
        i = i + 1;
    }
    assert(ps.take(i as int) =~= ps);
    out
}

/// How a reply is sent.
#[derive(Debug, Clone, Copy, PartialEq, Eq, Structural)]
pub enum Carrier {
    Telegram,
    Qq,
    Wechat,
    Wecom,
    Dingtalk,
    Feishu,
    Webhook,
}

/// The carrier of a kind of channel.
pub open spec fn carrier_of(kind: Seq<char>) -> Carrier {
    if kind == "telegram"@ {
        Carrier::Telegram
    } else if kind == "qq"@ {
        Carrier::Qq
    } else if kind == "wechat"@ {
        Carrier::Wechat
    } else if kind == "wecom"@ {
        Carrier::Wecom
    } else if kind == "dingtalk"@ {
        Carrier::Dingtalk
    } else if kind == "feishu"@ {
        Carrier::Feishu
    } else {
        Carrier::Webhook
    }
}

/// How the reply to a payload is sent: by the kind of its endpoint, else by the
/// channel that it names. A reply without parts is not sent.
pub fn deliver(
    ep: Option<&ChannelEndpoint>,
    env: &NativePayload,
    parts: &Vec<ContentPart>,
) -> (r: Option<Carrier>)
    ensures
        r == (if parts@.len() == 0 {
            None
        } else {
            Some(
                carrier_of(
                    match ep {
                        Some(e) => e@.kind,
                        None => env@.channel,
                    },
                ),
            )
        }),
{
    if parts.len() == 0 {
        return None;
    }
    let kind = match ep {
        Some(e) => e.kind.as_str(),
        None => env.channel.as_str(),
    };
    Some(
        if same(kind, "telegram") {
            Carrier::Telegram
        } else if same(kind, "qq") {
            Carrier::Qq
        } else if same(kind, "wechat") {
            Carrier::Wechat
        } else if same(kind, "wecom") {
            Carrier::Wecom
        } else if same(kind, "dingtalk") {
            Carrier::Dingtalk
        } else if same(kind, "feishu") {
            Carrier::Feishu
        } else {
            Carrier::Webhook
        },
    )
}

/// Where a webhook reply is posted: where the payload says, else where the endpoint
/// says.
pub open spec fn webhook_of(ep: Option<EndpointV>, p: PayloadV) -> Option<Seq<char>> {
    match p.reply_to() {
        Some(u) => Some(u),
        None => match ep {
            Some(e) => match nonempty_of(e.reply_url) {
                Some(u) => Some(u),
                None => bound(e.extra, "reply_url"@),
            },
            None => None,
        },
    }
}

/// Where a webhook reply is posted.
pub fn webhook_url(ep: Option<&ChannelEndpoint>, env: &NativePayload) -> (r: Option<String>)
    ensures
        opt_text(r) == webhook_of(
            match ep {
                Some(e) => Some(e@),
                None => None,
            },
            env@,
        ),
{
    if let Some(u) = env.reply_url() {
        return Some(u);
    }
    match ep {
        Some(e) => match nonempty(e.reply_url.as_str()) {
            Some(u) => Some(u),
            None => match e.extra.get("reply_url") {
                Some(s) => Some(s.clone()),
                None => None,
            },
        },
        None => None,
    }
}

/// The token that goes with a webhook reply, where the endpoint has a secret.
pub fn webhook_token(ep: Option<&ChannelEndpoint>) -> (r: Option<String>)
    ensures
        opt_text(r) == (match ep {
            Some(e) => nonempty_of(e@.secret),
            None => None,
        }),
{
    match ep {
        Some(e) => nonempty(e.secret.as_str()),
        None => None,
    }
}

pub open spec fn no_fields() -> JsonV {
    JsonV::Object(Map::empty())
}

/// A part as it is sent.
pub open spec fn part_json(p: PartV) -> JsonV {
    match p {
        PartV::Text { text } => put(
            put(no_fields(), "type"@, JsonV::Str("text"@)),
            "text"@,
            JsonV::Str(text),
        ),
        PartV::Image { image_url, url, mime } => put(
            put(
                put(
                    put(no_fields(), "type"@, JsonV::Str("image"@)),
                    "image_url"@,
                    JsonV::Str(image_url),
                ),
                "url"@,
                JsonV::Str(url),
            ),
            "mime"@,
            JsonV::Str(mime),
        ),
        PartV::Video { video_url, url, mime } => put(
            put(
                put(
                    put(no_fields(), "type"@, JsonV::Str("video"@)),
                    "video_url"@,
                    JsonV::Str(video_url),
                ),
                "url"@,
                JsonV::Str(url),
            ),
            "mime"@,
            JsonV::Str(mime),
        ),
        PartV::Audio { audio_url, url, mime } => put(
            put(
                put(
                    put(no_fields(), "type"@, JsonV::Str("audio"@)),
                    "audio_url"@,
                    JsonV::Str(audio_url),
                ),
                "url"@,
                JsonV::Str(url),
            ),
            "mime"@,
            JsonV::Str(mime),
        ),
        PartV::File { file_url, file_id, name } => put(
            put(
                put(
                    put(no_fields(), "type"@, JsonV::Str("file"@)),
                    "file_url"@,
                    JsonV::Str(file_url),
                ),
                "file_id"@,
                JsonV::Str(file_id),
            ),
            "name"@,
            JsonV::Str(name),
        ),
    }
}

/// Four texts under four keys.
fn object4(kind: &str, k1: &str, v1: &str, k2: &str, v2: &str, k3: &str, v3: &str) -> (r: Json)
    ensures
        r@ == put(
            put(
                put(put(no_fields(), "type"@, JsonV::Str(kind@)), k1@, JsonV::Str(v1@)),
                k2@,
                JsonV::Str(v2@),
            ),
            k3@,
            JsonV::Str(v3@),
        ),
{
    Json::object().with("type", Json::string(kind)).with(k1, Json::string(v1)).with(
        k2,
        Json::string(v2),
    ).with(k3, Json::string(v3))
}

fn json_of_part(p: &ContentPart) -> (r: Json)
    ensures
        r@ == part_json(p@),
{
    match p {
        ContentPart::Text { text } => Json::object().with("type", Json::string("text")).with(
            "text",
            Json::string(text.as_str()),
        ),
        ContentPart::Image { image_url, url, mime } => object4(
            "image",
            "image_url",
            image_url.as_str(),
            "url",
            url.as_str(),
            "mime",
            mime.as_str(),
        ),
        ContentPart::Video { video_url, url, mime } => object4(
            "video",
            "video_url",
            video_url.as_str(),
            "url",
            url.as_str(),
            "mime",
            mime.as_str(),
        ),
        ContentPart::Audio { audio_url, url, mime } => object4(
            "audio",
            "audio_url",
            audio_url.as_str(),
            "url",
            url.as_str(),
            "mime",
            mime.as_str(),
        ),
        ContentPart::File { file_url, file_id, name } => object4(
            "file",
            "file_url",
            file_url.as_str(),
            "file_id",
            file_id.as_str(),
            "name",
            name.as_str(),
        ),
    }
}

/// A reply as it is announced or posted.
pub open spec fn notification(p: PayloadV, parts: Seq<PartV>) -> JsonV {
    put(
        put(
            put(
                put(
                    put(
                        put(
                            put(no_fields(), "channel"@, JsonV::Str(p.channel)),
                            "sender_id"@,
                            JsonV::Str(p.sender_id),
                        ),
                        "session_id"@,
                        JsonV::Str(p.session_id),
                    ),
                    "to_handle"@,
                    JsonV::Str(p.chat()),
                ),
                "content_parts"@,
                JsonV::Array(parts.map_values(|x: PartV| part_json(x))),
            ),
            "text"@,
            JsonV::Str(parts_text(parts)),
        ),
        "meta"@,
        p.meta,
    )
}

/// A reply as it is announced or posted.
pub fn outbound_notification(env: &NativePayload, parts: &Vec<ContentPart>) -> (r: Json)
    ensures
        r@ == notification(env@, parts_view(parts@)),
{
    let ghost ps = parts_view(parts@).map_values(|x: PartV| part_json(x));
    let mut list: Vec<Json> = Vec::new();
    let mut i: usize = 0;
    assert(items_view(list@) =~= Seq::empty());
    while i < parts.len()
        invariant
            i <= parts@.len(),
            ps == parts_view(parts@).map_values(|x: PartV| part_json(x)),
            items_view(list@) =~= ps.take(i as int),
        decreases parts.len() - i,
    {
        let j = json_of_part(&parts[i]);
        proof {
            lemma_items_push(list@, j);
            assert(ps[i as int] == j@);
            assert(ps.take(i + 1) =~= ps.take(i as int).push(j@));
        }
        list.push(j);
        i = i + 1;
    }
    assert(ps.take(i as int) =~= ps);
    Json::object().with("channel", Json::string(env.channel.as_str())).with(
        "sender_id",
        Json::string(env.sender_id.as_str()),
    ).with("session_id", Json::string(env.session_id.as_str())).with(
        "to_handle",
        Json::Str(env.chat_id()),
    ).with("content_parts", Json::Array(list)).with("text", Json::Str(parts_to_text(parts))).with(
        "meta",
        env.meta.copy(),
    )
}

/// A reply is the texts of its parts and what stands for the others, line by line in order.
pub proof fn law_a_reply_is_put_together(ps: Seq<PartV>, t: Seq<char>, x: PartV)
    ensures
        parts_text(Seq::empty()).len() == 0,
        parts_text(ps).len() == 0 ==> parts_text(ps.push(PartV::Text { text: t })) == t,
        parts_text(ps).len() > 0 ==> parts_text(ps.push(PartV::Text { text: t })) == parts_text(
            ps,
        ).push('\n') + t,
        !(x is Text) && fallback_of(x) is None ==> parts_text(ps.push(x)) == parts_text(ps),
        !(x is Text) && fallback_of(x) is Some && parts_text(ps).len() > 0 ==> parts_text(
            ps.push(x),
        ) == parts_text(ps).push('\n') + fallback_of(x)->0,
{
    let y = PartV::Text { text: t };
    assert(ps.push(y).drop_last() =~= ps);
    assert(ps.push(x).drop_last() =~= ps);
    if parts_text(ps).len() == 0 {
        assert(parts_text(ps) + t =~= t);
    }
}

/// Each kind of channel has its own way back, and any other kind the plain one.
pub proof fn law_each_kind_has_its_way_back(kind: Seq<char>)
    ensures
        kind == "telegram"@ <==> carrier_of(kind) == Carrier::Telegram,
        kind == "qq"@ <==> carrier_of(kind) == Carrier::Qq,
        kind == "wechat"@ <==> carrier_of(kind) == Carrier::Wechat,
        kind == "wecom"@ <==> carrier_of(kind) == Carrier::Wecom,
        kind == "dingtalk"@ <==> carrier_of(kind) == Carrier::Dingtalk,
        kind == "feishu"@ <==> carrier_of(kind) == Carrier::Feishu,
{
    reveal_strlit("telegram");
    reveal_strlit("qq");
    reveal_strlit("wechat");
    reveal_strlit("wecom");
    reveal_strlit("dingtalk");
    reveal_strlit("feishu");
    assert("telegram"@.len() == 8 && "qq"@.len() == 2 && "wechat"@.len() == 6 && "wecom"@.len() == 5 && "dingtalk"@.len() == 8 && "feishu"@.len() == 6);
    assert("telegram"@[0] == 't' && "dingtalk"@[0] == 'd');
    assert("wechat"@[0] == 'w' && "feishu"@[0] == 'f');
}

/// A reply is posted where the message says, else where the endpoint does, by its own field
/// or by its further settings; else nowhere.
pub proof fn law_where_a_reply_is_posted(e: EndpointV, p: PayloadV, u: Seq<char>)
    ensures
        p.reply_to() == Some(u) ==> webhook_of(Some(e), p) == Some(u),
        p.reply_to() is None && crate::text::trimmed(e.reply_url).len() > 0 ==> webhook_of(Some(e), p) == Some(
            crate::text::trimmed(e.reply_url),
        ),
        p.reply_to() is None && crate::text::trimmed(e.reply_url).len() == 0 && e.extra.contains_key(
            "reply_url"@,
        ) ==> webhook_of(Some(e), p) == Some(e.extra["reply_url"@]),
        p.reply_to() is None && crate::text::trimmed(e.reply_url).len() == 0 && !e.extra.contains_key(
            "reply_url"@,
        ) ==> webhook_of(Some(e), p) is None,
        p.reply_to() is None ==> webhook_of(None, p) is None,
{
}

/// What is announced of a reply says to whom it goes, and carries its parts and its text.
pub proof fn law_what_is_announced(p: PayloadV, ps: Seq<PartV>)
    ensures
        ({
            let n = notification(p, ps);
            &&& n.field("channel"@) == Some(JsonV::Str(p.channel))
            &&& n.field("sender_id"@) == Some(JsonV::Str(p.sender_id))
            &&& n.field("session_id"@) == Some(JsonV::Str(p.session_id))
            &&& n.field("to_handle"@) == Some(JsonV::Str(p.chat()))
            &&& n.field("text"@) == Some(JsonV::Str(parts_text(ps)))
            &&& n.field("meta"@) == Some(p.meta)
            &&& n.at("content_parts"@) is Array && n.at("content_parts"@)->Array_0.len()
                == ps.len()
            &&& forall|i: int|
                0 <= i < ps.len() ==> #[trigger] n.at("content_parts"@)->Array_0[i] == part_json(
                    ps[i],
                )
        }),
{
    reveal_strlit("channel");
    reveal_strlit("sender_id");
    reveal_strlit("session_id");
    reveal_strlit("to_handle");
    reveal_strlit("content_parts");
    reveal_strlit("text");
    reveal_strlit("meta");
    assert("channel"@.len() == 7 && "sender_id"@.len() == 9 && "session_id"@.len() == 10 && "to_handle"@.len() == 9 && "content_parts"@.len() == 13 && "text"@.len() == 4 && "meta"@.len() == 4);
    assert("sender_id"@[0] == 's' && "to_handle"@[0] == 't');
    assert("text"@[0] == 't' && "meta"@[0] == 'm');
}

/// A part is sent under its kind, with what it holds.
pub proof fn law_how_a_part_is_sent(a: Seq<char>, b: Seq<char>, c: Seq<char>)
    ensures
        ({
            let t = part_json(PartV::Text { text: a });
            let i = part_json(PartV::Image { image_url: a, url: b, mime: c });
            let v = part_json(PartV::Video { video_url: a, url: b, mime: c });
            let s = part_json(PartV::Audio { audio_url: a, url: b, mime: c });
            let f = part_json(PartV::File { file_url: a, file_id: b, name: c });
            &&& t.text_at("type"@) == Some("text"@) && t.text_at("text"@) == Some(a)
            &&& i.text_at("type"@) == Some("image"@) && i.text_at("image_url"@) == Some(a)
                && i.text_at("url"@) == Some(b) && i.text_at("mime"@) == Some(c)
            &&& v.text_at("type"@) == Some("video"@) && v.text_at("video_url"@) == Some(a)
                && v.text_at("url"@) == Some(b) && v.text_at("mime"@) == Some(c)
            &&& s.text_at("type"@) == Some("audio"@) && s.text_at("audio_url"@) == Some(a)
                && s.text_at("url"@) == Some(b) && s.text_at("mime"@) == Some(c)
            &&& f.text_at("type"@) == Some("file"@) && f.text_at("file_url"@) == Some(a)
                && f.text_at("file_id"@) == Some(b) && f.text_at("name"@) == Some(c)
        }),
{
    reveal_strlit("type");
    reveal_strlit("text");
    reveal_strlit("image_url");
    reveal_strlit("video_url");
    reveal_strlit("audio_url");
    reveal_strlit("url");
    reveal_strlit("mime");
    reveal_strlit("file_url");
    reveal_strlit("file_id");
    reveal_strlit("name");
    assert("type"@.len() == 4 && "text"@.len() == 4 && "image_url"@.len() == 9 && "video_url"@.len() == 9 && "audio_url"@.len() == 9 && "url"@.len() == 3 && "mime"@.len() == 4 && "file_url"@.len() == 8 && "file_id"@.len() == 7 && "name"@.len() == 4);
    assert("type"@[1] == 'y' && "text"@[1] == 'e');
    assert("type"@[0] == 't' && "mime"@[0] == 'm');
    assert("type"@[0] == 't' && "name"@[0] == 'n');
    assert("text"@[0] == 't' && "mime"@[0] == 'm');
    assert("text"@[0] == 't' && "name"@[0] == 'n');
    assert("image_url"@[0] == 'i' && "video_url"@[0] == 'v');
    assert("image_url"@[0] == 'i' && "audio_url"@[0] == 'a');
    assert("video_url"@[0] == 'v' && "audio_url"@[0] == 'a');
    assert("mime"@[0] == 'm' && "name"@[0] == 'n');
}

} // verus!
