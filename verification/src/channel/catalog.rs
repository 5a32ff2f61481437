//! The kinds of channels as a console shows them: names, settings and how they are
//! bound.

use vstd::prelude::*;
use crate::channel::config::{kind_name, known_kind};
use crate::json::{items_view, lemma_items_push, put, Json, JsonV};
use crate::text::{lower, same, to_lower};

verus! {

/// A setting of a kind of channel.
#[derive(Debug, PartialEq, Eq)]
pub struct FieldSpec {
    pub key: String,
    pub label: String,
    pub secret: bool,
    pub hint: String,
}

pub ghost struct FieldV {
    pub key: Seq<char>,
    pub label: Seq<char>,
    pub secret: bool,
    pub hint: Seq<char>,
}

impl View for FieldSpec {
    type V = FieldV;

    open spec fn view(&self) -> FieldV {
        FieldV { key: self.key@, label: self.label@, secret: self.secret, hint: self.hint@ }
    }
}

pub open spec fn fields_view(v: Seq<FieldSpec>) -> Seq<FieldV> {
    v.map_values(|f: FieldSpec| f@)
}

/// A kind of channel.
#[derive(Debug, PartialEq, Eq)]
pub struct KindSpec {
    pub id: String,
    pub name: String,
    pub blurb: String,
    pub mark: String,
    /// The colour of its tile.
    pub color: String,
    /// Whether it is bound by scanning a code.
    pub qr: bool,
    /// Whether there is only one endpoint of the kind.
    pub once: bool,
    /// Whether a client runs in this process.
    pub in_process: bool,
    pub fields: Vec<FieldSpec>,
}

pub ghost struct KindV {
    pub id: Seq<char>,
    pub name: Seq<char>,
    pub blurb: Seq<char>,
    pub mark: Seq<char>,
    pub color: Seq<char>,
    pub qr: bool,
    pub once: bool,
    pub in_process: bool,
    pub fields: Seq<FieldV>,
}

impl View for KindSpec {
    type V = KindV;

    open spec fn view(&self) -> KindV {
        KindV {
            id: self.id@,
            name: self.name@,
            blurb: self.blurb@,
            mark: self.mark@,
            color: self.color@,
            qr: self.qr,
            once: self.once,
            in_process: self.in_process,
            fields: fields_view(self.fields@),
        }
    }
}

pub open spec fn kinds_view(v: Seq<KindSpec>) -> Seq<KindV> {
    v.map_values(|k: KindSpec| k@)
}

pub open spec fn field_v(key: Seq<char>, label: Seq<char>, secret: bool, hint: Seq<char>) -> FieldV {
    FieldV { key, label, secret, hint }
}

fn field(key: &str, label: &str, secret: bool, hint: &str) -> (r: FieldSpec)
    ensures
        r@ == field_v(key@, label@, secret, hint@),
{
    FieldSpec { key: key.to_owned(), label: label.to_owned(), secret, hint: hint.to_owned() }
}


pub open spec fn dingtalk_kind() -> KindV {
    KindV {
        id: "dingtalk"@,
        name: "钉钉"@,
        blurb: "扫码创应用后进程内连钉钉 Stream"@,
        mark: "钉"@,
        color: "#0089FF"@,
        qr: true,
        once: true,
        in_process: true,
        fields: seq![
            field_v("client_id"@, "Client ID"@, false, "即 AppKey"@),
            field_v("client_secret"@, "Client Secret"@, true, "即 AppSecret"@),
        ],
    }
}

fn dingtalk() -> (r: KindSpec)
    ensures
        r@ == dingtalk_kind(),
{
    let mut fields: Vec<FieldSpec> = Vec::new();
    fields.push(field("client_id", "Client ID", false, "即 AppKey"));
    fields.push(field("client_secret", "Client Secret", true, "即 AppSecret"));
    assert(fields_view(fields@) =~= dingtalk_kind().fields);
    KindSpec {
        id: "dingtalk".to_owned(),
        name: "钉钉".to_owned(),
        blurb: "扫码创应用后进程内连钉钉 Stream".to_owned(),
        mark: "钉".to_owned(),
        color: "#0089FF".to_owned(),
        qr: true,
        once: true,
        in_process: true,
        fields,
    }
}


pub open spec fn feishu_kind() -> KindV {
    KindV {
        id: "feishu"@,
        name: "飞书"@,
        blurb: "扫码创应用后进程内连飞书长连接"@,
        mark: "飞"@,
        color: "#3370FF"@,
        qr: true,
        once: true,
        in_process: true,
        fields: seq![
            field_v("app_id"@, "App ID"@, false, ""@),
            field_v("app_secret"@, "App Secret"@, true, ""@),
            field_v("domain"@, "域名"@, false, "feishu 或 lark"@),
        ],
    }
}

fn feishu() -> (r: KindSpec)
    ensures
        r@ == feishu_kind(),
{
    let mut fields: Vec<FieldSpec> = Vec::new();
    fields.push(field("app_id", "App ID", false, ""));
    fields.push(field("app_secret", "App Secret", true, ""));
    fields.push(field("domain", "域名", false, "feishu 或 lark"));
    assert(fields_view(fields@) =~= feishu_kind().fields);
    KindSpec {
        id: "feishu".to_owned(),
        name: "飞书".to_owned(),
        blurb: "扫码创应用后进程内连飞书长连接".to_owned(),
        mark: "飞".to_owned(),
        color: "#3370FF".to_owned(),
        qr: true,
        once: true,
        in_process: true,
        fields,
    }
}


pub open spec fn qq_kind() -> KindV {
    KindV {
        id: "qq"@,
        name: "QQ"@,
        blurb: "扫码绑定后进程内连 QQ 官方网关"@,
        mark: "Q"@,
        color: "#12B7F5"@,
        qr: true,
        once: true,
        in_process: true,
        fields: seq![
            field_v("app_id"@, "App ID"@, false, ""@),
            field_v("client_secret"@, "Client Secret"@, true, ""@),
        ],
    }
}

fn qq() -> (r: KindSpec)
    ensures
        r@ == qq_kind(),
{
    let mut fields: Vec<FieldSpec> = Vec::new();
    fields.push(field("app_id", "App ID", false, ""));
    fields.push(field("client_secret", "Client Secret", true, ""));
    assert(fields_view(fields@) =~= qq_kind().fields);
    KindSpec {
        id: "qq".to_owned(),
        name: "QQ".to_owned(),
        blurb: "扫码绑定后进程内连 QQ 官方网关".to_owned(),
        mark: "Q".to_owned(),
        color: "#12B7F5".to_owned(),
        qr: true,
        once: true,
        in_process: true,
        fields,
    }
}


pub open spec fn wechat_kind() -> KindV {
    KindV {
        id: "wechat"@,
        name: "微信"@,
        blurb: "iLink 扫码后进程内长轮询 getupdates"@,
        mark: "微"@,
        color: "#07C160"@,
        qr: true,
        once: true,
        in_process: true,
        fields: seq![
            field_v("bot_token"@, "Bot token"@, true, "扫码后自动填入"@),
            field_v("base_url"@, "iLink base_url"@, false, "默认 https://ilinkai.weixin.qq.com"@),
        ],
    }
}

fn wechat() -> (r: KindSpec)
    ensures
        r@ == wechat_kind(),
{
    let mut fields: Vec<FieldSpec> = Vec::new();
    fields.push(field("bot_token", "Bot token", true, "扫码后自动填入"));
    fields.push(field("base_url", "iLink base_url", false, "默认 https://ilinkai.weixin.qq.com"));
    assert(fields_view(fields@) =~= wechat_kind().fields);
    KindSpec {
        id: "wechat".to_owned(),
        name: "微信".to_owned(),
        blurb: "iLink 扫码后进程内长轮询 getupdates".to_owned(),
        mark: "微".to_owned(),
        color: "#07C160".to_owned(),
        qr: true,
        once: true,
        in_process: true,
        fields,
    }
}


pub open spec fn wecom_kind() -> KindV {
    KindV {
        id: "wecom"@,
        name: "企业微信"@,
        blurb: "扫码后进程内连企微 AI Bot 长连接"@,
        mark: "企"@,
        color: "#2B7BD6"@,
        qr: true,
        once: true,
        in_process: true,
        fields: seq![
            field_v("bot_id"@, "Bot ID"@, false, ""@),
            field_v("secret"@, "Secret"@, true, ""@),
        ],
    }
}

fn wecom() -> (r: KindSpec)
    ensures
        r@ == wecom_kind(),
{
    let mut fields: Vec<FieldSpec> = Vec::new();
    fields.push(field("bot_id", "Bot ID", false, ""));
    fields.push(field("secret", "Secret", true, ""));
    assert(fields_view(fields@) =~= wecom_kind().fields);
    KindSpec {
        id: "wecom".to_owned(),
        name: "企业微信".to_owned(),
        blurb: "扫码后进程内连企微 AI Bot 长连接".to_owned(),
        mark: "企".to_owned(),
        color: "#2B7BD6".to_owned(),
        qr: true,
        once: true,
        in_process: true,
        fields,
    }
}


pub open spec fn telegram_kind() -> KindV {
    KindV {
        id: "telegram"@,
        name: "Telegram"@,
        blurb: "Bot API 长轮询，控制台进程内接听"@,
        mark: "TG"@,
        color: "#229ED9"@,
        qr: false,
        once: true,
        in_process: true,
        fields: seq![
            field_v("bot_token"@, "Bot token"@, true, "BotFather 发给你的 token"@),
        ],
    }
}

fn telegram() -> (r: KindSpec)
    ensures
        r@ == telegram_kind(),
{
    let mut fields: Vec<FieldSpec> = Vec::new();
    fields.push(field("bot_token", "Bot token", true, "BotFather 发给你的 token"));
    assert(fields_view(fields@) =~= telegram_kind().fields);
    KindSpec {
        id: "telegram".to_owned(),
        name: "Telegram".to_owned(),
        blurb: "Bot API 长轮询，控制台进程内接听".to_owned(),
        mark: "TG".to_owned(),
        color: "#229ED9".to_owned(),
        qr: false,
        once: true,
        in_process: true,
        fields,
    }
}


pub open spec fn discord_kind() -> KindV {
    KindV {
        id: "discord"@,
        name: "Discord"@,
        blurb: "填 Bot token"@,
        mark: "DC"@,
        color: "#5865F2"@,
        qr: false,
        once: true,
        in_process: false,
        fields: seq![
            field_v("bot_token"@, "Bot token"@, true, ""@),
        ],
    }
}

fn discord() -> (r: KindSpec)
    ensures
        r@ == discord_kind(),
{
    let mut fields: Vec<FieldSpec> = Vec::new();
    fields.push(field("bot_token", "Bot token", true, ""));
    assert(fields_view(fields@) =~= discord_kind().fields);
    KindSpec {
        id: "discord".to_owned(),
        name: "Discord".to_owned(),
        blurb: "填 Bot token".to_owned(),
        mark: "DC".to_owned(),
        color: "#5865F2".to_owned(),
        qr: false,
        once: true,
        in_process: false,
        fields,
    }
}


pub open spec fn slack_kind() -> KindV {
    KindV {
        id: "slack"@,
        name: "Slack"@,
        blurb: "填 Bot token"@,
        mark: "S"@,
        color: "#611F69"@,
        qr: false,
        once: true,
        in_process: false,
        fields: seq![
            field_v("bot_token"@, "Bot token"@, true, ""@),
        ],
    }
}

fn slack() -> (r: KindSpec)
    ensures
        r@ == slack_kind(),
{
    let mut fields: Vec<FieldSpec> = Vec::new();
    fields.push(field("bot_token", "Bot token", true, ""));
    assert(fields_view(fields@) =~= slack_kind().fields);
    KindSpec {
        id: "slack".to_owned(),
        name: "Slack".to_owned(),
        blurb: "填 Bot token".to_owned(),
        mark: "S".to_owned(),
        color: "#611F69".to_owned(),
        qr: false,
        once: true,
        in_process: false,
        fields,
    }
}


pub open spec fn webhook_kind() -> KindV {
    KindV {
        id: "webhook"@,
        name: "Webhook"@,
        blurb: "POST /inbound，控制台进程内接听"@,
        mark: "WH"@,
        color: "#615CED"@,
        qr: false,
        once: false,
        in_process: true,
        fields: Seq::empty(),
    }
}

fn webhook() -> (r: KindSpec)
    ensures
        r@ == webhook_kind(),
{
    let mut fields: Vec<FieldSpec> = Vec::new();
    assert(fields_view(fields@) =~= webhook_kind().fields);
    KindSpec {
        id: "webhook".to_owned(),
        name: "Webhook".to_owned(),
        blurb: "POST /inbound，控制台进程内接听".to_owned(),
        mark: "WH".to_owned(),
        color: "#615CED".to_owned(),
        qr: false,
        once: false,
        in_process: true,
        fields,
    }
}


pub open spec fn onebot_kind() -> KindV {
    KindV {
        id: "onebot"@,
        name: "OneBot"@,
        blurb: "OneBot 协议接入"@,
        mark: "OB"@,
        color: "#111827"@,
        qr: false,
        once: true,
        in_process: false,
        fields: seq![
            field_v("ws_url"@, "WebSocket URL"@, false, ""@),
            field_v("access_token"@, "Access token"@, true, ""@),
        ],
    }
}

fn onebot() -> (r: KindSpec)
    ensures
        r@ == onebot_kind(),
{
    let mut fields: Vec<FieldSpec> = Vec::new();
    fields.push(field("ws_url", "WebSocket URL", false, ""));
    fields.push(field("access_token", "Access token", true, ""));
    assert(fields_view(fields@) =~= onebot_kind().fields);
    KindSpec {
        id: "onebot".to_owned(),
        name: "OneBot".to_owned(),
        blurb: "OneBot 协议接入".to_owned(),
        mark: "OB".to_owned(),
        color: "#111827".to_owned(),
        qr: false,
        once: true,
        in_process: false,
        fields,
    }
}


pub open spec fn imessage_kind() -> KindV {
    KindV {
        id: "imessage"@,
        name: "iMessage"@,
        blurb: "本机 iMessage 桥"@,
        mark: "iM"@,
        color: "#34C759"@,
        qr: false,
        once: true,
        in_process: false,
        fields: Seq::empty(),
    }
}

fn imessage() -> (r: KindSpec)
    ensures
        r@ == imessage_kind(),
{
    let mut fields: Vec<FieldSpec> = Vec::new();
    assert(fields_view(fields@) =~= imessage_kind().fields);
    KindSpec {
        id: "imessage".to_owned(),
        name: "iMessage".to_owned(),
        blurb: "本机 iMessage 桥".to_owned(),
        mark: "iM".to_owned(),
        color: "#34C759".to_owned(),
        qr: false,
        once: true,
        in_process: false,
        fields,
    }
}


pub open spec fn matrix_kind() -> KindV {
    KindV {
        id: "matrix"@,
        name: "Matrix"@,
        blurb: "Homeserver + access token"@,
        mark: "MX"@,
        color: "#0DBD8B"@,
        qr: false,
        once: true,
        in_process: false,
        fields: seq![
            field_v("homeserver"@, "Homeserver"@, false, ""@),
            field_v("access_token"@, "Access token"@, true, ""@),
        ],
    }
}

fn matrix() -> (r: KindSpec)
    ensures
        r@ == matrix_kind(),
{
    let mut fields: Vec<FieldSpec> = Vec::new();
    fields.push(field("homeserver", "Homeserver", false, ""));
    fields.push(field("access_token", "Access token", true, ""));
    assert(fields_view(fields@) =~= matrix_kind().fields);
    KindSpec {
        id: "matrix".to_owned(),
        name: "Matrix".to_owned(),
        blurb: "Homeserver + access token".to_owned(),
        mark: "MX".to_owned(),
        color: "#0DBD8B".to_owned(),
        qr: false,
        once: true,
        in_process: false,
        fields,
    }
}


pub open spec fn mattermost_kind() -> KindV {
    KindV {
        id: "mattermost"@,
        name: "Mattermost"@,
        blurb: "Bot token + 站点 URL"@,
        mark: "MM"@,
        color: "#0058CC"@,
        qr: false,
        once: true,
        in_process: false,
        fields: seq![
            field_v("url"@, "站点 URL"@, false, ""@),
            field_v("bot_token"@, "Bot token"@, true, ""@),
        ],
    }
}

fn mattermost() -> (r: KindSpec)
    ensures
        r@ == mattermost_kind(),
{
    let mut fields: Vec<FieldSpec> = Vec::new();
    fields.push(field("url", "站点 URL", false, ""));
    fields.push(field("bot_token", "Bot token", true, ""));
    assert(fields_view(fields@) =~= mattermost_kind().fields);
    KindSpec {
        id: "mattermost".to_owned(),
        name: "Mattermost".to_owned(),
        blurb: "Bot token + 站点 URL".to_owned(),
        mark: "MM".to_owned(),
        color: "#0058CC".to_owned(),
        qr: false,
        once: true,
        in_process: false,
        fields,
    }
}


pub open spec fn mqtt_kind() -> KindV {
    KindV {
        id: "mqtt"@,
        name: "MQTT"@,
        blurb: "Broker 主题订阅"@,
        mark: "MQ"@,
        color: "#660066"@,
        qr: false,
        once: true,
        in_process: false,
        fields: seq![
            field_v("broker"@, "Broker"@, false, ""@),
            field_v("username"@, "用户名"@, false, ""@),
            field_v("password"@, "密码"@, true, ""@),
        ],
    }
}

fn mqtt() -> (r: KindSpec)
    ensures
        r@ == mqtt_kind(),
{
    let mut fields: Vec<FieldSpec> = Vec::new();
    fields.push(field("broker", "Broker", false, ""));
    fields.push(field("username", "用户名", false, ""));
    fields.push(field("password", "密码", true, ""));
    assert(fields_view(fields@) =~= mqtt_kind().fields);
    KindSpec {
        id: "mqtt".to_owned(),
        name: "MQTT".to_owned(),
        blurb: "Broker 主题订阅".to_owned(),
        mark: "MQ".to_owned(),
        color: "#660066".to_owned(),
        qr: false,
        once: true,
        in_process: false,
        fields,
    }
}


pub open spec fn voice_kind() -> KindV {
    KindV {
        id: "voice"@,
        name: "Voice"@,
        blurb: "语音通道"@,
        mark: "V"@,
        color: "#F59E0B"@,
        qr: false,
        once: true,
        in_process: false,
        fields: Seq::empty(),
    }
}

fn voice() -> (r: KindSpec)
    ensures
        r@ == voice_kind(),
{
    let mut fields: Vec<FieldSpec> = Vec::new();
    assert(fields_view(fields@) =~= voice_kind().fields);
    KindSpec {
        id: "voice".to_owned(),
        name: "Voice".to_owned(),
        blurb: "语音通道".to_owned(),
        mark: "V".to_owned(),
        color: "#F59E0B".to_owned(),
        qr: false,
        once: true,
        in_process: false,
        fields,
    }
}


pub open spec fn sip_kind() -> KindV {
    KindV {
        id: "sip"@,
        name: "SIP"@,
        blurb: "SIP 语音"@,
        mark: "SIP"@,
        color: "#64748B"@,
        qr: false,
        once: true,
        in_process: false,
        fields: Seq::empty(),
    }
}

fn sip() -> (r: KindSpec)
    ensures
        r@ == sip_kind(),
{
    let mut fields: Vec<FieldSpec> = Vec::new();
    assert(fields_view(fields@) =~= sip_kind().fields);
    KindSpec {
        id: "sip".to_owned(),
        name: "SIP".to_owned(),
        blurb: "SIP 语音".to_owned(),
        mark: "SIP".to_owned(),
        color: "#64748B".to_owned(),
        qr: false,
        once: true,
        in_process: false,
        fields,
    }
}


pub open spec fn xiaoyi_kind() -> KindV {
    KindV {
        id: "xiaoyi"@,
        name: "小艺"@,
        blurb: "华为小艺"@,
        mark: "艺"@,
        color: "#CF0A2C"@,
        qr: false,
        once: true,
        in_process: false,
        fields: Seq::empty(),
    }
}

fn xiaoyi() -> (r: KindSpec)
    ensures
        r@ == xiaoyi_kind(),
{
    let mut fields: Vec<FieldSpec> = Vec::new();
    assert(fields_view(fields@) =~= xiaoyi_kind().fields);
    KindSpec {
        id: "xiaoyi".to_owned(),
        name: "小艺".to_owned(),
        blurb: "华为小艺".to_owned(),
        mark: "艺".to_owned(),
        color: "#CF0A2C".to_owned(),
        qr: false,
        once: true,
        in_process: false,
        fields,
    }
}


pub open spec fn yuanbao_kind() -> KindV {
    KindV {
        id: "yuanbao"@,
        name: "元宝"@,
        blurb: "腾讯元宝"@,
        mark: "宝"@,
        color: "#0052D9"@,
        qr: false,
        once: true,
        in_process: false,
        fields: Seq::empty(),
    }
}

fn yuanbao() -> (r: KindSpec)
    ensures
        r@ == yuanbao_kind(),
{
    let mut fields: Vec<FieldSpec> = Vec::new();
    assert(fields_view(fields@) =~= yuanbao_kind().fields);
    KindSpec {
        id: "yuanbao".to_owned(),
        name: "元宝".to_owned(),
        blurb: "腾讯元宝".to_owned(),
        mark: "宝".to_owned(),
        color: "#0052D9".to_owned(),
        qr: false,
        once: true,
        in_process: false,
        fields,
    }
}


/// All kinds that can be configured, in the order in which they are shown.
pub open spec fn catalog_of() -> Seq<KindV> {
    seq![
        dingtalk_kind(),
        feishu_kind(),
        qq_kind(),
        wechat_kind(),
        wecom_kind(),
        telegram_kind(),
        discord_kind(),
        slack_kind(),
        webhook_kind(),
        onebot_kind(),
        imessage_kind(),
        matrix_kind(),
        mattermost_kind(),
        mqtt_kind(),
        voice_kind(),
        sip_kind(),
        xiaoyi_kind(),
        yuanbao_kind(),
    ]
}

/// All kinds that can be configured, in the order in which they are shown.
pub fn catalog() -> (r: Vec<KindSpec>)
    ensures
        kinds_view(r@) == catalog_of(),
{
    let mut out: Vec<KindSpec> = Vec::new();
    out.push(dingtalk());
    out.push(feishu());
    out.push(qq());
    out.push(wechat());
    out.push(wecom());
    out.push(telegram());
    out.push(discord());
    out.push(slack());
    out.push(webhook());
    out.push(onebot());
    out.push(imessage());
    out.push(matrix());
    out.push(mattermost());
    out.push(mqtt());
    out.push(voice());
    out.push(sip());
    out.push(xiaoyi());
    out.push(yuanbao());
    assert(kinds_view(out@) =~= catalog_of());
    out
}

/// The first kind, from `i` on, with an identifier.
pub open spec fn kind_index(list: Seq<KindV>, id: Seq<char>, i: int) -> Option<int>
    decreases list.len() - i,
{
    if i < 0 || i >= list.len() {
        None
    } else if list[i].id == id {
        Some(i)
    } else {
        kind_index(list, id, i + 1)
    }
}

/// The kind of a name, whatever its capitals.
pub open spec fn kind_of(kind: Seq<char>) -> Option<KindV> {
    match kind_index(catalog_of(), lower(kind), 0) {
        Some(i) => Some(catalog_of()[i]),
        None => None,
    }
}

/// The kind of a name, whatever its capitals.
pub fn kind_spec(kind: &str) -> (r: Option<KindSpec>)
    ensures
        r is Some <==> kind_of(kind@) is Some,
        r matches Some(k) ==> kind_of(kind@) == Some(k@),
{
    let k = to_lower(kind);
    let mut rest = catalog();
    let ghost all = rest@;
    let ghost cs = catalog_of();
    let n: usize = rest.len();
    let mut i: usize = 0;
    assert(kinds_view(all).len() == all.len());
    while i < n
        invariant
            i <= n == all.len(),
            kinds_view(all) == cs,
            cs == catalog_of(),
            k@ == lower(kind@),
            rest@ == all.skip(i as int),
            kind_index(cs, k@, 0) == kind_index(cs, k@, i as int),
        decreases n - i,
    {
        let s = rest.remove(0);
        assert(s == all[i as int]);
        assert(cs[i as int] == s@);
        assert(rest@ =~= all.skip(i + 1));
        if same(s.id.as_str(), k.as_str()) {
            return Some(s);
        }
        i = i + 1;
    }
    None
}

/// A kind that is bound by scanning a code.
pub open spec fn scans(kind: Seq<char>) -> bool {
    match kind_of(kind) {
        Some(k) => k.qr,
        None => false,
    }
}

/// Whether a kind is bound by scanning a code.
pub fn supports_qr(kind: &str) -> (r: bool)
    ensures
        r == scans(kind@),
{
    match kind_spec(kind) {
        Some(k) => k.qr,
        None => false,
    }
}

/// A kind that can be configured as an endpoint.
pub open spec fn endpoint_name(kind: Seq<char>) -> bool {
    let k = lower(kind);
    k != "cli"@ && k != "sidecar"@ && k != "console"@ && k != ""@ && kind_name(lower(k))
}

/// Whether a kind can be configured as an endpoint.
pub fn endpoint_kind(kind: &str) -> (r: bool)
    ensures
        r == endpoint_name(kind@),
{
    let lo = to_lower(kind);
    let k = lo.as_str();
    if same(k, "cli") || same(k, "sidecar") || same(k, "console") || same(k, "") {
        return false;
    }
    known_kind(k)
}

/// A setting as it is shown; one without a hint shows none.
pub open spec fn field_json(f: FieldV) -> JsonV {
    let shown = put(
        put(
            put(JsonV::Object(Map::empty()), "key"@, JsonV::Str(f.key)),
            "label"@,
            JsonV::Str(f.label),
        ),
        "secret"@,
        JsonV::Bool(f.secret),
    );
    if f.hint.len() == 0 {
        shown
    } else {
        put(shown, "hint"@, JsonV::Str(f.hint))
    }
}

/// A kind as it is shown.
pub open spec fn kind_json(k: KindV) -> JsonV {
    put(
        put(
            put(
                put(
                    put(
                        put(
                            put(
                                put(
                                    put(
                                        JsonV::Object(Map::empty()),
                                        "id"@,
                                        JsonV::Str(k.id),
                                    ),
                                    "name"@,
                                    JsonV::Str(k.name),
                                ),
                                "blurb"@,
                                JsonV::Str(k.blurb),
                            ),
                            "mark"@,
                            JsonV::Str(k.mark),
                        ),
                        "color"@,
                        JsonV::Str(k.color),
                    ),
                    "qr"@,
                    JsonV::Bool(k.qr),
                ),
                "once"@,
                JsonV::Bool(k.once),
            ),
            "in_process"@,
            JsonV::Bool(k.in_process),
        ),
        "fields"@,
        JsonV::Array(k.fields.map_values(|f: FieldV| field_json(f))),
    )
}

fn json_of_field(f: &FieldSpec) -> (r: Json)
    ensures
        r@ == field_json(f@),
{
    let shown = Json::object().with("key", Json::string(f.key.as_str())).with(
        "label",
        Json::string(f.label.as_str()),
    ).with("secret", Json::Bool(f.secret));
    if f.hint.as_str().is_empty() {
        shown
    } else {
        shown.with("hint", Json::string(f.hint.as_str()))
    }
}

fn json_of_kind(k: &KindSpec) -> (r: Json)
    ensures
        r@ == kind_json(k@),
{
    let ghost fs = fields_view(k.fields@).map_values(|f: FieldV| field_json(f));
    let mut fields: Vec<Json> = Vec::new();
    let mut i: usize = 0;
    assert(items_view(fields@) =~= Seq::empty());
    while i < k.fields.len()
        invariant
            i <= k.fields@.len(),
            fs == fields_view(k.fields@).map_values(|f: FieldV| field_json(f)),
            items_view(fields@) =~= fs.take(i as int),
        decreases k.fields.len() - i,
    {
        let j = json_of_field(&k.fields[i]);
        proof {
            lemma_items_push(fields@, j);
            assert(fs[i as int] == j@);
            assert(fs.take(i + 1) =~= fs.take(i as int).push(j@));
        }
        fields.push(j);
        i = i + 1;
    }
    assert(fs.take(i as int) =~= fs);
    Json::object().with("id", Json::string(k.id.as_str())).with(
        "name",
        Json::string(k.name.as_str()),
    ).with("blurb", Json::string(k.blurb.as_str())).with(
        "mark",
        Json::string(k.mark.as_str()),
    ).with("color", Json::string(k.color.as_str())).with("qr", Json::Bool(k.qr)).with(
        "once",
        Json::Bool(k.once),
    ).with("in_process", Json::Bool(k.in_process)).with("fields", Json::Array(fields))
}

/// All kinds as they are shown.
pub fn catalog_json() -> (r: Json)
    ensures
        r@ == JsonV::Array(catalog_of().map_values(|k: KindV| kind_json(k))),
{
    let all = catalog();
    let ghost ks = kinds_view(all@).map_values(|k: KindV| kind_json(k));
    let mut out: Vec<Json> = Vec::new();
    let mut i: usize = 0;
    assert(items_view(out@) =~= Seq::empty());
    while i < all.len()
        invariant
            i <= all@.len(),
            ks == kinds_view(all@).map_values(|k: KindV| kind_json(k)),
            items_view(out@) =~= ks.take(i as int),
        decreases all.len() - i,
    {
        let j = json_of_kind(&all[i]);
        proof {
            lemma_items_push(out@, j);
            assert(ks[i as int] == j@);
            assert(ks.take(i + 1) =~= ks.take(i as int).push(j@));
        }
        out.push(j);
        i = i + 1;
    }
    assert(ks.take(i as int) =~= ks);
    Json::Array(out)
}

proof fn lemma_ids_differ()
    ensures
        "dingtalk"@ != "feishu"@,
        "dingtalk"@ != "qq"@,
        "dingtalk"@ != "wechat"@,
        "dingtalk"@ != "wecom"@,
        "dingtalk"@ != "telegram"@,
        "dingtalk"@ != "discord"@,
        "dingtalk"@ != "slack"@,
        "dingtalk"@ != "webhook"@,
        "dingtalk"@ != "onebot"@,
        "dingtalk"@ != "imessage"@,
        "dingtalk"@ != "matrix"@,
        "dingtalk"@ != "mattermost"@,
        "dingtalk"@ != "mqtt"@,
        "dingtalk"@ != "voice"@,
        "dingtalk"@ != "sip"@,
        "dingtalk"@ != "xiaoyi"@,
        "dingtalk"@ != "yuanbao"@,
        "feishu"@ != "qq"@,
        "feishu"@ != "wechat"@,
        "feishu"@ != "wecom"@,
        "feishu"@ != "telegram"@,
        "feishu"@ != "discord"@,
        "feishu"@ != "slack"@,
        "feishu"@ != "webhook"@,
        "feishu"@ != "onebot"@,
        "feishu"@ != "imessage"@,
        "feishu"@ != "matrix"@,
        "feishu"@ != "mattermost"@,
        "feishu"@ != "mqtt"@,
        "feishu"@ != "voice"@,
        "feishu"@ != "sip"@,
        "feishu"@ != "xiaoyi"@,
        "feishu"@ != "yuanbao"@,
        "qq"@ != "wechat"@,
        "qq"@ != "wecom"@,
        "qq"@ != "telegram"@,
        "qq"@ != "discord"@,
        "qq"@ != "slack"@,
        "qq"@ != "webhook"@,
        "qq"@ != "onebot"@,
        "qq"@ != "imessage"@,
        "qq"@ != "matrix"@,
        "qq"@ != "mattermost"@,
        "qq"@ != "mqtt"@,
        "qq"@ != "voice"@,
        "qq"@ != "sip"@,
        "qq"@ != "xiaoyi"@,
        "qq"@ != "yuanbao"@,
        "wechat"@ != "wecom"@,
        "wechat"@ != "telegram"@,
        "wechat"@ != "discord"@,
        "wechat"@ != "slack"@,
        "wechat"@ != "webhook"@,
        "wechat"@ != "onebot"@,
        "wechat"@ != "imessage"@,
        "wechat"@ != "matrix"@,
        "wechat"@ != "mattermost"@,
        "wechat"@ != "mqtt"@,
        "wechat"@ != "voice"@,
        "wechat"@ != "sip"@,
        "wechat"@ != "xiaoyi"@,
        "wechat"@ != "yuanbao"@,
        "wecom"@ != "telegram"@,
        "wecom"@ != "discord"@,
        "wecom"@ != "slack"@,
        "wecom"@ != "webhook"@,
        "wecom"@ != "onebot"@,
        "wecom"@ != "imessage"@,
        "wecom"@ != "matrix"@,
        "wecom"@ != "mattermost"@,
        "wecom"@ != "mqtt"@,
        "wecom"@ != "voice"@,
        "wecom"@ != "sip"@,
        "wecom"@ != "xiaoyi"@,
        "wecom"@ != "yuanbao"@,
        "telegram"@ != "discord"@,
        "telegram"@ != "slack"@,
        "telegram"@ != "webhook"@,
        "telegram"@ != "onebot"@,
        "telegram"@ != "imessage"@,
        "telegram"@ != "matrix"@,
        "telegram"@ != "mattermost"@,
        "telegram"@ != "mqtt"@,
        "telegram"@ != "voice"@,
        "telegram"@ != "sip"@,
        "telegram"@ != "xiaoyi"@,
        "telegram"@ != "yuanbao"@,
        "discord"@ != "slack"@,
        "discord"@ != "webhook"@,
        "discord"@ != "onebot"@,
        "discord"@ != "imessage"@,
        "discord"@ != "matrix"@,
        "discord"@ != "mattermost"@,
        "discord"@ != "mqtt"@,
        "discord"@ != "voice"@,
        "discord"@ != "sip"@,
        "discord"@ != "xiaoyi"@,
        "discord"@ != "yuanbao"@,
        "slack"@ != "webhook"@,
        "slack"@ != "onebot"@,
        "slack"@ != "imessage"@,
        "slack"@ != "matrix"@,
        "slack"@ != "mattermost"@,
        "slack"@ != "mqtt"@,
        "slack"@ != "voice"@,
        "slack"@ != "sip"@,
        "slack"@ != "xiaoyi"@,
        "slack"@ != "yuanbao"@,
        "webhook"@ != "onebot"@,
        "webhook"@ != "imessage"@,
        "webhook"@ != "matrix"@,
        "webhook"@ != "mattermost"@,
        "webhook"@ != "mqtt"@,
        "webhook"@ != "voice"@,
        "webhook"@ != "sip"@,
        "webhook"@ != "xiaoyi"@,
        "webhook"@ != "yuanbao"@,
        "onebot"@ != "imessage"@,
        "onebot"@ != "matrix"@,
        "onebot"@ != "mattermost"@,
        "onebot"@ != "mqtt"@,
        "onebot"@ != "voice"@,
        "onebot"@ != "sip"@,
        "onebot"@ != "xiaoyi"@,
        "onebot"@ != "yuanbao"@,
        "imessage"@ != "matrix"@,
        "imessage"@ != "mattermost"@,
        "imessage"@ != "mqtt"@,
        "imessage"@ != "voice"@,
        "imessage"@ != "sip"@,
        "imessage"@ != "xiaoyi"@,
        "imessage"@ != "yuanbao"@,
        "matrix"@ != "mattermost"@,
        "matrix"@ != "mqtt"@,
        "matrix"@ != "voice"@,
        "matrix"@ != "sip"@,
        "matrix"@ != "xiaoyi"@,
        "matrix"@ != "yuanbao"@,
        "mattermost"@ != "mqtt"@,
        "mattermost"@ != "voice"@,
        "mattermost"@ != "sip"@,
        "mattermost"@ != "xiaoyi"@,
        "mattermost"@ != "yuanbao"@,
        "mqtt"@ != "voice"@,
        "mqtt"@ != "sip"@,
        "mqtt"@ != "xiaoyi"@,
        "mqtt"@ != "yuanbao"@,
        "voice"@ != "sip"@,
        "voice"@ != "xiaoyi"@,
        "voice"@ != "yuanbao"@,
        "sip"@ != "xiaoyi"@,
        "sip"@ != "yuanbao"@,
        "xiaoyi"@ != "yuanbao"@,
{
    reveal_strlit("dingtalk");
    reveal_strlit("feishu");
    reveal_strlit("qq");
    reveal_strlit("wechat");
    reveal_strlit("wecom");
    reveal_strlit("telegram");
    reveal_strlit("discord");
    reveal_strlit("slack");
    reveal_strlit("webhook");
    reveal_strlit("onebot");
    reveal_strlit("imessage");
    reveal_strlit("matrix");
    reveal_strlit("mattermost");
    reveal_strlit("mqtt");
    reveal_strlit("voice");
    reveal_strlit("sip");
    reveal_strlit("xiaoyi");
    reveal_strlit("yuanbao");
    assert("dingtalk"@.len() == 8 && "feishu"@.len() == 6 && "qq"@.len() == 2 && "wechat"@.len() == 6 && "wecom"@.len() == 5 && "telegram"@.len() == 8 && "discord"@.len() == 7 && "slack"@.len() == 5 && "webhook"@.len() == 7 && "onebot"@.len() == 6 && "imessage"@.len() == 8 && "matrix"@.len() == 6 && "mattermost"@.len() == 10 && "mqtt"@.len() == 4 && "voice"@.len() == 5 && "sip"@.len() == 3 && "xiaoyi"@.len() == 6 && "yuanbao"@.len() == 7);
    assert("dingtalk"@[0] == 'd' && "telegram"@[0] == 't');
    assert("dingtalk"@[0] == 'd' && "imessage"@[0] == 'i');
    assert("feishu"@[0] == 'f' && "wechat"@[0] == 'w');
    assert("feishu"@[0] == 'f' && "onebot"@[0] == 'o');
    assert("feishu"@[0] == 'f' && "matrix"@[0] == 'm');
    assert("feishu"@[0] == 'f' && "xiaoyi"@[0] == 'x');
    assert("wechat"@[0] == 'w' && "onebot"@[0] == 'o');
    assert("wechat"@[0] == 'w' && "matrix"@[0] == 'm');
    assert("wechat"@[0] == 'w' && "xiaoyi"@[0] == 'x');
    assert("wecom"@[0] == 'w' && "slack"@[0] == 's');
    assert("wecom"@[0] == 'w' && "voice"@[0] == 'v');
    assert("telegram"@[0] == 't' && "imessage"@[0] == 'i');
    assert("discord"@[0] == 'd' && "webhook"@[0] == 'w');
    assert("discord"@[0] == 'd' && "yuanbao"@[0] == 'y');
    assert("slack"@[0] == 's' && "voice"@[0] == 'v');
    assert("webhook"@[0] == 'w' && "yuanbao"@[0] == 'y');
    assert("onebot"@[0] == 'o' && "matrix"@[0] == 'm');
    assert("onebot"@[0] == 'o' && "xiaoyi"@[0] == 'x');
    assert("matrix"@[0] == 'm' && "xiaoyi"@[0] == 'x');
}

/// The kinds that can be configured, in the order in which they are shown; and those that are
/// bound by scanning a code are the first five of them.
pub proof fn law_which_kinds_there_are(i: int)
    requires
        0 <= i < 18,
    ensures
        catalog_of().len() == 18,
        catalog_of()[i].id == seq![
            "dingtalk"@,
            "feishu"@,
            "qq"@,
            "wechat"@,
            "wecom"@,
            "telegram"@,
            "discord"@,
            "slack"@,
            "webhook"@,
            "onebot"@,
            "imessage"@,
            "matrix"@,
            "mattermost"@,
            "mqtt"@,
            "voice"@,
            "sip"@,
            "xiaoyi"@,
            "yuanbao"@,
        ][i],
        catalog_of()[i].qr <==> i < 5,
        catalog_of()[i].once <==> i != 8,
        catalog_of()[i].in_process <==> i < 6 || i == 8,
{
}

/// A kind is found by its name in letters of any case.
pub proof fn law_a_kind_is_found_by_its_name(i: int, name: Seq<char>)
    requires
        0 <= i < 18,
        lower(name) == catalog_of()[i].id,
    ensures
        kind_of(name) == Some(catalog_of()[i]),
        scans(name) <==> i < 5,
{
    lemma_ids_differ();
    lemma_kind_found(lower(name), i, 0);
}

proof fn lemma_kind_found(id: Seq<char>, i: int, k: int)
    requires
        0 <= k <= i < 18,
        id == catalog_of()[i].id,
        forall|a: int, b: int|
            0 <= a < b < 18 ==> (#[trigger] catalog_of()[a]).id != (#[trigger] catalog_of()[b]).id,
    ensures
        kind_index(catalog_of(), id, k) == Some(i),
    decreases i - k,
{
    if k < i {
        assert(catalog_of()[k].id != catalog_of()[i].id);
        lemma_kind_found(id, i, k + 1);
    }
}

/// A kind can be configured where there is one of that name, but for those that every
/// installation has.
pub proof fn law_which_kinds_can_be_configured(kind: Seq<char>)
    ensures
        ({
            let k = lower(kind);
            &&& k == "cli"@ || k == "sidecar"@ || k == "console"@ || k.len() == 0
                ==> !endpoint_name(kind)
            &&& !kind_name(lower(k)) ==> !endpoint_name(kind)
            &&& kind_name(lower(k)) && k != "cli"@ && k != "sidecar"@ && k != "console"@ && k.len()
                > 0 ==> endpoint_name(kind)
        }),
{
    reveal_strlit("");
    let k = lower(kind);
    if k.len() == 0 {
        assert(k =~= ""@);
    }
}

/// A setting is shown with what it is called and whether it is secret, and its hint where it
/// has one.
pub proof fn law_how_a_setting_is_shown(f: FieldV)
    ensures
        field_json(f).text_at("key"@) == Some(f.key),
        field_json(f).text_at("label"@) == Some(f.label),
        field_json(f).at("secret"@) == JsonV::Bool(f.secret),
        f.hint.len() > 0 ==> field_json(f).text_at("hint"@) == Some(f.hint),
        f.hint.len() == 0 ==> field_json(f).field("hint"@) is None,
{
    reveal_strlit("key");
    reveal_strlit("label");
    reveal_strlit("secret");
    reveal_strlit("hint");
    assert("key"@.len() == 3 && "label"@.len() == 5 && "secret"@.len() == 6 && "hint"@.len() == 4);
}

/// A kind is shown with all that is known of it, and its settings in order.
pub proof fn law_how_a_kind_is_shown(k: KindV)
    ensures
        ({
            let j = kind_json(k);
            &&& j.text_at("id"@) == Some(k.id)
            &&& j.text_at("name"@) == Some(k.name)
            &&& j.text_at("blurb"@) == Some(k.blurb)
            &&& j.text_at("mark"@) == Some(k.mark)
            &&& j.text_at("color"@) == Some(k.color)
            &&& j.at("qr"@) == JsonV::Bool(k.qr)
            &&& j.at("once"@) == JsonV::Bool(k.once)
            &&& j.at("in_process"@) == JsonV::Bool(k.in_process)
            &&& j.at("fields"@) is Array && j.at("fields"@)->Array_0.len() == k.fields.len()
            &&& forall|i: int|
                0 <= i < k.fields.len() ==> #[trigger] j.at("fields"@)->Array_0[i] == field_json(
                    k.fields[i],
                )
        }),
{
    reveal_strlit("id");
    reveal_strlit("name");
    reveal_strlit("blurb");
    reveal_strlit("mark");
    reveal_strlit("color");
    reveal_strlit("qr");
    reveal_strlit("once");
    reveal_strlit("in_process");
    reveal_strlit("fields");
    assert("id"@.len() == 2 && "name"@.len() == 4 && "blurb"@.len() == 5 && "mark"@.len() == 4 && "color"@.len() == 5 && "qr"@.len() == 2 && "once"@.len() == 4 && "in_process"@.len() == 10 && "fields"@.len() == 6);
    assert("id"@[0] == 'i' && "qr"@[0] == 'q');
    assert("name"@[0] == 'n' && "mark"@[0] == 'm');
    assert("name"@[0] == 'n' && "once"@[0] == 'o');
    assert("blurb"@[0] == 'b' && "color"@[0] == 'c');
    assert("mark"@[0] == 'm' && "once"@[0] == 'o');
}

} // verus!
