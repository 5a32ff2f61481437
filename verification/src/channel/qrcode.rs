//! Binding a channel by scanning a code: what each platform's answers mean, the
//! token that a poll carries, and the secret that comes sealed.

use vstd::prelude::*;
use vstd::utf8::{decode_utf8, encode_utf8, valid_utf8};
use crate::channel::catalog::{
    catalog_of, law_a_kind_is_found_by_its_name, law_which_kinds_there_are, scans, supports_qr,
};
use crate::json::{items_view, lemma_items_view, put, Json, JsonV};
use crate::outside::{
    base64_bytes, base64_decode, base64_encode, base64_text, base64url_bare_bytes,
    base64url_bare_decode, base64url_bytes, base64url_decode, base64url_encode, base64url_text,
    drawn, flat, gcm_open, gcm_opened, json_complaint, json_text, parse_json, parse_json_or,
    parsed_json, print_json, qr_picture, qr_svg, random_bytes, read_utf8, settled_json,
};
use crate::table::Table;
use crate::text::{
    chars_of, clip_bytes, clipped_bytes, contains, decimal, find, has_prefix, holds, index_of, lower,
    same, same_ignoring_case, show_u64, starts_with, string_of, strip_trailing, text2, text3, text4,
    to_lower, trim, trimmed, without_trailing,
};

verus! {

// ---------------------------------------------------------------------------
// Results
// ---------------------------------------------------------------------------

/// Why a code could not be had or polled.
#[derive(Debug, PartialEq, Eq)]
pub enum QrError {
    UnknownKind(String),
    BadToken(String),
    Upstream(String),
    Internal(String),
}

pub ghost enum QrErrorV {
    UnknownKind(Seq<char>),
    BadToken(Seq<char>),
    Upstream(Seq<char>),
    Internal(Seq<char>),
}

impl View for QrError {
    type V = QrErrorV;

    open spec fn view(&self) -> QrErrorV {
        match self {
            QrError::UnknownKind(s) => QrErrorV::UnknownKind(s@),
            QrError::BadToken(s) => QrErrorV::BadToken(s@),
            QrError::Upstream(s) => QrErrorV::Upstream(s@),
            QrError::Internal(s) => QrErrorV::Internal(s@),
        }
    }
}

impl QrError {
    /// What is said of the error.
    pub fn message(&self) -> (r: String)
        ensures
            r@ == (match self@ {
                QrErrorV::UnknownKind(k) => k + " 不支持扫码绑定"@,
                QrErrorV::BadToken(m) => m,
                QrErrorV::Upstream(m) => m,
                QrErrorV::Internal(m) => m,
            }),
    {
        match self {
            QrError::UnknownKind(k) => text2(k.as_str(), " 不支持扫码绑定"),
            QrError::BadToken(m) => m.clone(),
            QrError::Upstream(m) => m.clone(),
            QrError::Internal(m) => m.clone(),
        }
    }
}

/// A code to scan.
#[derive(Debug, PartialEq, Eq)]
pub struct QrFetch {
    pub image: String,
    pub poll_token: String,
    pub scan_url: String,
}

pub ghost struct FetchV {
    pub image: Seq<char>,
    pub poll_token: Seq<char>,
    pub scan_url: Seq<char>,
}

impl View for QrFetch {
    type V = FetchV;

    open spec fn view(&self) -> FetchV {
        FetchV { image: self.image@, poll_token: self.poll_token@, scan_url: self.scan_url@ }
    }
}

pub open spec fn fetch_result(r: Result<QrFetch, QrError>) -> Result<FetchV, QrErrorV> {
    match r {
        Ok(f) => Ok(f@),
        Err(e) => Err(e@),
    }
}

pub open spec fn text_result(r: Result<String, QrError>) -> Result<Seq<char>, QrErrorV> {
    match r {
        Ok(s) => Ok(s@),
        Err(e) => Err(e@),
    }
}

/// How far a scan is.
#[derive(Debug, PartialEq, Eq)]
pub struct QrPoll {
    pub status: String,
    pub credentials: Table,
}

pub ghost struct PollV {
    pub status: Seq<char>,
    pub credentials: Map<Seq<char>, Seq<char>>,
}

impl View for QrPoll {
    type V = PollV;

    open spec fn view(&self) -> PollV {
        PollV { status: self.status@, credentials: self.credentials@ }
    }
}

pub open spec fn bare(status: Seq<char>) -> PollV {
    PollV { status, credentials: Map::empty() }
}

pub open spec fn failed(reason: Seq<char>) -> PollV {
    PollV { status: "fail"@, credentials: Map::empty().insert("fail_reason"@, reason) }
}

impl QrPoll {
    fn plain(status: &str) -> (r: QrPoll)
        ensures
            r@ == bare(status@),
    {
        QrPoll { status: status.to_owned(), credentials: Table::new() }
    }

    fn waiting() -> (r: QrPoll)
        ensures
            r@ == bare("waiting"@),
    {
        QrPoll::plain("waiting")
    }

    fn fail(reason: &str) -> (r: QrPoll)
        ensures
            r@ == failed(reason@),
    {
        let mut credentials = Table::new();
        credentials.insert("fail_reason", reason);
        QrPoll { status: "fail".to_owned(), credentials }
    }
}

// ---------------------------------------------------------------------------
// Which platform
// ---------------------------------------------------------------------------

#[derive(Debug, Clone, Copy, PartialEq, Eq, Structural)]
pub enum QrKind {
    Wechat,
    Wecom,
    Dingtalk,
    Feishu,
    Qq,
}

pub open spec fn qr_kind_of(k: Seq<char>) -> Option<QrKind> {
    if k == "wechat"@ {
        Some(QrKind::Wechat)
    } else if k == "wecom"@ {
        Some(QrKind::Wecom)
    } else if k == "dingtalk"@ {
        Some(QrKind::Dingtalk)
    } else if k == "feishu"@ {
        Some(QrKind::Feishu)
    } else if k == "qq"@ {
        Some(QrKind::Qq)
    } else {
        None
    }
}

/// The platform of a kind that is bound by scanning.
pub open spec fn platform_of(kind: Seq<char>) -> Result<QrKind, QrErrorV> {
    let k = lower(kind);
    if !scans(k) {
        Err(QrErrorV::UnknownKind(k))
    } else {
        match qr_kind_of(k) {
            Some(p) => Ok(p),
            None => Err(QrErrorV::UnknownKind(k)),
        }
    }
}

pub open spec fn kind_result(r: Result<QrKind, QrError>) -> Result<QrKind, QrErrorV> {
    match r {
        Ok(k) => Ok(k),
        Err(e) => Err(e@),
    }
}

/// The platform that a code is fetched from.
pub fn fetch_qrcode(kind: &str) -> (r: Result<QrKind, QrError>)
    ensures
        kind_result(r) == platform_of(kind@),
{
    let lo = to_lower(kind);
    let k = lo.as_str();
    if supports_qr(k) {
        if same(k, "wechat") {
            return Ok(QrKind::Wechat);
        }
        if same(k, "wecom") {
            return Ok(QrKind::Wecom);
        }
        if same(k, "dingtalk") {
            return Ok(QrKind::Dingtalk);
        }
        if same(k, "feishu") {
            return Ok(QrKind::Feishu);
        }
        if same(k, "qq") {
            return Ok(QrKind::Qq);
        }
    }
    Err(QrError::UnknownKind(lo))
}

/// The platform that a scan is polled at, and the token to poll with.
pub fn poll_qrcode(kind: &str, token: &str) -> (r: Result<(QrKind, String), QrError>)
    ensures
        r is Ok <==> platform_of(kind@) is Ok && trimmed(token@).len() > 0,
        r matches Ok(x) ==> platform_of(kind@) == Ok::<QrKind, QrErrorV>(x.0) && x.1@ == trimmed(
            token@,
        ),
        r matches Err(e) ==> e@ == (match platform_of(kind@) {
            Ok(_) => QrErrorV::BadToken("缺少 poll token"@),
            Err(f) => if scans(lower(kind@)) && trimmed(token@).len() == 0 {
                QrErrorV::BadToken("缺少 poll token"@)
            } else {
                f
            },
        }),
{
    let lo = to_lower(kind);
    if !supports_qr(lo.as_str()) {
        return Err(QrError::UnknownKind(lo));
    }
    let t = trim(token);
    if t.as_str().is_empty() {
        return Err(QrError::BadToken("缺少 poll token".to_owned()));
    }
    match fetch_qrcode(kind) {
        Ok(p) => Ok((p, t)),
        Err(e) => Err(e),
    }
}

// ---------------------------------------------------------------------------
// Reading answers
// ---------------------------------------------------------------------------

/// A text without the space around it, nothing where it is none.
pub open spec fn clean_of(v: JsonV) -> Seq<char> {
    match v {
        JsonV::Str(s) => trimmed(s),
        _ => Seq::empty(),
    }
}

fn clean_at(v: &Json, key: &str) -> (r: String)
    ensures
        r@ == clean_of(v@.at(key@)),
{
    match v.text_at(key) {
        Some(s) => trim(s),
        None => String::new(),
    }
}

fn clean_at2(v: &Json, a: &str, b: &str) -> (r: String)
    ensures
        r@ == clean_of(v@.at(a@).at(b@)),
{
    match v.get(a) {
        Some(x) => clean_at(x, b),
        None => String::new(),
    }
}

pub open spec fn code_at(v: JsonV, key: Seq<char>) -> Option<int> {
    crate::channel::qq::small_int(v.at(key))
}

fn int_at(v: &Json, key: &str) -> (r: Option<i64>)
    ensures
        crate::channel::qq::opt_int(r) == code_at(v@, key@),
{
    match v.get(key) {
        Some(x) => x.as_i64(),
        None => None,
    }
}

/// A code as a picture in an address.
pub open spec fn image_of(url: Seq<char>) -> Result<Seq<char>, QrErrorV> {
    match qr_picture(url, 220, "#111827"@, "#ffffff"@) {
        Ok(svg) => Ok("data:image/svg+xml;base64,"@ + base64_text(encode_utf8(svg))),
        Err(e) => Err(QrErrorV::Internal("二维码生成失败: "@ + e)),
    }
}

/// A code as a picture in an address.
pub fn qr_image_from_url(scan_url: &str) -> (r: Result<String, QrError>)
    ensures
        text_result(r) == image_of(scan_url@),
{
    match qr_svg(scan_url, 220, "#111827", "#ffffff") {
        Ok(svg) => Ok(
            text2(
                "data:image/svg+xml;base64,",
                base64_encode(svg.as_str().as_bytes()).as_str(),
            ),
        ),
        Err(e) => Err(QrError::Internal(text2("二维码生成失败: ", e.as_str()))),
    }
}

/// A code for an address, with the token to poll with.
pub open spec fn fetched(url: Seq<char>, token: Seq<char>) -> Result<FetchV, QrErrorV> {
    match image_of(url) {
        Ok(image) => Ok(FetchV { image, poll_token: token, scan_url: url }),
        Err(e) => Err(e),
    }
}

fn fetch_for(url: String, token: String) -> (r: Result<QrFetch, QrError>)
    ensures
        fetch_result(r) == fetched(url@, token@),
{
    match qr_image_from_url(url.as_str()) {
        Ok(image) => Ok(QrFetch { image, poll_token: token, scan_url: url }),
        Err(e) => Err(e),
    }
}

// ---------------------------------------------------------------------------
// WeChat
// ---------------------------------------------------------------------------

/// The address that WeChat's code stands for.
pub open spec fn wechat_url(qrcode: Seq<char>, img: Seq<char>) -> Seq<char> {
    if has_prefix(img, "http://"@) || has_prefix(img, "https://"@) {
        img
    } else {
        "https://liteapp.weixin.qq.com/q/7GiQu1?qrcode="@ + qrcode + "&bot_type=3"@
    }
}

/// WeChat's code as a picture: the one given, else one drawn here.
pub open spec fn wechat_image(qrcode: Seq<char>, img: Seq<char>) -> Result<Seq<char>, QrErrorV> {
    if has_prefix(img, "data:"@) {
        Ok(img)
    } else if img.len() > 0 && !has_prefix(img, "http"@) {
        Ok("data:image/png;base64,"@ + img)
    } else {
        image_of(wechat_url(qrcode, img))
    }
}

/// WeChat's code as a picture, and the address that it stands for.
pub fn image_from_wechat(qrcode: &str, img: &str) -> (r: Result<(String, String), QrError>)
    ensures
        r is Ok <==> wechat_image(qrcode@, img@) is Ok,
        r matches Ok(x) ==> wechat_image(qrcode@, img@) == Ok::<Seq<char>, QrErrorV>(x.0@) && x.1@
            == wechat_url(qrcode@, img@),
        r matches Err(e) ==> wechat_image(qrcode@, img@) == Err::<Seq<char>, QrErrorV>(e@),
{
    let url: String = if starts_with(img, "http://") || starts_with(img, "https://") {
        img.to_owned()
    } else {
        text3("https://liteapp.weixin.qq.com/q/7GiQu1?qrcode=", qrcode, "&bot_type=3")
    };
    if starts_with(img, "data:") {
        return Ok((img.to_owned(), url));
    }
    if !img.is_empty() && !starts_with(img, "http") {
        return Ok((text2("data:image/png;base64,", img), url));
    }
    match qr_image_from_url(url.as_str()) {
        Ok(image) => Ok((image, url)),
        Err(e) => Err(e),
    }
}

/// The code that WeChat's answer gives.
pub open spec fn wechat_fetched(ok: bool, status: Seq<char>, data: JsonV) -> Result<
    FetchV,
    QrErrorV,
> {
    let qrcode = clean_of(data.at("qrcode"@));
    let img = clean_of(data.at("qrcode_img_content"@));
    if !ok {
        Err(
            QrErrorV::Upstream(
                "微信二维码 HTTP "@ + status + ": "@ + json_text(settled_json(data)),
            ),
        )
    } else if qrcode.len() == 0 && img.len() == 0 {
        Err(QrErrorV::Upstream("微信返回空二维码"@))
    } else {
        match wechat_image(qrcode, img) {
            Ok(image) => Ok(
                FetchV { image, poll_token: qrcode, scan_url: wechat_url(qrcode, img) },
            ),
            Err(e) => Err(e),
        }
    }
}

/// The code that WeChat's answer gives.
pub fn wechat_fetch(ok: bool, status: &str, data: &Json) -> (r: Result<QrFetch, QrError>)
    ensures
        fetch_result(r) == wechat_fetched(ok, status@, data@),
{
    if !ok {
        return Err(
            QrError::Upstream(
                text4("微信二维码 HTTP ", status, ": ", print_json(data).as_str()),
            ),
        );
    }
    let qrcode = clean_at(data, "qrcode");
    let img = clean_at(data, "qrcode_img_content");
    if qrcode.as_str().is_empty() && img.as_str().is_empty() {
        return Err(QrError::Upstream("微信返回空二维码".to_owned()));
    }
    match image_from_wechat(qrcode.as_str(), img.as_str()) {
        Ok((image, scan_url)) => Ok(QrFetch { image, poll_token: qrcode, scan_url }),
        Err(e) => Err(e),
    }
}

/// A text put in under a key, where there is one.
pub open spec fn bind_some(
    m: Map<Seq<char>, Seq<char>>,
    key: Seq<char>,
    s: Seq<char>,
) -> Map<Seq<char>, Seq<char>> {
    if s.len() == 0 {
        m
    } else {
        m.insert(key, s)
    }
}

fn insert_some(t: &mut Table, key: &str, s: &str)
    ensures
        final(t)@ == bind_some(old(t)@, key@, s@),
{
    if !s.is_empty() {
        t.insert(key, s);
    }
}

/// How far WeChat says the scan is.
pub open spec fn wechat_polled(data: JsonV) -> PollV {
    let raw = lower(clean_of(data.at("status"@)));
    let token = clean_of(data.at("bot_token"@));
    if raw == "confirmed"@ && token.len() > 0 {
        PollV {
            status: "success"@,
            credentials: bind_some(
                Map::empty().insert("bot_token"@, token),
                "base_url"@,
                clean_of(data.at("baseurl"@)),
            ),
        }
    } else if raw == "expired"@ {
        bare("expired"@)
    } else if raw == "scanned"@ {
        bare("scanned"@)
    } else {
        bare("waiting"@)
    }
}

/// How far WeChat says the scan is.
pub fn wechat_poll(data: &Json) -> (r: QrPoll)
    ensures
        r@ == wechat_polled(data@),
{
    let raw = to_lower(clean_at(data, "status").as_str());
    let token = clean_at(data, "bot_token");
    if same(raw.as_str(), "confirmed") && !token.as_str().is_empty() {
        let mut credentials = Table::new();
        credentials.insert("bot_token", token.as_str());
        insert_some(&mut credentials, "base_url", clean_at(data, "baseurl").as_str());
        return QrPoll { status: "success".to_owned(), credentials };
    }
    if same(raw.as_str(), "expired") {
        return QrPoll::plain("expired");
    }
    if same(raw.as_str(), "scanned") {
        return QrPoll::plain("scanned");
    }
    QrPoll::waiting()
}

// ---------------------------------------------------------------------------
// WeCom
// ---------------------------------------------------------------------------

/// The text of the settings in WeCom's page, after the place where they begin.
pub open spec fn settings_text(slice: Seq<char>) -> Seq<char> {
    let cut = match find(slice, "</"@) {
        Some(e) => slice.take(e),
        None => match find(slice, ";\n"@) {
            Some(e) => slice.take(e),
            None => clipped_bytes(slice, 12000),
        },
    };
    let raw = trimmed(cut);
    if raw.len() > 0 && raw.last() == ';' {
        trimmed(raw.drop_last())
    } else {
        raw
    }
}

/// The text of the settings in WeCom's page.
pub open spec fn settings_in(html: Seq<char>) -> Result<Seq<char>, QrErrorV> {
    match find(html, "window.settings"@) {
        None => Err(QrErrorV::Upstream("无法解析企微授权页 settings"@)),
        Some(i) => match find(html.skip(i), "{"@) {
            None => Err(QrErrorV::Upstream("企微授权页缺少 settings 对象"@)),
            Some(b) => Ok(settings_text(html.skip(i).skip(b))),
        },
    }
}

/// The settings in WeCom's page.
pub open spec fn wecom_settings(html: Seq<char>) -> Result<JsonV, QrErrorV> {
    match settings_in(html) {
        Err(e) => Err(e),
        Ok(raw) => match parsed_json(raw) {
            Some(v) => Ok(v),
            None => Err(QrErrorV::Upstream("企微 settings JSON: "@ + json_complaint(raw))),
        },
    }
}

fn tail_from(s: &str, i: usize) -> (r: String)
    requires
        i <= s@.len(),
    ensures
        r@ == s@.skip(i as int),
{
    let n: usize = s.unicode_len();
    s.substring_char(i, n).to_owned()
}

fn head_to(s: &str, i: usize) -> (r: String)
    requires
        i <= s@.len(),
    ensures
        r@ == s@.take(i as int),
{
    assert(s@.subrange(0, i as int) =~= s@.take(i as int));
    s.substring_char(0, i).to_owned()
}

fn cut_settings(slice: &str) -> (r: String)
    ensures
        r@ == settings_text(slice@),
{
    let cut: String = match index_of(slice, "</") {
        Some(e) => head_to(slice, e),
        None => match index_of(slice, ";\n") {
            Some(e) => head_to(slice, e),
            None => clip_bytes(slice, 12000),
        },
    };
    let raw = trim(cut.as_str());
    let cs = chars_of(raw.as_str());
    if cs.len() > 0 && cs[cs.len() - 1] == ';' {
        let s = string_of(&cs, 0, cs.len() - 1);
        assert(s@ =~= raw@.drop_last());
        trim(s.as_str())
    } else {
        raw
    }
}

/// The text of the settings in WeCom's page.
pub fn wecom_settings_text(html: &str) -> (r: Result<String, QrError>)
    ensures
        text_result(r) == settings_in(html@),
{
    let rest: String = match index_of(html, "window.settings") {
        Some(i) => tail_from(html, i),
        None => {
            return Err(QrError::Upstream("无法解析企微授权页 settings".to_owned()));
        },
    };
    let slice: String = match index_of(rest.as_str(), "{") {
        Some(b) => tail_from(rest.as_str(), b),
        None => {
            return Err(QrError::Upstream("企微授权页缺少 settings 对象".to_owned()));
        },
    };
    Ok(cut_settings(slice.as_str()))
}

/// The settings in WeCom's page.
pub fn wecom_settings_json(html: &str) -> (r: Result<Json, QrError>)
    ensures
        r is Ok <==> wecom_settings(html@) is Ok,
        r matches Ok(j) ==> wecom_settings(html@) == Ok::<JsonV, QrErrorV>(j@),
        r matches Err(e) ==> wecom_settings(html@) == Err::<JsonV, QrErrorV>(e@),
{
    match wecom_settings_text(html) {
        Ok(raw) => match parse_json_or(raw.as_str()) {
            Ok(j) => Ok(j),
            Err(e) => Err(QrError::Upstream(text2("企微 settings JSON: ", e.as_str()))),
        },
        Err(e) => Err(e),
    }
}

/// The code that WeCom's settings give.
pub open spec fn wecom_fetched(settings: JsonV) -> Result<FetchV, QrErrorV> {
    let scode = clean_of(settings.at("scode"@));
    let url = clean_of(settings.at("auth_url"@));
    if scode.len() == 0 || url.len() == 0 {
        Err(QrErrorV::Upstream("企微返回空 scode / auth_url"@))
    } else {
        fetched(url, scode)
    }
}

/// The code that WeCom's settings give.
pub fn wecom_code(settings: &Json) -> (r: Result<QrFetch, QrError>)
    ensures
        fetch_result(r) == wecom_fetched(settings@),
{
    let scode = clean_at(settings, "scode");
    let url = clean_at(settings, "auth_url");
    if scode.as_str().is_empty() || url.as_str().is_empty() {
        return Err(QrError::Upstream("企微返回空 scode / auth_url".to_owned()));
    }
    fetch_for(url, scode)
}

/// The code that WeCom's page gives.
pub fn wecom_fetch(html: &str) -> (r: Result<QrFetch, QrError>)
    ensures
        fetch_result(r) == (match wecom_settings(html@) {
            Ok(v) => wecom_fetched(v),
            Err(e) => Err(e),
        }),
{
    match wecom_settings_json(html) {
        Ok(v) => wecom_code(&v),
        Err(e) => Err(e),
    }
}

/// How far WeCom says the scan is.
pub open spec fn wecom_polled(result: JsonV) -> PollV {
    let data = result.at("data"@);
    let id = clean_of(data.at("bot_info"@).at("botid"@));
    let secret = clean_of(data.at("bot_info"@).at("secret"@));
    let status = lower(clean_of(data.at("status"@)));
    if id.len() > 0 && secret.len() > 0 {
        PollV {
            status: "success"@,
            credentials: Map::empty().insert("bot_id"@, id).insert("secret"@, secret),
        }
    } else if status == lower("fail"@) || status == lower("expired"@) {
        bare(status)
    } else {
        bare("waiting"@)
    }
}

/// How far WeCom says the scan is.
pub fn wecom_poll(result: &Json) -> (r: QrPoll)
    ensures
        r@ == wecom_polled(result@),
{
    let data = match result.get("data") {
        Some(d) => d,
        None => {
            proof {
                reveal_strlit("fail");
                reveal_strlit("expired");
                assert(lower(Seq::<char>::empty()).len() == 0);
                assert(lower("fail"@).len() == 4 && lower("expired"@).len() == 7);
            }
            return QrPoll::waiting();
        },
    };
    let id = clean_at2(data, "bot_info", "botid");
    let secret = clean_at2(data, "bot_info", "secret");
    if !id.as_str().is_empty() && !secret.as_str().is_empty() {
        let mut credentials = Table::new();
        credentials.insert("bot_id", id.as_str());
        credentials.insert("secret", secret.as_str());
        return QrPoll { status: "success".to_owned(), credentials };
    }
    let status = clean_at(data, "status");
    if same_ignoring_case(status.as_str(), "fail") || same_ignoring_case(
        status.as_str(),
        "expired",
    ) {
        return QrPoll::plain(to_lower(status.as_str()).as_str());
    }
    QrPoll::waiting()
}

// ---------------------------------------------------------------------------
// DingTalk
// ---------------------------------------------------------------------------

/// An answer of DingTalk that says it failed.
pub open spec fn ding_failed(data: JsonV) -> bool {
    code_at(data, "errcode"@) != Some(0int)
}

/// The nonce that DingTalk's first answer gives.
pub open spec fn ding_nonce(init: JsonV) -> Result<Seq<char>, QrErrorV> {
    let nonce = clean_of(init.at("nonce"@));
    if ding_failed(init) {
        Err(QrErrorV::Upstream("钉钉 init: "@ + clean_of(init.at("errmsg"@))))
    } else if nonce.len() == 0 {
        Err(QrErrorV::Upstream("钉钉返回空 nonce"@))
    } else {
        Ok(nonce)
    }
}

fn ding_ok(data: &Json) -> (r: bool)
    ensures
        r == !ding_failed(data@),
{
    match int_at(data, "errcode") {
        Some(n) => n == 0,
        None => false,
    }
}

/// The nonce that DingTalk's first answer gives.
pub fn dingtalk_init(init: &Json) -> (r: Result<String, QrError>)
    ensures
        text_result(r) == ding_nonce(init@),
{
    if !ding_ok(init) {
        return Err(
            QrError::Upstream(text2("钉钉 init: ", clean_at(init, "errmsg").as_str())),
        );
    }
    let nonce = clean_at(init, "nonce");
    if nonce.as_str().is_empty() {
        return Err(QrError::Upstream("钉钉返回空 nonce".to_owned()));
    }
    Ok(nonce)
}

/// The code that DingTalk's second answer gives.
pub open spec fn ding_fetched(begin: JsonV) -> Result<FetchV, QrErrorV> {
    let code = clean_of(begin.at("device_code"@));
    let url = clean_of(begin.at("verification_uri_complete"@));
    if ding_failed(begin) {
        Err(QrErrorV::Upstream("钉钉 begin: "@ + clean_of(begin.at("errmsg"@))))
    } else if code.len() == 0 || url.len() == 0 {
        Err(QrErrorV::Upstream("钉钉返回空 device_code / URI"@))
    } else {
        fetched(url, code)
    }
}

/// The code that DingTalk's second answer gives.
pub fn dingtalk_fetch(begin: &Json) -> (r: Result<QrFetch, QrError>)
    ensures
        fetch_result(r) == ding_fetched(begin@),
{
    if !ding_ok(begin) {
        return Err(
            QrError::Upstream(text2("钉钉 begin: ", clean_at(begin, "errmsg").as_str())),
        );
    }
    let code = clean_at(begin, "device_code");
    let url = clean_at(begin, "verification_uri_complete");
    if code.as_str().is_empty() || url.as_str().is_empty() {
        return Err(QrError::Upstream("钉钉返回空 device_code / URI".to_owned()));
    }
    fetch_for(url, code)
}

/// How far DingTalk says the scan is: done once it gives both credentials, whatever
/// its status.
pub open spec fn ding_polled(data: JsonV) -> PollV {
    let status = lower(clean_of(data.at("status"@)));
    let id = clean_of(data.at("client_id"@));
    let secret = clean_of(data.at("client_secret"@));
    let reason = bind_some(Map::empty(), "fail_reason"@, clean_of(data.at("fail_reason"@)));
    if id.len() > 0 && secret.len() > 0 {
        PollV {
            status: "success"@,
            credentials: Map::empty().insert("client_id"@, id).insert("client_secret"@, secret),
        }
    } else if status == lower("EXPIRED"@) {
        PollV { status: "expired"@, credentials: reason }
    } else if status == lower("FAIL"@) {
        PollV { status: "fail"@, credentials: reason }
    } else {
        bare("waiting"@)
    }
}

/// How far DingTalk says the scan is.
pub fn dingtalk_map_status(data: &Json) -> (r: QrPoll)
    ensures
        r@ == ding_polled(data@),
{
    let status = clean_at(data, "status");
    let id = clean_at(data, "client_id");
    let secret = clean_at(data, "client_secret");
    if !id.as_str().is_empty() && !secret.as_str().is_empty() {
        let mut credentials = Table::new();
        credentials.insert("client_id", id.as_str());
        credentials.insert("client_secret", secret.as_str());
        return QrPoll { status: "success".to_owned(), credentials };
    }
    let expired: bool = same_ignoring_case(status.as_str(), "EXPIRED");
    if expired || same_ignoring_case(status.as_str(), "FAIL") {
        let mut credentials = Table::new();
        insert_some(&mut credentials, "fail_reason", clean_at(data, "fail_reason").as_str());
        return QrPoll {
            status: if expired {
                "expired".to_owned()
            } else {
                "fail".to_owned()
            },
            credentials,
        };
    }
    QrPoll::waiting()
}

// ---------------------------------------------------------------------------
// Feishu
// ---------------------------------------------------------------------------

/// The host of a domain's accounts.
pub fn feishu_accounts(domain: Option<&str>) -> (r: &'static str)
    ensures
        r@ == (if domain is Some && lower(trimmed(domain->0@)) == lower("lark"@) {
            "https://accounts.larksuite.com"@
        } else {
            "https://accounts.feishu.cn"@
        }),
{
    let lark: bool = match domain {
        Some(d) => same_ignoring_case(trim(d).as_str(), "lark"),
        None => false,
    };
    if lark {
        "https://accounts.larksuite.com"
    } else {
        "https://accounts.feishu.cn"
    }
}

pub open spec fn offers_secret(init: JsonV) -> bool {
    match init.at("supported_auth_methods"@) {
        JsonV::Array(a) => a.contains(JsonV::Str("client_secret"@)),
        _ => false,
    }
}

/// Whether Feishu's first answer offers the way of binding that is used here.
pub fn feishu_init(init: &Json) -> (r: Result<(), QrError>)
    ensures
        r is Ok <==> offers_secret(init@),
        r matches Err(e) ==> e@ == QrErrorV::Upstream("飞书不支持 client_secret 授权"@),
{
    if let Some(Json::Array(a)) = init.get("supported_auth_methods") {
        proof {
            lemma_items_view(a@);
        }
        let ghost vs = items_view(a@);
        let mut i: usize = 0;
        while i < a.len()
            invariant
                i <= a@.len() == vs.len(),
                init@.at("supported_auth_methods"@) == JsonV::Array(vs),
                forall|j: int| 0 <= j < vs.len() ==> #[trigger] vs[j] == a@[j]@,
                forall|j: int| 0 <= j < i ==> #[trigger] vs[j] != JsonV::Str("client_secret"@),
            decreases a.len() - i,
        {
            assert(vs[i as int] == a@[i as int]@);
            if let Some(s) = a[i].as_str() {
                if same(s, "client_secret") {
                    assert(vs[i as int] == JsonV::Str("client_secret"@));
                    return Ok(());
                }
            }
            i = i + 1;
        }
    }
    Err(QrError::Upstream("飞书不支持 client_secret 授权".to_owned()))
}

/// The code that Feishu's second answer gives.
pub open spec fn feishu_fetched(begin: JsonV) -> Result<FetchV, QrErrorV> {
    let code = clean_of(begin.at("device_code"@));
    let url = clean_of(begin.at("verification_uri_complete"@));
    if code.len() == 0 || url.len() == 0 {
        Err(QrErrorV::Upstream("飞书缺少 device_code 或二维码 URL"@))
    } else {
        fetched(
            url + (if holds(url, "?"@) {
                "&source=QwenPaw"@
            } else {
                "?source=QwenPaw"@
            }),
            code,
        )
    }
}

/// The code that Feishu's second answer gives.
pub fn feishu_fetch(begin: &Json) -> (r: Result<QrFetch, QrError>)
    ensures
        fetch_result(r) == feishu_fetched(begin@),
{
    let code = clean_at(begin, "device_code");
    let url = clean_at(begin, "verification_uri_complete");
    if code.as_str().is_empty() || url.as_str().is_empty() {
        return Err(QrError::Upstream("飞书缺少 device_code 或二维码 URL".to_owned()));
    }
    let full = if contains(url.as_str(), "?") {
        text2(url.as_str(), "&source=QwenPaw")
    } else {
        text2(url.as_str(), "?source=QwenPaw")
    };
    fetch_for(full, code)
}

/// How far Feishu says the scan is.
pub open spec fn feishu_polled(data: JsonV) -> PollV {
    let id = clean_of(data.at("client_id"@));
    let secret = clean_of(data.at("client_secret"@));
    let user = data.at("user_info"@);
    let brand = clean_of(user.at("tenant_brand"@));
    let error = clean_of(data.at("error"@));
    if id.len() > 0 && secret.len() > 0 {
        PollV {
            status: "success"@,
            credentials: bind_some(
                Map::empty().insert("app_id"@, id).insert("app_secret"@, secret),
                "open_id"@,
                clean_of(user.at("open_id"@)),
            ).insert(
                "tenant_brand"@,
                if brand.len() == 0 {
                    "feishu"@
                } else {
                    brand
                },
            ),
        }
    } else if error == "expired_token"@ || error == "invalid_grant"@ {
        bare("expired"@)
    } else if error == "access_denied"@ {
        failed("用户拒绝授权"@)
    } else if error.len() > 0 && error != "authorization_pending"@ && error != "slow_down"@ {
        failed(error)
    } else {
        bare("waiting"@)
    }
}

/// How far Feishu says the scan is.
pub fn feishu_poll(data: &Json) -> (r: QrPoll)
    ensures
        r@ == feishu_polled(data@),
{
    let id = clean_at(data, "client_id");
    let secret = clean_at(data, "client_secret");
    if !id.as_str().is_empty() && !secret.as_str().is_empty() {
        let mut credentials = Table::new();
        credentials.insert("app_id", id.as_str());
        credentials.insert("app_secret", secret.as_str());
        insert_some(
            &mut credentials,
            "open_id",
            clean_at2(data, "user_info", "open_id").as_str(),
        );
        let brand = clean_at2(data, "user_info", "tenant_brand");
        credentials.insert(
            "tenant_brand",
            if brand.as_str().is_empty() {
                "feishu"
            } else {
                brand.as_str()
            },
        );
        return QrPoll { status: "success".to_owned(), credentials };
    }
    let error = clean_at(data, "error");
    let e = error.as_str();
    if same(e, "expired_token") || same(e, "invalid_grant") {
        return QrPoll::plain("expired");
    }
    if same(e, "access_denied") {
        return QrPoll::fail("用户拒绝授权");
    }
    if !e.is_empty() && !same(e, "authorization_pending") && !same(e, "slow_down") {
        return QrPoll::fail(e);
    }
    QrPoll::waiting()
}

// ---------------------------------------------------------------------------
// WeChat: the number that a request carries
// ---------------------------------------------------------------------------

/// The number that tells WeChat's requests apart, as it is sent.
pub open spec fn uin_text(random: nat) -> Seq<char> {
    base64_text(encode_utf8(decimal(random)))
}

/// The number that tells WeChat's requests apart, as it is sent.
pub fn wechat_uin(random: u32) -> (r: String)
    ensures
        r@ == uin_text(random as nat),
{
    let shown = show_u64(random as u64);
    base64_encode(shown.as_str().as_bytes())
}

/// The last four bytes of an identifier, the highest first.
pub open spec fn low_32(id: Seq<u8>) -> nat {
    (id[12] * 0x100_0000 + id[13] * 0x1_0000 + id[14] * 0x100 + id[15]) as nat
}

/// A fresh number for a request: the low bits of a random identifier.
pub fn fresh_wechat_uin() -> (r: String)
    ensures
        exists|id: Seq<u8>| drawn(id) && r@ == uin_text(#[trigger] low_32(id)),
{
    let id = random_bytes();
    let n: u32 = id[12] as u32 * 0x100_0000 + id[13] as u32 * 0x1_0000 + id[14] as u32 * 0x100
        + id[15] as u32;
    assert(n == low_32(id@));
    wechat_uin(n)
}

// ---------------------------------------------------------------------------
// QQ: the token that a poll carries
// ---------------------------------------------------------------------------

/// The key for a binding that two identifiers make: their bytes, one after the other.
pub fn bind_key_of(a: &Vec<u8>, b: &Vec<u8>) -> (r: String)
    ensures
        r@ == base64_text(a@ + b@),
        base64_bytes(r@) == Some(a@ + b@),
{
    let mut buf: Vec<u8> = Vec::new();
    buf.extend_from_slice(a.as_slice());
    buf.extend_from_slice(b.as_slice());
    assert(buf@ =~= a@ + b@);
    base64_encode(buf.as_slice())
}

/// A fresh key for a binding: the bytes of two random identifiers.
pub fn generate_bind_key() -> (r: String)
    ensures
        exists|a: Seq<u8>, b: Seq<u8>|
            drawn(a) && drawn(b) && r@ == #[trigger] base64_text(a + b) && base64_bytes(r@) == Some(
                a + b,
            ),
{
    let a = random_bytes();
    let b = random_bytes();
    let r = bind_key_of(&a, &b);
    assert(r@ == base64_text(a@ + b@));
    r
}

pub open spec fn token_value(task_id: Seq<char>, key: Seq<char>) -> JsonV {
    put(
        put(JsonV::Object(Map::empty()), "task_id"@, JsonV::Str(task_id)),
        "key"@,
        JsonV::Str(key),
    )
}

pub open spec fn bad_token() -> QrErrorV {
    QrErrorV::BadToken("无效的 poll token"@)
}

/// The bytes of a token, with padding or without.
pub open spec fn token_bytes(token: Seq<char>) -> Option<Seq<u8>> {
    match base64url_bytes(token) {
        Some(b) => Some(b),
        None => base64url_bare_bytes(token),
    }
}

/// The task and the key that a token's value names.
pub open spec fn token_fields_of(data: JsonV) -> Result<(Seq<char>, Seq<char>), QrErrorV> {
    let task = clean_of(data.at("task_id"@));
    let key = clean_of(data.at("key"@));
    if task.len() == 0 || key.len() == 0 {
        Err(bad_token())
    } else {
        Ok((task, key))
    }
}

/// The task and the key that a token carries.
pub open spec fn token_read(token: Seq<char>) -> Result<(Seq<char>, Seq<char>), QrErrorV> {
    match token_bytes(token) {
        Some(b) => if valid_utf8(b) {
            match parsed_json(decode_utf8(b)) {
                Some(data) => token_fields_of(data),
                None => Err(bad_token()),
            }
        } else {
            Err(bad_token())
        },
        None => Err(bad_token()),
    }
}

pub open spec fn pair_result(r: Result<(String, String), QrError>) -> Result<
    (Seq<char>, Seq<char>),
    QrErrorV,
> {
    match r {
        Ok(x) => Ok((x.0@, x.1@)),
        Err(e) => Err(e@),
    }
}

/// The token that carries a task and a key. Reading it gives both back, without the
/// space around them; one that is blank makes the token unreadable.
pub fn encode_poll_token(task_id: &str, aes_key: &str) -> (r: String)
    ensures
        r@ == base64url_text(encode_utf8(json_text(token_value(task_id@, aes_key@)))),
        token_read(r@) == (if trimmed(task_id@).len() == 0 || trimmed(aes_key@).len() == 0 {
            Err(bad_token())
        } else {
            Ok((trimmed(task_id@), trimmed(aes_key@)))
        }),
{
    let payload = Json::object().with("task_id", Json::string(task_id)).with(
        "key",
        Json::string(aes_key),
    );
    proof {
        let v = payload@;
        let m = v->Object_0;
        assert(flat(v)) by {
            assert forall|k: Seq<char>| v->Object_0.contains_key(k) implies (
            #[trigger] v->Object_0[k]) is Str by {}
        }
        reveal_strlit("task_id");
        reveal_strlit("key");
        assert("task_id"@.len() == 7 && "key"@.len() == 3);
    }
    let text = print_json(&payload);
    let token = base64url_encode(text.as_str().as_bytes());
    proof {
        vstd::utf8::encode_utf8_valid_utf8(text@);
        vstd::utf8::encode_utf8_decode_utf8(text@);
    }
    token
}

/// The task and the key that a token's value names.
pub fn token_fields(data: &Json) -> (r: Result<(String, String), QrError>)
    ensures
        pair_result(r) == token_fields_of(data@),
{
    let task = clean_at(data, "task_id");
    let key = clean_at(data, "key");
    if task.as_str().is_empty() || key.as_str().is_empty() {
        return Err(QrError::BadToken("无效的 poll token".to_owned()));
    }
    Ok((task, key))
}

/// The task and the key that a token carries.
pub fn decode_poll_token(token: &str) -> (r: Result<(String, String), QrError>)
    ensures
        pair_result(r) == token_read(token@),
{
    let raw: Option<Vec<u8>> = match base64url_decode(token) {
        Some(b) => Some(b),
        None => base64url_bare_decode(token),
    };
    let text: Option<String> = match raw {
        Some(b) => match read_utf8(b.as_slice()) {
            Ok(s) => {
                proof {
                    vstd::utf8::encode_utf8_decode_utf8(s@);
                }
                Some(s)
            },
            Err(_) => None,
        },
        None => None,
    };
    let data: Option<Json> = match text {
        Some(s) => parse_json(s.as_str()),
        None => None,
    };
    match data {
        Some(v) => token_fields(&v),
        None => Err(QrError::BadToken("无效的 poll token".to_owned())),
    }
}

// ---------------------------------------------------------------------------
// QQ: the secret that comes sealed
// ---------------------------------------------------------------------------

/// What a sealed secret opens to: a nonce of twelve bytes, then what was sealed.
pub open spec fn unsealed(key: Seq<u8>, raw: Seq<u8>) -> Result<Seq<char>, QrErrorV> {
    if key.len() != 32 {
        Err(QrErrorV::Internal("QQ AES key 长度不是 256 位"@))
    } else if raw.len() < 28 {
        Err(QrErrorV::Internal("QQ 密文过短"@))
    } else {
        match gcm_opened(key, raw.take(12), raw.skip(12)) {
            Some(b) => if valid_utf8(b) {
                Ok(decode_utf8(b))
            } else {
                Err(QrErrorV::Internal("QQ 密钥不是 UTF-8"@))
            },
            None => Err(QrErrorV::Internal("QQ 密钥解密失败"@)),
        }
    }
}

/// The secret that a sealed text holds under a key, both in base64.
pub open spec fn decrypted(encrypted: Seq<char>, key: Seq<char>) -> Result<Seq<char>, QrErrorV> {
    match base64_bytes(trimmed(key)) {
        None => Err(QrErrorV::Internal("QQ AES key 无效"@)),
        Some(k) => if k.len() != 32 {
            Err(QrErrorV::Internal("QQ AES key 长度不是 256 位"@))
        } else {
            match base64_bytes(trimmed(encrypted)) {
                None => Err(QrErrorV::Internal("QQ 密文无效"@)),
                Some(raw) => unsealed(k, raw),
            }
        },
    }
}

fn internal(s: &str) -> (r: QrError)
    ensures
        r@ == QrErrorV::Internal(s@),
{
    QrError::Internal(s.to_owned())
}

fn split_bytes(b: &Vec<u8>, at: usize) -> (r: (Vec<u8>, Vec<u8>))
    requires
        at <= b@.len(),
    ensures
        r.0@ == b@.take(at as int),
        r.1@ == b@.skip(at as int),
{
    let mut head: Vec<u8> = Vec::new();
    let mut tail: Vec<u8> = Vec::new();
    let mut i: usize = 0;
    while i < at
        invariant
            i <= at <= b@.len(),
            head@ =~= b@.take(i as int),
        decreases at - i,
    {
        head.push(b[i]);
        i = i + 1;
    }
    while i < b.len()
        invariant
            at <= i <= b@.len(),
            tail@ =~= b@.subrange(at as int, i as int),
        decreases b.len() - i,
    {
        tail.push(b[i]);
        i = i + 1;
    }
    assert(tail@ =~= b@.skip(at as int));
    (head, tail)
}

/// The secret that a sealed text holds under a key, both in base64.
pub fn decrypt_secret(encrypted_b64: &str, key_b64: &str) -> (r: Result<String, QrError>)
    ensures
        text_result(r) == decrypted(encrypted_b64@, key_b64@),
{
    let key: Vec<u8> = match base64_decode(trim(key_b64).as_str()) {
        Some(k) => k,
        None => {
            return Err(internal("QQ AES key 无效"));
        },
    };
    if key.len() != 32 {
        return Err(internal("QQ AES key 长度不是 256 位"));
    }
    let raw: Vec<u8> = match base64_decode(trim(encrypted_b64).as_str()) {
        Some(b) => b,
        None => {
            return Err(internal("QQ 密文无效"));
        },
    };
    if raw.len() < 28 {
        return Err(internal("QQ 密文过短"));
    }
    let (nonce, sealed) = split_bytes(&raw, 12);
    match gcm_open(key.as_slice(), nonce.as_slice(), sealed.as_slice()) {
        Some(b) => match read_utf8(b.as_slice()) {
            Ok(s) => {
                proof {
                    vstd::utf8::encode_utf8_decode_utf8(s@);
                }
                Ok(s)
            },
            Err(_) => Err(internal("QQ 密钥不是 UTF-8")),
        },
        None => Err(internal("QQ 密钥解密失败")),
    }
}

// ---------------------------------------------------------------------------
// QQ: answers
// ---------------------------------------------------------------------------

/// The address of QQ's page for a task.
pub open spec fn qq_page(host: Seq<char>, task: Seq<char>) -> Seq<char> {
    "https://"@ + host + "/qqbot/openclaw/connect.html?task_id="@ + task
        + "&_wv=2&source=QwenPaw"@
}

/// The task that QQ's answer gives.
pub open spec fn qq_task(data: JsonV) -> Result<Seq<char>, QrErrorV> {
    let task = clean_of(data.at("data"@).at("task_id"@));
    if code_at(data, "retcode"@) != Some(0int) {
        Err(QrErrorV::Upstream("QQ create_bind_task: "@ + clean_of(data.at("msg"@))))
    } else if task.len() == 0 {
        Err(QrErrorV::Upstream("QQ 返回空 task_id"@))
    } else {
        Ok(task)
    }
}

/// The code that QQ's answer gives, for a binding under a key.
pub fn qq_fetch(host: &str, aes_key: &str, data: &Json) -> (r: Result<QrFetch, QrError>)
    ensures
        fetch_result(r) == (match qq_task(data@) {
            Ok(task) => fetched(
                qq_page(host@, task),
                base64url_text(encode_utf8(json_text(token_value(task, aes_key@)))),
            ),
            Err(e) => Err(e),
        }),
{
    let ok: bool = match int_at(data, "retcode") {
        Some(n) => n == 0,
        None => false,
    };
    if !ok {
        return Err(
            QrError::Upstream(
                text2("QQ create_bind_task: ", clean_at(data, "msg").as_str()),
            ),
        );
    }
    let task = clean_at2(data, "data", "task_id");
    if task.as_str().is_empty() {
        return Err(QrError::Upstream("QQ 返回空 task_id".to_owned()));
    }
    let mut url = text4(
        "https://",
        host,
        "/qqbot/openclaw/connect.html?task_id=",
        task.as_str(),
    );
    url.append("&_wv=2&source=QwenPaw");
    fetch_for(url, encode_poll_token(task.as_str(), aes_key))
}

/// QQ asks to be polled less often.
pub open spec fn rate_limited(data: JsonV) -> bool {
    code_at(data, "retcode"@) == Some(30012int) || holds(clean_of(data.at("msg"@)), "频率过高"@)
}

/// Whether QQ asks to be polled less often.
pub fn qq_rate_limited(data: &Json) -> (r: bool)
    ensures
        r == rate_limited(data@),
{
    if let Some(n) = int_at(data, "retcode") {
        if n == 30012 {
            return true;
        }
    }
    contains(clean_at(data, "msg").as_str(), "频率过高")
}

/// A text without the quotes at its front.
pub open spec fn without_leading_quotes(s: Seq<char>) -> Seq<char>
    decreases s.len(),
{
    if s.len() > 0 && s[0] == '"' {
        without_leading_quotes(s.skip(1))
    } else {
        s
    }
}

/// A value as text, without the quotes around it.
pub open spec fn loose_text(v: JsonV) -> Seq<char> {
    match v {
        JsonV::Str(s) => s,
        _ => without_trailing(without_leading_quotes(json_text(settled_json(v))), '"'),
    }
}

fn loose(v: &Json) -> (r: String)
    ensures
        r@ == loose_text(v@),
{
    match v {
        Json::Str(s) => s.clone(),
        _ => {
            let t = print_json(v);
            let cs = chars_of(t.as_str());
            let mut i: usize = 0;
            assert(cs@.skip(0) =~= t@);
            while i < cs.len() && cs[i] == '"'
                invariant
                    i <= cs@.len(),
                    without_leading_quotes(t@) == without_leading_quotes(cs@.skip(i as int)),
                decreases cs.len() - i,
            {
                assert(cs@.skip(i as int).skip(1) =~= cs@.skip(i + 1));
                i = i + 1;
            }
            let rest = string_of(&cs, i, cs.len());
            assert(rest@ =~= cs@.skip(i as int));
            strip_trailing(rest.as_str(), '"')
        },
    }
}

/// What QQ's confirmed result amounts to, where its secret opens to `secret`.
pub open spec fn qq_confirmed(result: JsonV, secret: Result<Seq<char>, QrErrorV>) -> PollV {
    let app = match result.field("bot_appid"@) {
        Some(v) => loose_text(v),
        None => Seq::empty(),
    };
    let encrypted = clean_of(result.at("bot_encrypt_secret"@));
    if app.len() == 0 || encrypted.len() == 0 || app == "0"@ {
        failed("缺少 app_id 或密文"@)
    } else {
        match secret {
            Err(_) => failed("密钥解密失败"@),
            Ok(s) => {
                let both = Map::empty().insert("app_id"@, app).insert("client_secret"@, s);
                PollV {
                    status: "success"@,
                    credentials: match result.field("user_openid"@) {
                        Some(v) => if loose_text(v).len() > 0 && loose_text(v) != "null"@ {
                            both.insert("user_openid"@, loose_text(v))
                        } else {
                            both
                        },
                        None => both,
                    },
                }
            },
        }
    }
}

/// How far QQ says the scan is.
pub open spec fn qq_polled(data: JsonV, aes_key: Seq<char>) -> PollV {
    let result = data.at("data"@);
    let status = match code_at(result, "status"@) {
        Some(n) => n,
        None => -1int,
    };
    let msg = clean_of(data.at("msg"@));
    if rate_limited(data) {
        bare("waiting"@)
    } else if code_at(data, "retcode"@) != Some(0int) {
        failed(
            if msg.len() == 0 {
                "QQ poll_bind_result 失败"@
            } else {
                msg
            },
        )
    } else if status == 2 {
        qq_confirmed(result, decrypted(clean_of(result.at("bot_encrypt_secret"@)), aes_key))
    } else if status == 3 {
        bare("expired"@)
    } else {
        bare("waiting"@)
    }
}

/// What QQ's confirmed result amounts to; `secret` is what its sealed secret opens to.
pub fn qq_credentials(result: &Json, secret: Result<String, QrError>) -> (r: QrPoll)
    ensures
        r@ == qq_confirmed(result@, text_result(secret)),
{
    let app: String = match result.get("bot_appid") {
        Some(v) => loose(v),
        None => String::new(),
    };
    let encrypted = clean_at(result, "bot_encrypt_secret");
    if app.as_str().is_empty() || encrypted.as_str().is_empty() || same(app.as_str(), "0") {
        return QrPoll::fail("缺少 app_id 或密文");
    }
    let client_secret: String = match secret {
        Ok(s) => s,
        Err(_) => {
            return QrPoll::fail("密钥解密失败");
        },
    };
    let mut credentials = Table::new();
    credentials.insert("app_id", app.as_str());
    credentials.insert("client_secret", client_secret.as_str());
    if let Some(v) = result.get("user_openid") {
        let id = loose(v);
        if !id.as_str().is_empty() && !same(id.as_str(), "null") {
            credentials.insert("user_openid", id.as_str());
        }
    }
    QrPoll { status: "success".to_owned(), credentials }
}

/// How far QQ says the scan is.
pub fn qq_map_result(data: &Json, aes_key: &str) -> (r: QrPoll)
    ensures
        r@ == qq_polled(data@, aes_key@),
{
    if qq_rate_limited(data) {
        return QrPoll::waiting();
    }
    let ok: bool = match int_at(data, "retcode") {
        Some(n) => n == 0,
        None => false,
    };
    if !ok {
        let msg = clean_at(data, "msg");
        return QrPoll::fail(
            if msg.as_str().is_empty() {
                "QQ poll_bind_result 失败"
            } else {
                msg.as_str()
            },
        );
    }
    let null = Json::Null;
    let result = match data.get("data") {
        Some(d) => d,
        None => &null,
    };
    assert(result@ == data@.at("data"@));
    let status: i64 = match int_at(result, "status") {
        Some(n) => n,
        None => -1,
    };
    if status == 2 {
        let encrypted = clean_at(result, "bot_encrypt_secret");
        return qq_credentials(result, decrypt_secret(encrypted.as_str(), aes_key));
    }
    if status == 3 {
        return QrPoll::plain("expired");
    }
    QrPoll::waiting()
}

// ---------------------------------------------------------------------------
// Laws
// ---------------------------------------------------------------------------

/// DingTalk's scan is done exactly where both credentials are there, and then both
/// are handed on.
pub proof fn law_dingtalk_done_with_both_credentials(data: JsonV)
    ensures
        ({
            let id = clean_of(data.at("client_id"@));
            let secret = clean_of(data.at("client_secret"@));
            let p = ding_polled(data);
            &&& p.status == "success"@ <==> id.len() > 0 && secret.len() > 0
            &&& p.status == "success"@ ==> p.credentials["client_id"@] == id
                && p.credentials["client_secret"@] == secret
        }),
{
    reveal_strlit("success");
    reveal_strlit("expired");
    reveal_strlit("fail");
    reveal_strlit("waiting");
    reveal_strlit("client_id");
    reveal_strlit("client_secret");
    assert("success"@.len() == 7 && "expired"@.len() == 7 && "fail"@.len() == 4
        && "waiting"@.len() == 7);
    assert("success"@[0] == 's' && "expired"@[0] == 'e' && "waiting"@[0] == 'w');
    assert("client_id"@.len() == 9 && "client_secret"@.len() == 13);
}

/// Polling too often is never a failure: the scan goes on waiting.
pub proof fn law_rate_limit_keeps_waiting(data: JsonV, key: Seq<char>)
    requires
        rate_limited(data),
    ensures
        qq_polled(data, key) == bare("waiting"@),
{
}

/// Which platform a kind is, in letters of any case: the five that are bound by scanning,
/// and no other.
pub proof fn law_which_platforms_are_scanned(k: Seq<char>)
    ensures
        k == "wechat"@ <==> qr_kind_of(k) == Some(QrKind::Wechat),
        k == "wecom"@ <==> qr_kind_of(k) == Some(QrKind::Wecom),
        k == "dingtalk"@ <==> qr_kind_of(k) == Some(QrKind::Dingtalk),
        k == "feishu"@ <==> qr_kind_of(k) == Some(QrKind::Feishu),
        k == "qq"@ <==> qr_kind_of(k) == Some(QrKind::Qq),
        platform_of(k) matches Ok(p) ==> qr_kind_of(lower(k)) == Some(p),
{
    reveal_strlit("wechat");
    reveal_strlit("wecom");
    reveal_strlit("dingtalk");
    reveal_strlit("feishu");
    reveal_strlit("qq");
    assert("wechat"@.len() == 6 && "wecom"@.len() == 5 && "dingtalk"@.len() == 8 && "feishu"@.len() == 6 && "qq"@.len() == 2);
    assert("wechat"@[0] == 'w' && "feishu"@[0] == 'f');
}

/// How far WeChat's scan is: done once it is confirmed and has a token, and else as far as it
/// says.
pub proof fn law_how_far_wechat_is(data: JsonV)
    ensures
        ({
            let said = lower(clean_of(data.at("status"@)));
            let token = clean_of(data.at("bot_token"@));
            let base = clean_of(data.at("baseurl"@));
            let p = wechat_polled(data);
            &&& p.status == "success"@ <==> said == "confirmed"@ && token.len() > 0
            &&& p.status == "success"@ ==> p.credentials.contains_key("bot_token"@)
                && p.credentials["bot_token"@] == token
            &&& p.status == "success"@ && base.len() > 0 ==> p.credentials.contains_key(
                "base_url"@,
            ) && p.credentials["base_url"@] == base
            &&& said == "expired"@ ==> p.status == "expired"@
            &&& said == "scanned"@ ==> p.status == "scanned"@
            &&& said != "confirmed"@ && said != "expired"@ && said != "scanned"@ ==> p.status
                == "waiting"@
            &&& p.status != "success"@ ==> p.credentials =~= Map::empty()
        }),
{
    reveal_strlit("success");
    reveal_strlit("expired");
    reveal_strlit("scanned");
    reveal_strlit("waiting");
    reveal_strlit("confirmed");
    reveal_strlit("bot_token");
    reveal_strlit("base_url");
    assert("success"@.len() == 7 && "expired"@.len() == 7 && "scanned"@.len() == 7 && "waiting"@.len() == 7 && "confirmed"@.len() == 9 && "bot_token"@.len() == 9 && "base_url"@.len() == 8);
    assert("success"@[0] == 's' && "expired"@[0] == 'e');
    assert("success"@[1] == 'u' && "scanned"@[1] == 'c');
    assert("success"@[0] == 's' && "waiting"@[0] == 'w');
    assert("expired"@[0] == 'e' && "scanned"@[0] == 's');
    assert("expired"@[0] == 'e' && "waiting"@[0] == 'w');
    assert("scanned"@[0] == 's' && "waiting"@[0] == 'w');
    assert("confirmed"@[0] == 'c' && "bot_token"@[0] == 'b');
}

/// How far WeCom's scan is: done once the bot has an identifier and a secret.
pub proof fn law_how_far_wecom_is(result: JsonV)
    ensures
        ({
            let bot = result.at("data"@).at("bot_info"@);
            let id = clean_of(bot.at("botid"@));
            let secret = clean_of(bot.at("secret"@));
            let said = lower(clean_of(result.at("data"@).at("status"@)));
            let p = wecom_polled(result);
            &&& id.len() > 0 && secret.len() > 0 ==> p.status == "success"@
                && p.credentials["bot_id"@] == id && p.credentials["secret"@] == secret
            &&& (id.len() == 0 || secret.len() == 0) && (said == "fail"@ || said == "expired"@)
                ==> p.status == said
            &&& (id.len() == 0 || secret.len() == 0) && said != "fail"@ && said != "expired"@
                ==> p.status == "waiting"@
        }),
{
    reveal_strlit("bot_id");
    reveal_strlit("secret");
    reveal_strlit("fail");
    reveal_strlit("expired");
    reveal_strlit("success");
    assert("bot_id"@.len() == 6 && "secret"@.len() == 6 && "fail"@.len() == 4 && "expired"@.len() == 7 && "success"@.len() == 7);
    assert("bot_id"@[0] == 'b' && "secret"@[0] == 's');
    assert("expired"@[0] == 'e' && "success"@[0] == 's');
    assert(lower("fail"@) =~= "fail"@);
    assert(lower("expired"@) =~= "expired"@);
}

/// How far Feishu's scan is: done once it gives both credentials; over where the code is too
/// old; failed where the user refused or another error came; and else it waits.
pub proof fn law_how_far_feishu_is(data: JsonV)
    ensures
        ({
            let id = clean_of(data.at("client_id"@));
            let secret = clean_of(data.at("client_secret"@));
            let brand = clean_of(data.at("user_info"@).at("tenant_brand"@));
            let error = clean_of(data.at("error"@));
            let both = id.len() > 0 && secret.len() > 0;
            let p = feishu_polled(data);
            &&& both ==> p.status == "success"@ && p.credentials["app_id"@] == id
                && p.credentials["app_secret"@] == secret
            &&& both && brand.len() > 0 ==> p.credentials["tenant_brand"@] == brand
            &&& both && brand.len() == 0 ==> p.credentials["tenant_brand"@] == "feishu"@
            &&& !both && (error == "expired_token"@ || error == "invalid_grant"@) ==> p.status
                == "expired"@
            &&& !both && error == "access_denied"@ ==> p.status == "fail"@
            &&& !both && (error.len() == 0 || error == "authorization_pending"@ || error
                == "slow_down"@) ==> p.status == "waiting"@
            &&& !both && error.len() > 0 && error != "authorization_pending"@ && error
                != "slow_down"@ && error != "expired_token"@ && error != "invalid_grant"@ && error
                != "access_denied"@ ==> p.status == "fail"@ && p.credentials["fail_reason"@]
                == error
        }),
{
    reveal_strlit("app_id");
    reveal_strlit("app_secret");
    reveal_strlit("tenant_brand");
    reveal_strlit("open_id");
    reveal_strlit("expired_token");
    reveal_strlit("invalid_grant");
    reveal_strlit("access_denied");
    reveal_strlit("authorization_pending");
    reveal_strlit("slow_down");
    assert("app_id"@.len() == 6 && "app_secret"@.len() == 10 && "tenant_brand"@.len() == 12 && "open_id"@.len() == 7 && "expired_token"@.len() == 13 && "invalid_grant"@.len() == 13 && "access_denied"@.len() == 13 && "authorization_pending"@.len() == 21 && "slow_down"@.len() == 9);
    assert("expired_token"@[0] == 'e' && "invalid_grant"@[0] == 'i');
    assert("expired_token"@[0] == 'e' && "access_denied"@[0] == 'a');
    assert("invalid_grant"@[0] == 'i' && "access_denied"@[0] == 'a');
}

/// How far QQ's scan is: it waits where it is asked to poll less; it failed where its answer
/// says so; and else its status tells.
pub proof fn law_how_far_qq_is(data: JsonV, key: Seq<char>)
    ensures
        ({
            let limited = data.at("retcode"@) == JsonV::Int(30012) || holds(
                clean_of(data.at("msg"@)),
                "频率过高"@,
            );
            let well = data.at("retcode"@) == JsonV::Int(0);
            let said = data.at("data"@).at("status"@);
            let p = qq_polled(data, key);
            &&& limited ==> p.status == "waiting"@
            &&& !limited && !well ==> p.status == "fail"@
            &&& !limited && !well && clean_of(data.at("msg"@)).len() > 0
                ==> p.credentials["fail_reason"@] == clean_of(data.at("msg"@))
            &&& !limited && well && said == JsonV::Int(3) ==> p.status == "expired"@
            &&& !limited && well && said == JsonV::Int(1) ==> p.status == "waiting"@
            &&& !limited && well && said == JsonV::Int(2) ==> p == qq_confirmed(
                data.at("data"@),
                decrypted(clean_of(data.at("data"@).at("bot_encrypt_secret"@)), key),
            )
        }),
{
}

/// A confirmed binding of QQ gives the application and the secret that its text opens to;
/// without either it failed.
pub proof fn law_what_a_confirmed_binding_gives(
    result: JsonV,
    app: Seq<char>,
    sealed: Seq<char>,
    secret: Seq<char>,
    e: QrErrorV,
)
    requires
        result.field("bot_appid"@) == Some(JsonV::Str(app)),
        result.at("bot_encrypt_secret"@) == JsonV::Str(sealed),
    ensures
        ({
            let p = qq_confirmed(result, Ok(secret));
            let usable = app.len() > 0 && app != "0"@ && trimmed(sealed).len() > 0;
            &&& usable ==> p.status == "success"@ && p.credentials["app_id"@] == app
                && p.credentials["client_secret"@] == secret
            &&& !usable ==> p.status == "fail"@
            &&& qq_confirmed(result, Err(e)).status == "fail"@
        }),
{
    reveal_strlit("app_id");
    reveal_strlit("client_secret");
    reveal_strlit("user_openid");
    reveal_strlit("success");
    reveal_strlit("fail");
    assert("app_id"@.len() == 6 && "client_secret"@.len() == 13 && "user_openid"@.len() == 11 && "success"@.len() == 7 && "fail"@.len() == 4);
}

/// A sealed secret opens only with a key of 32 bytes, and only where it is long enough to
/// hold a nonce and a seal; the nonce is its first twelve bytes.
pub proof fn law_what_a_sealed_secret_opens_to(key: Seq<u8>, raw: Seq<u8>)
    ensures
        key.len() != 32 ==> unsealed(key, raw) is Err,
        raw.len() < 28 ==> unsealed(key, raw) is Err,
        key.len() == 32 && raw.len() >= 28 && gcm_opened(key, raw.take(12), raw.skip(12)) is None
            ==> unsealed(key, raw) is Err,
        key.len() == 32 && raw.len() >= 28 && gcm_opened(key, raw.take(12), raw.skip(12)) is Some
            && valid_utf8(gcm_opened(key, raw.take(12), raw.skip(12))->0) ==> unsealed(key, raw)
            == Ok::<Seq<char>, QrErrorV>(
            decode_utf8(gcm_opened(key, raw.take(12), raw.skip(12))->0),
        ),
{
}

/// A token carries its task and its key, and neither may be missing.
pub proof fn law_what_a_token_carries(task: Seq<char>, key: Seq<char>)
    ensures
        trimmed(task) == task && task.len() > 0 && trimmed(key) == key && key.len() > 0
            ==> token_fields_of(token_value(task, key)) == Ok::<(Seq<char>, Seq<char>), QrErrorV>(
            (task, key),
        ),
        trimmed(task).len() == 0 || trimmed(key).len() == 0 ==> token_fields_of(
            token_value(task, key),
        ) is Err,
{
    reveal_strlit("task_id");
    reveal_strlit("key");
    assert("task_id"@.len() == 7 && "key"@.len() == 3);
}

/// DingTalk's answers count where their code is nought and what is asked for is there.
pub proof fn law_when_dingtalk_answers(d: JsonV)
    ensures
        d.at("errcode"@) != JsonV::Int(0) ==> ding_nonce(d) is Err && ding_fetched(d) is Err,
        d.at("errcode"@) == JsonV::Int(0) && clean_of(d.at("nonce"@)).len() > 0 ==> ding_nonce(d)
            == Ok::<Seq<char>, QrErrorV>(clean_of(d.at("nonce"@))),
        d.at("errcode"@) == JsonV::Int(0) && clean_of(d.at("nonce"@)).len() == 0 ==> ding_nonce(
            d,
        ) is Err,
        clean_of(d.at("device_code"@)).len() == 0 ==> ding_fetched(d) is Err,
        ding_fetched(d) matches Ok(f) ==> f.poll_token == clean_of(d.at("device_code"@))
            && f.scan_url == clean_of(d.at("verification_uri_complete"@)),
{
}

/// What WeChat's code stands for: the address that came with it, else one made of it; and the
/// picture that came with it, else one drawn of that address.
pub proof fn law_what_wechats_code_is(code: Seq<char>, img: Seq<char>)
    ensures
        has_prefix(img, "http://"@) || has_prefix(img, "https://"@) ==> wechat_url(code, img) == img,
        !has_prefix(img, "http://"@) && !has_prefix(img, "https://"@) ==> wechat_url(code, img)
            == "https://liteapp.weixin.qq.com/q/7GiQu1?qrcode="@ + code + "&bot_type=3"@,
        has_prefix(img, "data:"@) ==> wechat_image(code, img) == Ok::<Seq<char>, QrErrorV>(img),
        !has_prefix(img, "data:"@) && img.len() > 0 && !has_prefix(img, "http"@) ==> wechat_image(
            code,
            img,
        ) == Ok::<Seq<char>, QrErrorV>("data:image/png;base64,"@ + img),
        img.len() == 0 && !has_prefix(img, "data:"@) ==> wechat_image(code, img) == image_of(
            wechat_url(code, img),
        ),
{
}

/// The number that is sent is made of the last four bytes, the first of them the highest.
pub proof fn law_the_low_bytes_count(id: Seq<u8>)
    requires
        id.len() == 16,
    ensures
        low_32(id) < 0x1_0000_0000,
        low_32(id) % 256 == id[15],
        low_32(id) / 0x100_0000 == id[12],
        uin_text(low_32(id)) == base64_text(encode_utf8(decimal(low_32(id)))),
{
}

/// What WeChat, WeCom, Feishu and QQ answer to a request for a code: a code where it is there,
/// and an error where it is not.
pub proof fn law_when_a_code_is_given(status: Seq<char>, d: JsonV)
    ensures
        wechat_fetched(false, status, d) is Err,
        clean_of(d.at("qrcode"@)).len() == 0 && clean_of(d.at("qrcode_img_content"@)).len() == 0
            ==> wechat_fetched(true, status, d) is Err,
        wechat_fetched(true, status, d) matches Ok(f) ==> f.poll_token == clean_of(d.at("qrcode"@))
            && f.scan_url == wechat_url(
            clean_of(d.at("qrcode"@)),
            clean_of(d.at("qrcode_img_content"@)),
        ),
        clean_of(d.at("scode"@)).len() == 0 || clean_of(d.at("auth_url"@)).len() == 0
            ==> wecom_fetched(d) is Err,
        wecom_fetched(d) matches Ok(f) ==> f.poll_token == clean_of(d.at("scode"@)) && f.scan_url
            == clean_of(d.at("auth_url"@)),
        clean_of(d.at("device_code"@)).len() == 0 || clean_of(
            d.at("verification_uri_complete"@),
        ).len() == 0 ==> feishu_fetched(d) is Err,
        feishu_fetched(d) matches Ok(f) ==> f.poll_token == clean_of(d.at("device_code"@))
            && clean_of(d.at("verification_uri_complete"@)).is_prefix_of(f.scan_url),
        d.at("retcode"@) != JsonV::Int(0) ==> qq_task(d) is Err,
        d.at("retcode"@) == JsonV::Int(0) && clean_of(d.at("data"@).at("task_id"@)).len() > 0
            ==> qq_task(d) == Ok::<Seq<char>, QrErrorV>(clean_of(d.at("data"@).at("task_id"@))),
        d.at("retcode"@) == JsonV::Int(0) && clean_of(d.at("data"@).at("task_id"@)).len() == 0
            ==> qq_task(d) is Err,
{
    if let Ok(f) = feishu_fetched(d) {
        let u = clean_of(d.at("verification_uri_complete"@));
        assert(f.scan_url.take(u.len() as int) =~= u);
    }
}

/// A token is read from its bytes, with padding or without; what is no token is an error.
pub proof fn law_how_a_token_is_read(t: Seq<char>, b: Seq<u8>, v: JsonV)
    requires
        valid_utf8(b),
        parsed_json(decode_utf8(b)) == Some(v),
    ensures
        base64url_bytes(t) == Some(b) ==> token_read(t) == token_fields_of(v),
        base64url_bytes(t) is None && base64url_bare_bytes(t) == Some(b) ==> token_read(t)
            == token_fields_of(v),
        base64url_bytes(t) is None && base64url_bare_bytes(t) is None ==> token_read(t) is Err,
{
}

/// A secret is opened with its key, both of them read from base64 without the space around
/// them; what cannot be read is an error.
pub proof fn law_how_a_secret_is_opened(sealed: Seq<char>, key: Seq<char>, k: Seq<u8>, raw: Seq<u8>)
    ensures
        base64_bytes(trimmed(key)) is None ==> decrypted(sealed, key) is Err,
        base64_bytes(trimmed(key)) == Some(k) && k.len() != 32 ==> decrypted(sealed, key) is Err,
        base64_bytes(trimmed(key)) == Some(k) && k.len() == 32 && base64_bytes(trimmed(sealed))
            == Some(raw) ==> decrypted(sealed, key) == unsealed(k, raw),
        base64_bytes(trimmed(sealed)) is None ==> decrypted(sealed, key) is Err,
{
}

/// The settings of WeCom's page stand behind their name, from the first brace to the end of
/// the script.
pub proof fn law_where_the_settings_stand(a: Seq<char>, b: Seq<char>, body: Seq<char>, rest: Seq<char>)
    requires
        !a.contains('w'),
        !b.contains('{') && !b.contains('<'),
        body.len() > 0 && body[0] == '{' && body.last() == '}',
        !body.contains('<'),
    ensures
        settings_in(a + "window.settings"@ + b + body + "</"@ + rest) == Ok::<Seq<char>, QrErrorV>(
            body,
        ),
        settings_in(a) is Err,
{
    reveal_strlit("window.settings");
    reveal_strlit("{");
    reveal_strlit("</");
    let name = "window.settings"@;
    let end = "</"@;
    let html = a + name + b + body + end + rest;
    let later = name + b + body + end + rest;
    assert(html =~= a + later);
    crate::text::lemma_find_past(a, later, name, 0);
    crate::text::lemma_find_behind(a, later, name, 0);
    assert(later.subrange(0, 15) =~= name);
    assert(crate::text::at(later, name, 0));
    assert(find(html, name) == Some(a.len() as int));
    assert(html.skip(a.len() as int) =~= later);
    let front = name + b;
    let slice = body + end + rest;
    assert(later =~= front + slice);
    assert(!front.contains('{')) by {
        assert forall|i: int| 0 <= i < front.len() implies front[i] != '{' by {
            if i >= 15 {
                assert(b.contains(b[i - 15]));
            }
        }
    }
    crate::text::lemma_find_past(front, slice, "{"@, 0);
    crate::text::lemma_find_behind(front, slice, "{"@, 0);
    assert(slice.subrange(0, 1) =~= "{"@);
    assert(crate::text::at(slice, "{"@, 0));
    assert(find(later, "{"@) == Some(front.len() as int));
    assert(later.skip(front.len() as int) =~= slice);
    crate::text::lemma_find_past(body, end + rest, end, 0);
    crate::text::lemma_find_behind(body, end + rest, end, 0);
    assert(slice =~= body + (end + rest));
    assert((end + rest).subrange(0, 2) =~= end);
    assert(crate::text::at(end + rest, end, 0));
    assert(find(slice, end) == Some(body.len() as int));
    assert(slice.take(body.len() as int) =~= body);
    let e = Seq::<char>::empty();
    crate::text::law_trimming_takes_the_ends(e, body, e);
    assert(e + body + e =~= body);
    crate::text::lemma_find_from(a, name, 0);
    if let Some(i) = find(a, name) {
        assert(a.subrange(i, i + 15)[0] == a[i]);
        assert(a.contains(a[i]));
    }
}

/// A kind that is bound by scanning has its platform; any other is refused under its name in
/// small letters.
pub proof fn law_which_kinds_have_a_platform(kind: Seq<char>, i: int)
    requires
        0 <= i < 18,
    ensures
        lower(lower(kind)) == catalog_of()[i].id && lower(kind) == catalog_of()[i].id && i < 5
            ==> platform_of(kind) == Ok::<QrKind, QrErrorV>(
            seq![QrKind::Dingtalk, QrKind::Feishu, QrKind::Qq, QrKind::Wechat, QrKind::Wecom][i],
        ),
        lower(lower(kind)) == catalog_of()[i].id && i >= 5 ==> platform_of(kind) == Err::<
            QrKind,
            QrErrorV,
        >(QrErrorV::UnknownKind(lower(kind))),
{
    law_which_kinds_there_are(i);
    law_which_platforms_are_scanned(lower(kind));
    if lower(lower(kind)) == catalog_of()[i].id {
        law_a_kind_is_found_by_its_name(i, lower(kind));
    }
}

/// What is said where a secret cannot be opened: that the key has the wrong length, that what
/// is sealed is too short, that the key does not fit, or that what came out is no text.
pub proof fn law_why_a_secret_stays_closed(key: Seq<u8>, raw: Seq<u8>)
    ensures
        key.len() != 32 ==> unsealed(key, raw) == Err::<Seq<char>, QrErrorV>(
            QrErrorV::Internal("QQ AES key 长度不是 256 位"@),
        ),
        key.len() == 32 && raw.len() < 28 ==> unsealed(key, raw) == Err::<Seq<char>, QrErrorV>(
            QrErrorV::Internal("QQ 密文过短"@),
        ),
        key.len() == 32 && raw.len() >= 28 && gcm_opened(key, raw.take(12), raw.skip(12)) is None
            ==> unsealed(key, raw) == Err::<Seq<char>, QrErrorV>(
            QrErrorV::Internal("QQ 密钥解密失败"@),
        ),
        key.len() == 32 && raw.len() >= 28 && (gcm_opened(key, raw.take(12), raw.skip(12)) matches Some(
            b,
        ) && !valid_utf8(b)) ==> unsealed(key, raw) == Err::<Seq<char>, QrErrorV>(
            QrErrorV::Internal("QQ 密钥不是 UTF-8"@),
        ),
{
}

} // verus!
