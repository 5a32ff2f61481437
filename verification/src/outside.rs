//! The calls into outside crates, each behind a function whose contract says what
//! is believed of it.

use serde_json::Value;
use vstd::prelude::*;
use vstd::utf8::{decode_utf8, encode_utf8, valid_utf8};
use crate::json::{short_texts, Json, JsonV};

verus! {

// ---------------------------------------------------------------------------
// serde_json
// ---------------------------------------------------------------------------

#[verifier::external_type_specification]
#[verifier::external_body]
pub struct ExValue(serde_json::Value);

#[verifier::external_type_specification]
#[verifier::external_body]
pub struct ExJsonError(serde_json::Error);

/// What a `serde_json::Value` holds.
pub uninterp spec fn value_json(v: serde_json::Value) -> JsonV;

/// What `serde_json::from_str` reads from a text, `None` where it reports an error.
pub uninterp spec fn parsed_json(text: Seq<char>) -> Option<JsonV>;

/// What `serde_json::Value` writes of a value.
pub uninterp spec fn json_text(v: JsonV) -> Seq<char>;

/// What a value becomes as a `serde_json::Value`: the decimal text of a fraction
/// is read into a double and shown by its shortest text, `null` where no finite
/// double comes of it.
pub uninterp spec fn settled_json(v: JsonV) -> JsonV;

/// An object whose values are texts.
pub open spec fn flat(v: JsonV) -> bool {
    v is Object && forall|k: Seq<char>|
        v->Object_0.contains_key(k) ==> (#[trigger] v->Object_0[k]) is Str
}

/// How a `serde_json::Error` is shown.
pub uninterp spec fn error_shown(e: serde_json::Error) -> Seq<char>;

/// What `serde_json::from_str` complains of in a text that it cannot read.
pub uninterp spec fn json_complaint(text: Seq<char>) -> Seq<char>;

/// `serde_json::from_str` reads one value from a text. A text in that value stood
/// there in quotes, with at least one character for each of its own, so it is shorter.
#[verifier::external_body]
fn read_value(text: &str) -> (r: Result<serde_json::Value, serde_json::Error>)
    ensures
        r is Ok <==> parsed_json(text@) is Some,
        r matches Ok(v) ==> parsed_json(text@) == Some(value_json(v)),
        r matches Ok(v) ==> short_texts(value_json(v), text@.len()),
        r matches Err(e) ==> error_shown(e) == json_complaint(text@),
{
    serde_json::from_str(text)
}

/// The variants of `serde_json::Value`, one for one. A number comes out as an
/// integer where `as_u64` or `as_i64` gives one, else as the text it is shown by.
#[verifier::external_body]
fn json_of(v: &serde_json::Value) -> (r: Json)
    ensures
        r@ == value_json(*v),
{
    match v {
        Value::Null => Json::Null,
        Value::Bool(b) => Json::Bool(*b),
        Value::Number(n) => match (n.as_u64(), n.as_i64()) {
            (Some(u), _) => Json::Uint(u),
            (None, Some(i)) => Json::Nint(i),
            (None, None) => Json::Float(n.to_string()),
        },
        Value::String(s) => Json::Str(s.clone()),
        Value::Array(a) => Json::Array(a.iter().map(json_of).collect()),
        Value::Object(m) => Json::Object(m.iter().map(|(k, x)| (k.clone(), json_of(x))).collect()),
    }
}

/// The variants of `serde_json::Value`, one for one, the other way. The text of a
/// fraction is read as a double by `str::parse` and held where
/// `serde_json::Number::from_f64` takes it.
#[verifier::external_body]
fn value_of(j: &Json) -> (r: serde_json::Value)
    ensures
        value_json(r) == settled_json(j@),
        flat(j@) ==> value_json(r) == j@,
{
    match j {
        Json::Null => serde_json::Value::Null,
        Json::Bool(b) => serde_json::Value::from(*b),
        Json::Uint(n) => serde_json::Value::from(*n),
        Json::Nint(n) => serde_json::Value::from(*n),
        Json::Float(s) => s.parse().ok().and_then(serde_json::Number::from_f64).into(),
        Json::Str(s) => serde_json::Value::from(s.as_str()),
        Json::Array(a) => a.iter().map(value_of).collect(),
        Json::Object(m) => m.iter().map(|(k, x)| (k.clone(), value_of(x))).collect(),
    }
}

/// `serde_json::Value::to_string` writes a value as compact text, which reads back
/// as the same value where it is an object of texts.
#[verifier::external_body]
fn print_value(v: &serde_json::Value) -> (r: String)
    ensures
        r@ == json_text(value_json(*v)),
        flat(value_json(*v)) ==> parsed_json(r@) == Some(value_json(*v)),
{
    v.to_string()
}

/// `serde_json::Error::to_string` shows an error.
#[verifier::external_body]
fn show_error(e: &serde_json::Error) -> (r: String)
    ensures
        r@ == error_shown(*e),
{
    e.to_string()
}

/// The JSON value that `text` writes, or what is wrong with it.
pub fn parse_json_or(text: &str) -> (r: Result<Json, String>)
    ensures
        r is Ok <==> parsed_json(text@) is Some,
        r matches Ok(j) ==> parsed_json(text@) == Some(j@),
        r matches Err(s) ==> s@ == json_complaint(text@),
{
    match read_value(text) {
        Ok(v) => Ok(json_of(&v)),
        Err(e) => Err(show_error(&e)),
    }
}

/// The JSON value that `text` writes.
pub fn parse_json(text: &str) -> (r: Option<Json>)
    ensures
        r is Some <==> parsed_json(text@) is Some,
        r matches Some(j) ==> parsed_json(text@) == Some(j@) && short_texts(j@, text@.len()),
{
    match read_value(text) {
        Ok(v) => Some(json_of(&v)),
        Err(_) => None,
    }
}

/// The compact text of a JSON value.
pub fn print_json(j: &Json) -> (r: String)
    ensures
        r@ == json_text(settled_json(j@)),
        flat(j@) ==> r@ == json_text(j@) && parsed_json(r@) == Some(j@),
{
    print_value(&value_of(j))
}

// ---------------------------------------------------------------------------
// toml
// ---------------------------------------------------------------------------

#[verifier::external_type_specification]
#[verifier::external_body]
pub struct ExToml(toml::Value);

#[verifier::external_type_specification]
#[verifier::external_body]
pub struct ExTomlError(toml::de::Error);

/// What a `toml::Value` holds, tables as objects; a point in time is its text behind a
/// `null`, which no array of a document holds.
pub uninterp spec fn toml_json(v: toml::Value) -> JsonV;

/// What `toml::Value` reads from the text of a document, `None` where it reports an
/// error.
pub uninterp spec fn parsed_toml(text: Seq<char>) -> Option<JsonV>;

/// `str::parse` into a `toml::Value` reads a document.
#[verifier::external_body]
fn read_toml(text: &str) -> (r: Result<toml::Value, toml::de::Error>)
    ensures
        r is Ok <==> parsed_toml(text@) is Some,
        r matches Ok(v) ==> parsed_toml(text@) == Some(toml_json(v)),
{
    text.parse::<toml::Value>()
}

/// The variants of `toml::Value`, one for one.
#[verifier::external_body]
fn json_of_toml(v: &toml::Value) -> (r: Json)
    ensures
        r@ == toml_json(*v),
{
    match v {
        toml::Value::String(s) => Json::Str(s.clone()),
        toml::Value::Integer(n) => Json::Nint(*n),
        toml::Value::Float(x) => Json::Float(x.to_string()),
        toml::Value::Boolean(b) => Json::Bool(*b),
        toml::Value::Datetime(d) => Json::Array(vec![Json::Null, Json::Str(d.to_string())]),
        toml::Value::Array(a) => Json::Array(a.iter().map(json_of_toml).collect()),
        toml::Value::Table(t) => Json::Object(t.iter().map(|(k, x)| (k.clone(), json_of_toml(x))).collect()),
    }
}

/// The value of a TOML document.
pub fn parse_toml(text: &str) -> (r: Option<Json>)
    ensures
        r is Some <==> parsed_toml(text@) is Some,
        r matches Some(j) ==> parsed_toml(text@) == Some(j@),
{
    match read_toml(text) {
        Ok(v) => Some(json_of_toml(&v)),
        Err(_) => None,
    }
}

// ---------------------------------------------------------------------------
// uuid
// ---------------------------------------------------------------------------

/// A digit of a hexadecimal number in lower case.
pub open spec fn hex_digit(c: char) -> bool {
    ('0' <= c && c <= '9') || ('a' <= c && c <= 'f')
}

/// The text of a random identifier: thirty-two hexadecimal digits, of which the
/// thirteenth is the version and the seventeenth begins with the variant.
pub open spec fn drawn_text(s: Seq<char>) -> bool {
    s.len() == 32 && (forall|i: int| 0 <= i < s.len() ==> hex_digit(#[trigger] s[i])) && s[12]
        == '4' && (s[16] == '8' || s[16] == '9' || s[16] == 'a' || s[16] == 'b')
}

/// `uuid::Uuid::new_v4` draws a random identifier, with the digits for its version and
/// its variant set; the simple form writes its bytes as hexadecimal digits. Which ones
/// the others are is chance.
#[verifier::external_body]
pub(crate) fn random_id() -> (r: String)
    ensures
        drawn_text(r@),
{
    uuid::Uuid::new_v4().simple().to_string()
}

/// The bytes of a random identifier: sixteen, of which the seventh begins with the
/// version and the ninth with the variant.
pub open spec fn drawn(bytes: Seq<u8>) -> bool {
    bytes.len() == 16 && 0x40 <= bytes[6] <= 0x4f && 0x80 <= bytes[8] <= 0xbf
}

/// `uuid::Uuid::new_v4` draws a random identifier of sixteen bytes, with the bits for
/// its version and its variant set. Which ones the others are is chance.
#[verifier::external_body]
pub(crate) fn random_bytes() -> (r: Vec<u8>)
    ensures
        drawn(r@),
{
    uuid::Uuid::new_v4().as_bytes().to_vec()
}

// ---------------------------------------------------------------------------
// base64
// ---------------------------------------------------------------------------

/// What `base64`'s standard engine writes of bytes.
pub uninterp spec fn base64_text(bytes: Seq<u8>) -> Seq<char>;

/// What `base64`'s standard engine reads from a text, `None` where it reports an
/// error.
pub uninterp spec fn base64_bytes(text: Seq<char>) -> Option<Seq<u8>>;

/// What `base64`'s URL-safe engine writes of bytes.
pub uninterp spec fn base64url_text(bytes: Seq<u8>) -> Seq<char>;

/// What `base64`'s URL-safe engine reads from a text with padding.
pub uninterp spec fn base64url_bytes(text: Seq<char>) -> Option<Seq<u8>>;

/// What `base64`'s URL-safe engine reads from a text without padding.
pub uninterp spec fn base64url_bare_bytes(text: Seq<char>) -> Option<Seq<u8>>;

/// `encode` of `base64::engine::general_purpose::STANDARD`; `decode` reads it back.
#[verifier::external_body]
pub(crate) fn base64_encode(bytes: &[u8]) -> (r: String)
    ensures
        r@ == base64_text(bytes@),
        base64_bytes(r@) == Some(bytes@),
{
    base64::Engine::encode(&base64::engine::general_purpose::STANDARD, bytes)
}

/// `decode` of `base64::engine::general_purpose::STANDARD`.
#[verifier::external_body]
pub(crate) fn base64_decode(text: &str) -> (r: Option<Vec<u8>>)
    ensures
        r is Some <==> base64_bytes(text@) is Some,
        r matches Some(b) ==> base64_bytes(text@) == Some(b@),
{
    base64::Engine::decode(&base64::engine::general_purpose::STANDARD, text).ok()
}

/// `encode` of `base64::engine::general_purpose::URL_SAFE`; `decode` reads it back.
#[verifier::external_body]
pub(crate) fn base64url_encode(bytes: &[u8]) -> (r: String)
    ensures
        r@ == base64url_text(bytes@),
        base64url_bytes(r@) == Some(bytes@),
{
    base64::Engine::encode(&base64::engine::general_purpose::URL_SAFE, bytes)
}

/// `decode` of `base64::engine::general_purpose::URL_SAFE`.
#[verifier::external_body]
pub(crate) fn base64url_decode(text: &str) -> (r: Option<Vec<u8>>)
    ensures
        r is Some <==> base64url_bytes(text@) is Some,
        r matches Some(b) ==> base64url_bytes(text@) == Some(b@),
{
    base64::Engine::decode(&base64::engine::general_purpose::URL_SAFE, text).ok()
}

/// `decode` of `base64::engine::general_purpose::URL_SAFE_NO_PAD`.
#[verifier::external_body]
pub(crate) fn base64url_bare_decode(text: &str) -> (r: Option<Vec<u8>>)
    ensures
        r is Some <==> base64url_bare_bytes(text@) is Some,
        r matches Some(b) ==> base64url_bare_bytes(text@) == Some(b@),
{
    base64::Engine::decode(&base64::engine::general_purpose::URL_SAFE_NO_PAD, text).ok()
}

// ---------------------------------------------------------------------------
// aes-gcm
// ---------------------------------------------------------------------------

/// What AES-256-GCM opens of a sealed text, `None` where it was not sealed under this
/// key and nonce.
pub uninterp spec fn gcm_opened(key: Seq<u8>, nonce: Seq<u8>, sealed: Seq<u8>) -> Option<Seq<u8>>;

/// `decrypt` of `aes_gcm::Aes256Gcm`. A key has thirty-two bytes and a nonce twelve;
/// others are not taken.
#[verifier::external_body]
pub(crate) fn gcm_open(key: &[u8], nonce: &[u8], sealed: &[u8]) -> (r: Option<Vec<u8>>)
    requires
        key@.len() == 32,
        nonce@.len() == 12,
    ensures
        r is Some <==> gcm_opened(key@, nonce@, sealed@) is Some,
        r matches Some(b) ==> gcm_opened(key@, nonce@, sealed@) == Some(b@),
{
    let cipher = <aes_gcm::Aes256Gcm as aes_gcm::KeyInit>::new_from_slice(key).ok()?;
    aes_gcm::aead::Aead::decrypt(&cipher, aes_gcm::Nonce::from_slice(nonce), sealed).ok()
}

// ---------------------------------------------------------------------------
// qrcode
// ---------------------------------------------------------------------------

/// The text of a result, of either kind.
pub open spec fn either_text(r: Result<String, String>) -> Result<Seq<char>, Seq<char>> {
    match r {
        Ok(s) => Ok(s@),
        Err(s) => Err(s@),
    }
}

/// The picture that `qrcode` draws of a text, at least `side` wide and high, in two
/// colours; or what it says of a text that it cannot draw.
pub uninterp spec fn qr_picture(
    text: Seq<char>,
    side: u32,
    dark: Seq<char>,
    light: Seq<char>,
) -> Result<Seq<char>, Seq<char>>;

/// `qrcode::QrCode::new`, rendered as SVG. The sum of the side and the number of
/// modules is not to overflow.
#[verifier::external_body]
pub(crate) fn qr_svg(text: &str, side: u32, dark: &str, light: &str) -> (r: Result<String, String>)
    requires
        side <= 65_536,
    ensures
        either_text(r) == qr_picture(text@, side, dark@, light@),
{
    let code = qrcode::QrCode::new(text.as_bytes()).map_err(|e| e.to_string())?;
    let mut drawing = code.render::<qrcode::render::svg::Color>();
    let drawing = drawing.min_dimensions(side, side);
    let drawing = drawing.dark_color(qrcode::render::svg::Color(dark));
    Ok(drawing.light_color(qrcode::render::svg::Color(light)).build())
}

// ---------------------------------------------------------------------------
// sha2
// ---------------------------------------------------------------------------

/// The SHA-256 digest of bytes.
pub uninterp spec fn sha256_of(bytes: Seq<u8>) -> Seq<u8>;

/// `sha2::Sha256::digest`, thirty-two bytes.
#[verifier::external_body]
pub(crate) fn sha256(bytes: &[u8]) -> (r: Vec<u8>)
    ensures
        r@ == sha256_of(bytes@),
        r@.len() == 32,
{
    <sha2::Sha256 as sha2::Digest>::digest(bytes).to_vec()
}

// ---------------------------------------------------------------------------
// std
// ---------------------------------------------------------------------------

/// `std::str::from_utf8` reads bytes as UTF-8. Where they are none, the error says
/// after how many bytes at most they still were.
#[verifier::external_body]
pub(crate) fn read_utf8(bytes: &[u8]) -> (r: Result<String, usize>)
    ensures
        r is Ok <==> valid_utf8(bytes@),
        r matches Ok(s) ==> encode_utf8(s@) == bytes@,
        r matches Err(n) ==> n <= bytes@.len() && valid_utf8(bytes@.take(n as int)) && forall|k: int|
            n < k <= bytes@.len() ==> !valid_utf8(#[trigger] bytes@.take(k)),
{
    match std::str::from_utf8(bytes) {
        Ok(s) => Ok(s.to_owned()),
        Err(e) => Err(e.valid_up_to()),
    }
}

/// What `String::from_utf8_lossy` makes of bytes that are no UTF-8.
pub uninterp spec fn lossy_text(bytes: Seq<u8>) -> Seq<char>;

/// `String::from_utf8_lossy` reads bytes as UTF-8, with a replacement character
/// for what is none; bytes that are UTF-8 come out as the text they encode.
#[verifier::external_body]
pub(crate) fn utf8_lossy(bytes: &[u8]) -> (r: String)
    ensures
        valid_utf8(bytes@) ==> r@ == decode_utf8(bytes@),
        !valid_utf8(bytes@) ==> r@ == lossy_text(bytes@),
{
    String::from_utf8_lossy(bytes).into_owned()
}

/// What `str::to_lowercase` makes of a text.
pub uninterp spec fn lowercased(s: Seq<char>) -> Seq<char>;

/// `str::to_lowercase` gives the lowercase equivalent of a text by the Unicode
/// mappings; on ASCII alone that is the ASCII one.
#[verifier::external_body]
pub(crate) fn to_lowercase(s: &str) -> (r: String)
    ensures
        r@ == lowercased(s@),
        (forall|i: int| 0 <= i < s@.len() ==> crate::text::ascii(#[trigger] s@[i])) ==> r@
            == crate::text::lower(s@),
{
    s.to_lowercase()
}

} // verus!
