//! The payload that every platform's message is turned into.

use vstd::prelude::*;
use crate::json::{fields_of, opt_text, overlaid, Json, JsonV};
use crate::text::{
    blank, ends_with, has_suffix, is_blank, lower, same, text3, to_lower, trim, trimmed,
};

verus! {

// ---------------------------------------------------------------------------
// Addresses
// ---------------------------------------------------------------------------

/// Where a reply goes: `dm`, `channel`, `webhook` or `console`, and which one.
#[derive(Debug, PartialEq, Eq)]
pub struct ChannelAddress {
    pub kind: String,
    pub id: String,
    pub extra: Json,
}

/// The handle of an address: the one given, else kind and identifier.
pub open spec fn handle_of(kind: Seq<char>, id: Seq<char>, extra: JsonV) -> Seq<char> {
    match extra.text_at("to_handle"@) {
        Some(h) => h,
        None => if kind.len() == 0 {
            id
        } else {
            kind + ":"@ + id
        },
    }
}

impl ChannelAddress {
    pub fn handle(&self) -> (r: String)
        ensures
            r@ == handle_of(self.kind@, self.id@, self.extra@),
    {
        if let Some(h) = self.extra.text_at("to_handle") {
            return h.to_owned();
        }
        if self.kind.as_str().is_empty() {
            return self.id.clone();
        }
        text3(self.kind.as_str(), ":", self.id.as_str())
    }
}

// ---------------------------------------------------------------------------
// Media
// ---------------------------------------------------------------------------

#[derive(Debug, Clone, Copy, PartialEq, Eq, Structural)]
pub enum MediaKind {
    Image,
    Video,
    Audio,
}

/// A piece of media by its address. An empty type stands for the usual one of its
/// kind.
#[derive(Debug, PartialEq, Eq)]
pub struct MediaPart {
    pub kind: MediaKind,
    pub url: String,
    pub mime: String,
}

pub ghost struct MediaV {
    pub kind: MediaKind,
    pub url: Seq<char>,
    pub mime: Seq<char>,
}

impl View for MediaPart {
    type V = MediaV;

    open spec fn view(&self) -> MediaV {
        MediaV { kind: self.kind, url: self.url@, mime: self.mime@ }
    }
}

pub open spec fn media_view(v: Seq<MediaPart>) -> Seq<MediaV> {
    v.map_values(|m: MediaPart| m@)
}

// ---------------------------------------------------------------------------
// Content parts
// ---------------------------------------------------------------------------

/// One block of content.
#[derive(Debug, PartialEq, Eq)]
pub enum ContentPart {
    Text { text: String },
    Image { image_url: String, url: String, mime: String },
    Video { video_url: String, url: String, mime: String },
    Audio { audio_url: String, url: String, mime: String },
    File { file_url: String, file_id: String, name: String },
}

pub ghost enum PartV {
    Text { text: Seq<char> },
    Image { image_url: Seq<char>, url: Seq<char>, mime: Seq<char> },
    Video { video_url: Seq<char>, url: Seq<char>, mime: Seq<char> },
    Audio { audio_url: Seq<char>, url: Seq<char>, mime: Seq<char> },
    File { file_url: Seq<char>, file_id: Seq<char>, name: Seq<char> },
}

impl View for ContentPart {
    type V = PartV;

    open spec fn view(&self) -> PartV {
        match self {
            ContentPart::Text { text } => PartV::Text { text: text@ },
            ContentPart::Image { image_url, url, mime } => PartV::Image {
                image_url: image_url@,
                url: url@,
                mime: mime@,
            },
            ContentPart::Video { video_url, url, mime } => PartV::Video {
                video_url: video_url@,
                url: url@,
                mime: mime@,
            },
            ContentPart::Audio { audio_url, url, mime } => PartV::Audio {
                audio_url: audio_url@,
                url: url@,
                mime: mime@,
            },
            ContentPart::File { file_url, file_id, name } => PartV::File {
                file_url: file_url@,
                file_id: file_id@,
                name: name@,
            },
        }
    }
}

pub open spec fn parts_view(v: Seq<ContentPart>) -> Seq<PartV> {
    v.map_values(|p: ContentPart| p@)
}

/// A text without the space around it, where anything is left.
pub open spec fn nonempty_of(s: Seq<char>) -> Option<Seq<char>> {
    if trimmed(s).len() == 0 {
        None
    } else {
        Some(trimmed(s))
    }
}

/// The first of two texts that is not blank.
pub open spec fn either(a: Seq<char>, b: Seq<char>) -> Option<Seq<char>> {
    match nonempty_of(a) {
        Some(s) => Some(s),
        None => nonempty_of(b),
    }
}

pub fn nonempty(s: &str) -> (r: Option<String>)
    ensures
        opt_text(r) == nonempty_of(s@),
{
    let t = trim(s);
    if t.as_str().is_empty() {
        None
    } else {
        Some(t)
    }
}

fn either_of(a: &str, b: &str) -> (r: Option<String>)
    ensures
        opt_text(r) == either(a@, b@),
{
    match nonempty(a) {
        Some(s) => Some(s),
        None => nonempty(b),
    }
}

/// A file name in small letters that names a picture.
pub open spec fn image_name(l: Seq<char>) -> bool {
    has_suffix(l, ".png"@) || has_suffix(l, ".jpg"@) || has_suffix(l, ".jpeg"@) || has_suffix(
        l,
        ".webp"@,
    ) || has_suffix(l, ".gif"@)
}

/// A file name in small letters that names a film.
pub open spec fn video_name(l: Seq<char>) -> bool {
    has_suffix(l, ".mp4"@) || has_suffix(l, ".webm"@)
}

/// The media of a part, where it has any.
pub open spec fn media_of(p: PartV) -> Option<MediaV> {
    match p {
        PartV::Text { text } => None,
        PartV::Image { image_url, url, mime } => match either(image_url, url) {
            Some(u) => Some(MediaV { kind: MediaKind::Image, url: u, mime }),
            None => None,
        },
        PartV::Video { video_url, url, mime } => match either(video_url, url) {
            Some(u) => Some(MediaV { kind: MediaKind::Video, url: u, mime }),
            None => None,
        },
        PartV::Audio { audio_url, url, mime } => match either(audio_url, url) {
            Some(u) => Some(
                MediaV {
                    kind: MediaKind::Audio,
                    url: u,
                    mime: if mime.len() == 0 {
                        "audio/wav"@
                    } else {
                        mime
                    },
                },
            ),
            None => None,
        },
        PartV::File { file_url, file_id, name } => match nonempty_of(file_url) {
            Some(u) => if video_name(lower(name)) {
                Some(MediaV { kind: MediaKind::Video, url: u, mime: Seq::empty() })
            } else if image_name(lower(name)) {
                Some(MediaV { kind: MediaKind::Image, url: u, mime: Seq::empty() })
            } else {
                None
            },
            None => None,
        },
    }
}

/// What stands for a part in a text.
pub open spec fn fallback_of(p: PartV) -> Option<Seq<char>> {
    match p {
        PartV::Text { text } => None,
        PartV::Image { image_url, url, mime } => match either(image_url, url) {
            Some(u) => Some("[Image: "@ + u + "]"@),
            None => None,
        },
        PartV::Video { video_url, url, mime } => match either(video_url, url) {
            Some(u) => Some("[Video: "@ + u + "]"@),
            None => None,
        },
        PartV::Audio { audio_url, url, mime } => Some("[Audio]"@),
        PartV::File { file_url, file_id, name } => Some(
            "[File: "@ + (if name.len() > 0 {
                name
            } else if file_id.len() > 0 {
                file_id
            } else {
                match nonempty_of(file_url) {
                    Some(u) => u,
                    None => "file"@,
                }
            }) + "]"@,
        ),
    }
}

pub open spec fn part_text(p: PartV) -> Option<Seq<char>> {
    match p {
        PartV::Text { text } => Some(text),
        _ => None,
    }
}

impl ContentPart {
    pub fn text(s: &str) -> (r: ContentPart)
        ensures
            r@ == (PartV::Text { text: s@ }),
    {
        ContentPart::Text { text: s.to_owned() }
    }

    pub fn as_text(&self) -> (r: Option<&str>)
        ensures
            r is Some <==> part_text(self@) is Some,
            r matches Some(s) ==> part_text(self@) == Some(s@),
    {
        match self {
            ContentPart::Text { text } => Some(text.as_str()),
            _ => None,
        }
    }

    /// The same part again.
    pub fn copy(&self) -> (r: ContentPart)
        ensures
            r@ == self@,
    {
        match self {
            ContentPart::Text { text } => ContentPart::Text { text: text.clone() },
            ContentPart::Image { image_url, url, mime } => ContentPart::Image {
                image_url: image_url.clone(),
                url: url.clone(),
                mime: mime.clone(),
            },
            ContentPart::Video { video_url, url, mime } => ContentPart::Video {
                video_url: video_url.clone(),
                url: url.clone(),
                mime: mime.clone(),
            },
            ContentPart::Audio { audio_url, url, mime } => ContentPart::Audio {
                audio_url: audio_url.clone(),
                url: url.clone(),
                mime: mime.clone(),
            },
            ContentPart::File { file_url, file_id, name } => ContentPart::File {
                file_url: file_url.clone(),
                file_id: file_id.clone(),
                name: name.clone(),
            },
        }
    }

    /// The media of the part, where it has any.
    pub fn media_part(&self) -> (r: Option<MediaPart>)
        ensures
            r is Some <==> media_of(self@) is Some,
            r matches Some(m) ==> media_of(self@) == Some(m@),
    {
        match self {
            ContentPart::Text { text } => None,
            ContentPart::Image { image_url, url, mime } => match either_of(
                image_url.as_str(),
                url.as_str(),
            ) {
                Some(u) => Some(
                    MediaPart { kind: MediaKind::Image, url: u, mime: mime.clone() },
                ),
                None => None,
            },
            ContentPart::Video { video_url, url, mime } => match either_of(
                video_url.as_str(),
                url.as_str(),
            ) {
                Some(u) => Some(
                    MediaPart { kind: MediaKind::Video, url: u, mime: mime.clone() },
                ),
                None => None,
            },
            ContentPart::Audio { audio_url, url, mime } => match either_of(
                audio_url.as_str(),
                url.as_str(),
            ) {
                Some(u) => {
                    let m: String = if mime.as_str().is_empty() {
                        "audio/wav".to_owned()
                    } else {
                        mime.clone()
                    };
                    Some(MediaPart { kind: MediaKind::Audio, url: u, mime: m })
                },
                None => None,
            },
            ContentPart::File { file_url, file_id, name } => {
                let u: String = match nonempty(file_url.as_str()) {
                    Some(u) => u,
                    None => {
                        return None;
                    },
                };
                let lo = to_lower(name.as_str());
                let l = lo.as_str();
                if ends_with(l, ".mp4") || ends_with(l, ".webm") {
                    Some(MediaPart { kind: MediaKind::Video, url: u, mime: String::new() })
                } else if ends_with(l, ".png") || ends_with(l, ".jpg") || ends_with(l, ".jpeg")
                    || ends_with(l, ".webp") || ends_with(l, ".gif") {
                    Some(MediaPart { kind: MediaKind::Image, url: u, mime: String::new() })
                } else {
                    None
                }
            },
        }
    }

    /// What stands for the part in a text.
    pub fn fallback_line(&self) -> (r: Option<String>)
        ensures
            opt_text(r) == fallback_of(self@),
    {
        match self {
            ContentPart::Text { text } => None,
            ContentPart::Image { image_url, url, mime } => match either_of(
                image_url.as_str(),
                url.as_str(),
            ) {
                Some(u) => Some(text3("[Image: ", u.as_str(), "]")),
                None => None,
            },
            ContentPart::Video { video_url, url, mime } => match either_of(
                video_url.as_str(),
                url.as_str(),
            ) {
                Some(u) => Some(text3("[Video: ", u.as_str(), "]")),
                None => None,
            },
            ContentPart::Audio { audio_url, url, mime } => Some("[Audio]".to_owned()),
            ContentPart::File { file_url, file_id, name } => {
                let label: String = if !name.as_str().is_empty() {
                    name.clone()
                } else if !file_id.as_str().is_empty() {
                    file_id.clone()
                } else {
                    match nonempty(file_url.as_str()) {
                        Some(u) => u,
                        None => "file".to_owned(),
                    }
                };
                Some(text3("[File: ", label.as_str(), "]"))
            },
        }
    }
}

/// A list of parts again.
pub fn copy_parts(v: &Vec<ContentPart>) -> (r: Vec<ContentPart>)
    ensures
        parts_view(r@) == parts_view(v@),
{
    let mut out: Vec<ContentPart> = Vec::new();
    let mut i: usize = 0;
    while i < v.len()
        invariant
            i <= v@.len(),
            parts_view(out@) =~= parts_view(v@).take(i as int),
        decreases v.len() - i,
    {
        let ghost before = out@;
        let p = v[i].copy();
        out.push(p);
        assert(parts_view(out@) =~= parts_view(before).push(p@));
        assert(parts_view(v@)[i as int] == p@);
        i = i + 1;
    }
    assert(parts_view(out@) =~= parts_view(v@));
    out
}

// ---------------------------------------------------------------------------
// Payloads
// ---------------------------------------------------------------------------

/// A message as it goes into a queue.
#[derive(Debug, PartialEq, Eq)]
pub struct NativePayload {
    pub channel: String,
    pub sender_id: String,
    pub sender_name: String,
    pub session_id: String,
    pub content_parts: Vec<ContentPart>,
    /// For a message that is only a text.
    pub text: String,
    pub prompt: String,
    /// What else the platform said, as an object.
    pub meta: Json,
}

pub ghost struct PayloadV {
    pub channel: Seq<char>,
    pub sender_id: Seq<char>,
    pub sender_name: Seq<char>,
    pub session_id: Seq<char>,
    pub content_parts: Seq<PartV>,
    pub text: Seq<char>,
    pub prompt: Seq<char>,
    pub meta: JsonV,
}

impl View for NativePayload {
    type V = PayloadV;

    open spec fn view(&self) -> PayloadV {
        PayloadV {
            channel: self.channel@,
            sender_id: self.sender_id@,
            sender_name: self.sender_name@,
            session_id: self.session_id@,
            content_parts: parts_view(self.content_parts@),
            text: self.text@,
            prompt: self.prompt@,
            meta: self.meta@,
        }
    }
}

/// A payload that says nothing.
pub open spec fn blank_payload() -> PayloadV {
    PayloadV {
        channel: Seq::empty(),
        sender_id: Seq::empty(),
        sender_name: Seq::empty(),
        session_id: Seq::empty(),
        content_parts: Seq::empty(),
        text: Seq::empty(),
        prompt: Seq::empty(),
        meta: JsonV::Object(Map::empty()),
    }
}

/// A text that says yes.
pub open spec fn yes_text(s: Seq<char>) -> bool {
    lower(s) == "1"@ || lower(s) == "true"@ || lower(s) == "yes"@
}

/// A value that says yes: the truth value, one of the words, or the number one.
pub open spec fn says_yes(v: JsonV) -> bool {
    match v {
        JsonV::Bool(b) => b,
        JsonV::Str(s) => yes_text(s),
        JsonV::Int(n) => n == 1,
        _ => false,
    }
}

/// Whether a value says yes.
pub fn boolish(v: &Json) -> (r: bool)
    ensures
        r == says_yes(v@),
{
    match v {
        Json::Bool(b) => *b,
        Json::Str(s) => {
            let l = to_lower(s.as_str());
            same(l.as_str(), "1") || same(l.as_str(), "true") || same(l.as_str(), "yes")
        },
        Json::Uint(n) => *n == 1,
        Json::Nint(n) => *n == 1,
        _ => false,
    }
}

pub open spec fn bool_at(meta: JsonV, key: Seq<char>) -> bool {
    says_yes(meta.at(key))
}

/// The text or number under a key, where it is not empty.
pub open spec fn string_at(meta: JsonV, key: Seq<char>) -> Option<Seq<char>> {
    match meta.at(key) {
        JsonV::Str(s) => if s.len() > 0 {
            Some(s)
        } else {
            None
        },
        v => v.number_text(),
    }
}

fn bool_meta(meta: &Json, key: &str) -> (r: bool)
    ensures
        r == bool_at(meta@, key@),
{
    match meta.get(key) {
        Some(v) => boolish(v),
        None => false,
    }
}

fn string_meta(meta: &Json, key: &str) -> (r: Option<String>)
    ensures
        opt_text(r) == string_at(meta@, key@),
{
    match meta.get(key) {
        Some(Json::Str(s)) => if s.as_str().is_empty() {
            None
        } else {
            Some(s.clone())
        },
        Some(v) => v.number_text(),
        None => None,
    }
}

/// A line added to those before it; nothing before it takes no line break.
pub open spec fn add_line(before: Seq<char>, line: Seq<char>) -> Seq<char> {
    if before.len() > 0 {
        before.push('\n') + line
    } else {
        before + line
    }
}

/// The texts of the parts, a line each.
pub open spec fn text_lines(parts: Seq<PartV>) -> Seq<char>
    decreases parts.len(),
{
    if parts.len() == 0 {
        Seq::empty()
    } else {
        let before = text_lines(parts.drop_last());
        match part_text(parts.last()) {
            Some(t) => add_line(before, t),
            None => before,
        }
    }
}

/// What stands for the parts that are no text, a line each.
pub open spec fn fallback_lines(parts: Seq<PartV>) -> Seq<char>
    decreases parts.len(),
{
    if parts.len() == 0 {
        Seq::empty()
    } else {
        let before = fallback_lines(parts.drop_last());
        match fallback_of(parts.last()) {
            Some(t) => add_line(before, t),
            None => before,
        }
    }
}

/// The media of the parts.
pub open spec fn all_media(parts: Seq<PartV>) -> Seq<MediaV>
    decreases parts.len(),
{
    if parts.len() == 0 {
        Seq::empty()
    } else {
        let before = all_media(parts.drop_last());
        match media_of(parts.last()) {
            Some(m) => before.push(m),
            None => before,
        }
    }
}

impl PayloadV {
    /// The parts of a payload: those given, else its text, else its prompt.
    pub open spec fn parts(self) -> Seq<PartV> {
        let t = if self.text.len() > 0 {
            self.text
        } else {
            self.prompt
        };
        if self.content_parts.len() > 0 {
            self.content_parts
        } else if t.len() > 0 {
            seq![PartV::Text { text: t }]
        } else {
            Seq::empty()
        }
    }

    /// What a payload says: its texts, else what stands for the rest.
    pub open spec fn query(self) -> Seq<char> {
        let t = text_lines(self.parts());
        if t.len() > 0 {
            t
        } else {
            fallback_lines(self.parts())
        }
    }

    pub open spec fn group(self) -> bool {
        bool_at(self.meta, "is_group"@)
    }

    pub open spec fn mentioned(self) -> bool {
        bool_at(self.meta, "is_mentioned"@) || bool_at(self.meta, "is_reply_to_bot"@)
    }

    /// The chat that a payload came from, else who sent it.
    pub open spec fn chat(self) -> Seq<char> {
        match string_at(self.meta, "chat_id"@) {
            Some(s) => s,
            None => match string_at(self.meta, "conversation_id"@) {
                Some(s) => s,
                None => self.sender_id,
            },
        }
    }

    pub open spec fn reply_to(self) -> Option<Seq<char>> {
        match string_at(self.meta, "reply_url"@) {
            Some(s) => Some(s),
            None => string_at(self.meta, "session_webhook"@),
        }
    }

    /// The conversation that a payload belongs to: one for each group, one for each
    /// sender outside groups.
    pub open spec fn route(self) -> Seq<char> {
        let ch = if self.channel.len() == 0 {
            "webhook"@
        } else {
            self.channel
        };
        if self.group() {
            ch + ":g:"@ + self.chat()
        } else {
            ch + ":dm:"@ + if self.sender_id.len() == 0 {
                self.chat()
            } else {
                self.sender_id
            }
        }
    }

    /// This payload with a later one of the same conversation added.
    pub open spec fn joined_with(self, next: PayloadV) -> PayloadV {
        PayloadV {
            content_parts: self.content_parts + next.parts(),
            sender_id: if self.sender_id.len() == 0 {
                next.sender_id
            } else {
                self.sender_id
            },
            sender_name: if self.sender_name.len() == 0 {
                next.sender_name
            } else {
                self.sender_name
            },
            session_id: if self.session_id.len() == 0 {
                next.session_id
            } else {
                self.session_id
            },
            meta: if next.meta is Object {
                JsonV::Object(overlaid(fields_of(self.meta), next.meta))
            } else {
                self.meta
            },
            ..self
        }
    }
}

/// The first payload with the others added in order.
pub open spec fn all_joined(items: Seq<PayloadV>) -> PayloadV
    decreases items.len(),
{
    if items.len() <= 1 {
        items[0]
    } else {
        all_joined(items.drop_last()).joined_with(items.last())
    }
}

pub open spec fn payloads_view(v: Seq<NativePayload>) -> Seq<PayloadV> {
    v.map_values(|p: NativePayload| p@)
}

/// A message of the user for the model.
#[derive(Debug, PartialEq, Eq)]
pub struct ChatMessage {
    pub role: String,
    pub content: String,
    pub parts: Vec<MediaPart>,
}

impl NativePayload {
    /// A payload that says nothing.
    pub fn new() -> (r: NativePayload)
        ensures
            r@ == blank_payload(),
    {
        let content_parts: Vec<ContentPart> = Vec::new();
        assert(parts_view(content_parts@) =~= Seq::empty());
        NativePayload {
            channel: String::new(),
            sender_id: String::new(),
            sender_name: String::new(),
            session_id: String::new(),
            content_parts,
            text: String::new(),
            prompt: String::new(),
            meta: Json::object(),
        }
    }

    /// The same payload again.
    pub fn copy(&self) -> (r: NativePayload)
        ensures
            r@ == self@,
    {
        NativePayload {
            channel: self.channel.clone(),
            sender_id: self.sender_id.clone(),
            sender_name: self.sender_name.clone(),
            session_id: self.session_id.clone(),
            content_parts: copy_parts(&self.content_parts),
            text: self.text.clone(),
            prompt: self.prompt.clone(),
            meta: self.meta.copy(),
        }
    }

    /// A message that is only a text.
    pub fn text_only(channel: &str, text: &str) -> (r: NativePayload)
        ensures
            r@ == (PayloadV {
                channel: channel@,
                content_parts: seq![PartV::Text { text: text@ }],
                text: text@,
                ..blank_payload()
            }),
    {
        let mut p = NativePayload::new();
        p.channel = channel.to_owned();
        let mut parts: Vec<ContentPart> = Vec::new();
        let t = ContentPart::text(text);
        parts.push(t);
        assert(parts_view(parts@) =~= seq![t@]);
        p.content_parts = parts;
        p.text = text.to_owned();
        p
    }

    /// The parts of the payload.
    pub fn parts(&self) -> (r: Vec<ContentPart>)
        ensures
            parts_view(r@) == self@.parts(),
    {
        assert(parts_view(self.content_parts@).len() == self.content_parts@.len());
        if self.content_parts.len() > 0 {
            return copy_parts(&self.content_parts);
        }
        let t: &String = if !self.text.as_str().is_empty() {
            &self.text
        } else {
            &self.prompt
        };
        let mut out: Vec<ContentPart> = Vec::new();
        if !t.as_str().is_empty() {
            let p = ContentPart::text(t.as_str());
            out.push(p);
            assert(parts_view(out@) =~= seq![p@]);
        } else {
            assert(parts_view(out@) =~= Seq::empty());
        }
        out
    }

    /// What the payload says.
    pub fn query_text(&self) -> (r: String)
        ensures
            r@ == self@.query(),
    {
        let parts = self.parts();
        let ghost ps = parts_view(parts@);
        let mut out: String = String::new();
        let mut i: usize = 0;
        while i < parts.len()
            invariant
                i <= parts@.len(),
                ps == parts_view(parts@),
                out@ == text_lines(ps.take(i as int)),
            decreases parts.len() - i,
        {
            assert(ps.take(i + 1).drop_last() =~= ps.take(i as int));
            assert(ps.take(i + 1).last() == parts@[i as int]@);
            if let Some(t) = parts[i].as_text() {
                if !out.as_str().is_empty() {
                    out.push('\n');
                }
                out.append(t);
            }
            i = i + 1;
        }
        assert(ps.take(i as int) =~= ps);
        if !out.as_str().is_empty() {
            return out;
        }
        let mut i: usize = 0;
        let mut out: String = String::new();
        while i < parts.len()
            invariant
                i <= parts@.len(),
                ps == parts_view(parts@),
                out@ == fallback_lines(ps.take(i as int)),
            decreases parts.len() - i,
        {
            assert(ps.take(i + 1).drop_last() =~= ps.take(i as int));
            assert(ps.take(i + 1).last() == parts@[i as int]@);
            if let Some(t) = parts[i].fallback_line() {
                if !out.as_str().is_empty() {
                    out.push('\n');
                }
                out.append(t.as_str());
            }
            i = i + 1;
        }
        assert(ps.take(i as int) =~= ps);
        out
    }

    /// The media of the payload.
    pub fn media_parts(&self) -> (r: Vec<MediaPart>)
        ensures
            media_view(r@) == all_media(self@.parts()),
    {
        let parts = self.parts();
        let ghost ps = parts_view(parts@);
        let mut out: Vec<MediaPart> = Vec::new();
        let mut i: usize = 0;
        assert(media_view(out@) =~= Seq::empty());
        while i < parts.len()
            invariant
                i <= parts@.len(),
                ps == parts_view(parts@),
                media_view(out@) == all_media(ps.take(i as int)),
            decreases parts.len() - i,
        {
            assert(ps.take(i + 1).drop_last() =~= ps.take(i as int));
            assert(ps.take(i + 1).last() == parts@[i as int]@);
            if let Some(m) = parts[i].media_part() {
                let ghost before = out@;
                out.push(m);
                assert(media_view(out@) =~= media_view(before).push(m@));
            }
            i = i + 1;
        }
        assert(ps.take(i as int) =~= ps);
        out
    }

    /// The payload as a message for the model, never without text.
    pub fn to_chat_message(&self) -> (r: ChatMessage)
        ensures
            r.role@ == "user"@,
            r.content@ == (if blank(self@.query()) {
                " "@
            } else {
                self@.query()
            }),
            media_view(r.parts@) == all_media(self@.parts()),
    {
        let mut content = self.query_text();
        if is_blank(content.as_str()) {
            content = " ".to_owned();
        }
        ChatMessage { role: "user".to_owned(), content, parts: self.media_parts() }
    }

    pub fn is_group(&self) -> (r: bool)
        ensures
            r == self@.group(),
    {
        bool_meta(&self.meta, "is_group")
    }

    pub fn is_mentioned(&self) -> (r: bool)
        ensures
            r == self@.mentioned(),
    {
        bool_meta(&self.meta, "is_mentioned") || bool_meta(&self.meta, "is_reply_to_bot")
    }

    /// The chat that the payload came from, else who sent it.
    pub fn chat_id(&self) -> (r: String)
        ensures
            r@ == self@.chat(),
    {
        match string_meta(&self.meta, "chat_id") {
            Some(s) => s,
            None => match string_meta(&self.meta, "conversation_id") {
                Some(s) => s,
                None => self.sender_id.clone(),
            },
        }
    }

    pub fn reply_url(&self) -> (r: Option<String>)
        ensures
            opt_text(r) == self@.reply_to(),
    {
        match string_meta(&self.meta, "reply_url") {
            Some(s) => Some(s),
            None => string_meta(&self.meta, "session_webhook"),
        }
    }

    /// The conversation that the payload belongs to.
    pub fn route_key(&self) -> (r: String)
        ensures
            r@ == self@.route(),
    {
        let ch: String = if self.channel.as_str().is_empty() {
            "webhook".to_owned()
        } else {
            self.channel.clone()
        };
        if self.is_group() {
            text3(ch.as_str(), ":g:", self.chat_id().as_str())
        } else {
            let who: String = if self.sender_id.as_str().is_empty() {
                self.chat_id()
            } else {
                self.sender_id.clone()
            };
            text3(ch.as_str(), ":dm:", who.as_str())
        }
    }

    fn join_with(&mut self, next: NativePayload)
        ensures
            final(self)@ == old(self)@.joined_with(next@),
    {
        let ghost before = self.content_parts@;
        let mut more = next.parts();
        let ghost added = more@;
        self.content_parts.append(&mut more);
        assert(parts_view(self.content_parts@) =~= parts_view(before) + parts_view(added));
        self.meta.overlay(&next.meta);
        if self.sender_id.as_str().is_empty() {
            self.sender_id = next.sender_id;
        }
        if self.sender_name.as_str().is_empty() {
            self.sender_name = next.sender_name;
        }
        if self.session_id.as_str().is_empty() {
            self.session_id = next.session_id;
        }
    }

    /// Several payloads of one conversation as one.
    pub fn merge(items: Vec<NativePayload>) -> (r: Option<NativePayload>)
        ensures
            r is None <==> items@.len() == 0,
            r matches Some(p) ==> p@ == (PayloadV {
                text: Seq::empty(),
                prompt: Seq::empty(),
                ..all_joined(payloads_view(items@))
            }),
    {
        let ghost all = payloads_view(items@);
        let ghost own = items@;
        let mut rest = items;
        if rest.len() == 0 {
            return None;
        }
        let n: usize = rest.len();
        let mut first = rest.remove(0);
        let mut i: usize = 1;
        assert(all.take(1)[0] == first@);
        assert(rest@ =~= own.skip(1));
        while i < n
            invariant
                1 <= i <= n == own.len(),
                all == payloads_view(own),
                rest@ == own.skip(i as int),
                first@ == all_joined(all.take(i as int)),
            decreases n - i,
        {
            let next = rest.remove(0);
            assert(next == own[i as int]);
            assert(rest@ =~= own.skip(i + 1));
            assert(all.take(i + 1).drop_last() =~= all.take(i as int));
            assert(all.take(i + 1).last() == next@);
            first.join_with(next);
            i = i + 1;
        }
        assert(all.take(i as int) =~= all);
        first.text = String::new();
        first.prompt = String::new();
        Some(first)
    }
}

/// What a payload consists of: the parts that it was given, else its text, else its prompt,
/// else nothing.
pub proof fn law_what_a_payload_consists_of(p: PayloadV)
    ensures
        p.content_parts.len() > 0 ==> p.parts() == p.content_parts,
        p.content_parts.len() == 0 && p.text.len() > 0 ==> p.parts() == seq![
            PartV::Text { text: p.text },
        ],
        p.content_parts.len() == 0 && p.text.len() == 0 && p.prompt.len() > 0 ==> p.parts() == seq![
            PartV::Text { text: p.prompt },
        ],
        p.content_parts.len() == 0 && p.text.len() == 0 && p.prompt.len() == 0 ==> p.parts().len()
            == 0,
{
}

/// The texts of a payload are put together line by line, and what is no text stands in for
/// them only where there is none.
pub proof fn law_what_a_payload_says(ps: Seq<PartV>, t: Seq<char>, x: PartV, p: PayloadV)
    ensures
        text_lines(Seq::empty()).len() == 0,
        text_lines(ps).len() == 0 ==> text_lines(ps.push(PartV::Text { text: t })) == t,
        text_lines(ps).len() > 0 ==> text_lines(ps.push(PartV::Text { text: t })) == text_lines(
            ps,
        ).push('\n') + t,
        !(x is Text) ==> text_lines(ps.push(x)) == text_lines(ps),
        text_lines(p.parts()).len() > 0 ==> p.query() == text_lines(p.parts()),
        text_lines(p.parts()).len() == 0 ==> p.query() == fallback_lines(p.parts()),
{
    let y = PartV::Text { text: t };
    assert(ps.push(y).drop_last() =~= ps);
    assert(ps.push(x).drop_last() =~= ps);
    if text_lines(ps).len() == 0 {
        assert(text_lines(ps) + t =~= t);
    }
}

/// What stands for a part that is no text: its address or its name in brackets.
pub proof fn law_what_stands_for_media(u: Seq<char>, mime: Seq<char>, name: Seq<char>, e: Seq<char>)
    requires
        trimmed(u).len() > 0,
        e.len() == 0,
        name.len() > 0,
    ensures
        fallback_of(PartV::Image { image_url: u, url: e, mime }) == Some(
            "[Image: "@ + trimmed(u) + "]"@,
        ),
        fallback_of(PartV::Image { image_url: e, url: u, mime }) == Some(
            "[Image: "@ + trimmed(u) + "]"@,
        ),
        fallback_of(PartV::Image { image_url: e, url: e, mime }) is None,
        fallback_of(PartV::Video { video_url: u, url: e, mime }) == Some(
            "[Video: "@ + trimmed(u) + "]"@,
        ),
        fallback_of(PartV::Audio { audio_url: u, url: e, mime }) == Some("[Audio]"@),
        fallback_of(PartV::File { file_url: u, file_id: e, name }) == Some(
            "[File: "@ + name + "]"@,
        ),
        fallback_of(PartV::File { file_url: u, file_id: name, name: e }) == Some(
            "[File: "@ + name + "]"@,
        ),
        fallback_of(PartV::File { file_url: u, file_id: e, name: e }) == Some(
            "[File: "@ + trimmed(u) + "]"@,
        ),
        fallback_of(PartV::Text { text: u }) is None,
{
    assert(e =~= Seq::<char>::empty());
    assert(trimmed(e) =~= e);
}

/// The media of a part: pictures, films and sounds by their own address, else by the plain
/// one, and files by their name.
pub proof fn law_which_media_a_part_has(u: Seq<char>, v: Seq<char>, mime: Seq<char>, name: Seq<char>)
    requires
        trimmed(u).len() > 0,
        mime.len() > 0,
    ensures
        media_of(PartV::Image { image_url: u, url: v, mime }) == Some(
            MediaV { kind: MediaKind::Image, url: trimmed(u), mime },
        ),
        trimmed(v).len() == 0 ==> media_of(PartV::Image { image_url: v, url: u, mime }) == Some(
            MediaV { kind: MediaKind::Image, url: trimmed(u), mime },
        ),
        media_of(PartV::Video { video_url: u, url: v, mime }) == Some(
            MediaV { kind: MediaKind::Video, url: trimmed(u), mime },
        ),
        media_of(PartV::Audio { audio_url: u, url: v, mime }) == Some(
            MediaV { kind: MediaKind::Audio, url: trimmed(u), mime },
        ),
        media_of(PartV::Audio { audio_url: u, url: v, mime: Seq::empty() }) == Some(
            MediaV { kind: MediaKind::Audio, url: trimmed(u), mime: "audio/wav"@ },
        ),
        has_suffix(lower(name), ".mp4"@) || has_suffix(lower(name), ".webm"@) ==> (media_of(
            PartV::File { file_url: u, file_id: v, name },
        ) matches Some(m) && m.kind == MediaKind::Video && m.url == trimmed(u)),
        has_suffix(lower(name), ".png"@) && !has_suffix(lower(name), ".mp4"@) && !has_suffix(
            lower(name),
            ".webm"@,
        ) ==> (media_of(PartV::File { file_url: u, file_id: v, name }) matches Some(m) && m.kind
            == MediaKind::Image && m.url == trimmed(u)),
        media_of(PartV::Text { text: u }) is None,
{
}

/// The media of a payload are those of its parts, in order.
pub proof fn law_media_come_in_order(ps: Seq<PartV>, x: PartV)
    ensures
        all_media(Seq::empty()).len() == 0,
        media_of(x) matches Some(m) ==> all_media(ps.push(x)) == all_media(ps).push(m),
        media_of(x) is None ==> all_media(ps.push(x)) == all_media(ps),
{
    assert(ps.push(x).drop_last() =~= ps);
}

/// What says yes: the truth value, the number one, and the words for it in letters of any
/// case.
pub proof fn law_what_says_yes(s: Seq<char>, n: int)
    ensures
        says_yes(JsonV::Bool(true)) && !says_yes(JsonV::Bool(false)),
        says_yes(JsonV::Int(n)) <==> n == 1,
        says_yes(JsonV::Str(s)) <==> lower(s) == "1"@ || lower(s) == "true"@ || lower(s) == "yes"@,
        !says_yes(JsonV::Null),
{
}

/// A message counts as one of a group, and as one that names the bot, by its marks.
pub proof fn law_how_a_message_is_marked(p: PayloadV)
    ensures
        p.group() <==> says_yes(p.meta.at("is_group"@)),
        p.mentioned() <==> says_yes(p.meta.at("is_mentioned"@)) || says_yes(
            p.meta.at("is_reply_to_bot"@),
        ),
{
}

/// A conversation is known by its channel and, in a group, by the chat, else by the sender:
/// two senders are two conversations, unless they write in one group.
pub proof fn law_what_makes_a_conversation(p: PayloadV, q: PayloadV)
    requires
        p.channel == q.channel,
        p.channel.len() > 0,
    ensures
        p.group() && q.group() && p.chat() == q.chat() ==> p.route() == q.route(),
        p.group() && q.group() && p.chat() != q.chat() ==> p.route() != q.route(),
        !p.group() && !q.group() && p.sender_id.len() > 0 && q.sender_id.len() > 0 && p.sender_id
            != q.sender_id ==> p.route() != q.route(),
        !p.group() && !q.group() && p.sender_id.len() > 0 && p.sender_id == q.sender_id
            ==> p.route() == q.route(),
        !p.group() && p.sender_id.len() > 0 ==> p.route() == p.channel + ":dm:"@ + p.sender_id,
        p.group() ==> p.route() == p.channel + ":g:"@ + p.chat(),
{
    if p.group() && q.group() && p.chat() != q.chat() {
        lemma_tail_differs(p.channel + ":g:"@, p.chat(), q.chat());
    }
    if !p.group() && !q.group() && p.sender_id.len() > 0 && q.sender_id.len() > 0 && p.sender_id
        != q.sender_id {
        lemma_tail_differs(p.channel + ":dm:"@, p.sender_id, q.sender_id);
    }
}

proof fn lemma_tail_differs(a: Seq<char>, x: Seq<char>, y: Seq<char>)
    requires
        x != y,
    ensures
        a + x != a + y,
{
    if a + x == a + y {
        assert((a + x).skip(a.len() as int) =~= x);
        assert((a + y).skip(a.len() as int) =~= y);
    }
}

/// The chat of a message is the one that it names, under either name, else its sender; an
/// answer goes to the address that it names.
pub proof fn law_where_a_message_came_from(p: PayloadV, s: Seq<char>)
    requires
        s.len() > 0,
    ensures
        p.meta.at("chat_id"@) == JsonV::Str(s) ==> p.chat() == s,
        p.meta.field("chat_id"@) is None && p.meta.at("conversation_id"@) == JsonV::Str(s)
            ==> p.chat() == s,
        p.meta.field("chat_id"@) is None && p.meta.field("conversation_id"@) is None ==> p.chat()
            == p.sender_id,
        p.meta.at("reply_url"@) == JsonV::Str(s) ==> p.reply_to() == Some(s),
        p.meta.field("reply_url"@) is None && p.meta.at("session_webhook"@) == JsonV::Str(s)
            ==> p.reply_to() == Some(s),
        p.meta.field("reply_url"@) is None && p.meta.field("session_webhook"@) is None
            ==> p.reply_to() is None,
{
}

/// Messages of one conversation are put together in order: all their parts are there, and
/// who sent them is who sent the first.
pub proof fn law_messages_are_put_together(p: PayloadV, q: PayloadV, items: Seq<PayloadV>)
    ensures
        p.joined_with(q).content_parts == p.content_parts + q.parts(),
        p.sender_id.len() > 0 ==> p.joined_with(q).sender_id == p.sender_id,
        p.sender_id.len() == 0 ==> p.joined_with(q).sender_id == q.sender_id,
        p.session_id.len() > 0 ==> p.joined_with(q).session_id == p.session_id,
        p.session_id.len() == 0 ==> p.joined_with(q).session_id == q.session_id,
        p.joined_with(q).channel == p.channel,
        p.joined_with(q).text == p.text,
        items.len() > 0 ==> all_joined(items.push(q)) == all_joined(items).joined_with(q),
        all_joined(seq![p]) == p,
{
    assert(items.push(q).drop_last() =~= items);
}

/// The handle of an address is the one that it was given, else its kind and its identifier.
pub proof fn law_what_an_address_is_called(kind: Seq<char>, id: Seq<char>, extra: JsonV)
    ensures
        extra.text_at("to_handle"@) matches Some(h) ==> handle_of(kind, id, extra) == h,
        extra.text_at("to_handle"@) is None && kind.len() > 0 ==> handle_of(kind, id, extra) == kind
            + ":"@ + id,
        extra.text_at("to_handle"@) is None && kind.len() == 0 ==> handle_of(kind, id, extra) == id,
{
}

/// A message without a channel came through a web hook; one without a sender is known by its
/// chat.
pub proof fn law_conversations_without_a_name(p: PayloadV)
    ensures
        p.channel.len() == 0 && p.group() ==> p.route() == "webhook"@ + ":g:"@ + p.chat(),
        p.channel.len() == 0 && !p.group() && p.sender_id.len() > 0 ==> p.route() == "webhook"@
            + ":dm:"@ + p.sender_id,
        p.channel.len() > 0 && !p.group() && p.sender_id.len() == 0 ==> p.route() == p.channel
            + ":dm:"@ + p.chat(),
{
}

/// A file is shown as a picture by any of five endings of its name, in letters of any case,
/// and as no media at all by an ending that is neither that of a picture nor of a film.
pub proof fn law_which_files_are_pictures(u: Seq<char>, id: Seq<char>, name: Seq<char>)
    requires
        trimmed(u).len() > 0,
        !has_suffix(lower(name), ".mp4"@),
        !has_suffix(lower(name), ".webm"@),
    ensures
        ({
            let l = lower(name);
            let m = media_of(PartV::File { file_url: u, file_id: id, name });
            let picture = Some(
                MediaV { kind: MediaKind::Image, url: trimmed(u), mime: Seq::empty() },
            );
            &&& has_suffix(l, ".png"@) ==> m == picture
            &&& has_suffix(l, ".jpg"@) ==> m == picture
            &&& has_suffix(l, ".jpeg"@) ==> m == picture
            &&& has_suffix(l, ".webp"@) ==> m == picture
            &&& has_suffix(l, ".gif"@) ==> m == picture
            &&& !has_suffix(l, ".png"@) && !has_suffix(l, ".jpg"@) && !has_suffix(l, ".jpeg"@)
                && !has_suffix(l, ".webp"@) && !has_suffix(l, ".gif"@) ==> m is None
        }),
{
}

} // verus!
