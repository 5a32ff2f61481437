//! Chat requests for OpenAI-compatible endpoints. A key that does not apply is left
//! out; `null` is never sent.

use vstd::prelude::*;
use crate::json::{
    counts, entry_counts, fields_of, fields_view, items_view, lemma_fields_counts, lemma_items_push,
    lemma_items_view, put, Json, JsonV,
};
use crate::text::{is_sorted_before, lemma_sorted_total, lemma_sorted_trans, sorted_before};

verus! {

/// The kind of server behind an endpoint.
#[derive(Debug, Clone, Copy, PartialEq, Eq, Structural)]
pub enum EngineProfile {
    Auto,
    LlamaCpp,
    Vllm,
    Sglang,
    Generic,
}

/// How the next token is drawn. Fractions are decimal texts.
#[derive(Debug, PartialEq, Eq)]
pub struct Sampling {
    pub temperature: String,
    pub top_p: String,
    pub presence_penalty: String,
    pub top_k: u32,
    pub min_p: String,
    pub repetition_penalty: String,
}

pub ghost struct SamplingV {
    pub temperature: Seq<char>,
    pub top_p: Seq<char>,
    pub presence_penalty: Seq<char>,
    pub top_k: nat,
    pub min_p: Seq<char>,
    pub repetition_penalty: Seq<char>,
}

impl View for Sampling {
    type V = SamplingV;

    open spec fn view(&self) -> SamplingV {
        SamplingV {
            temperature: self.temperature@,
            top_p: self.top_p@,
            presence_penalty: self.presence_penalty@,
            top_k: self.top_k as nat,
            min_p: self.min_p@,
            repetition_penalty: self.repetition_penalty@,
        }
    }
}

/// The sampling for a model that lost precision: repeating costs more.
pub open spec fn lossy(s: SamplingV) -> SamplingV {
    SamplingV { repetition_penalty: "1.1"@, ..s }
}

impl Sampling {
    /// The sampling for a model that lost precision: repeating costs more.
    pub fn with_lossy_repeat(self) -> (r: Sampling)
        ensures
            r@ == lossy(self@),
    {
        let mut s = self;
        s.repetition_penalty = "1.1".to_owned();
        s
    }

    /// The same sampling again.
    pub fn copy(&self) -> (r: Sampling)
        ensures
            r@ == self@,
    {
        Sampling {
            temperature: self.temperature.clone(),
            top_p: self.top_p.clone(),
            presence_penalty: self.presence_penalty.clone(),
            top_k: self.top_k,
            min_p: self.min_p.clone(),
            repetition_penalty: self.repetition_penalty.clone(),
        }
    }
}

/// What a chat request asks for.
#[derive(Debug, PartialEq, Eq)]
pub struct ChatRequestSpec {
    pub model: String,
    /// The messages as the endpoint takes them.
    pub messages: Vec<Json>,
    pub tools: Option<Vec<Json>>,
    pub stream: bool,
    pub max_tokens: u32,
    pub sampling: Sampling,
    /// The arguments of the chat template, as an object.
    pub kwargs: Json,
    pub profile: EngineProfile,
    /// The slot to pin the session to, so that a small probe cannot wipe a long prefix.
    pub id_slot: Option<i64>,
    pub cache_prompt: bool,
    /// Whether repeating costs more than the model's makers say.
    pub lossy_repeat: bool,
}

pub ghost struct RequestV {
    pub model: Seq<char>,
    pub messages: Seq<JsonV>,
    pub tools: Option<Seq<JsonV>>,
    pub stream: bool,
    pub max_tokens: nat,
    pub sampling: SamplingV,
    pub kwargs: Map<Seq<char>, JsonV>,
    pub profile: EngineProfile,
    pub id_slot: Option<int>,
    pub cache_prompt: bool,
    pub lossy_repeat: bool,
}

impl View for ChatRequestSpec {
    type V = RequestV;

    open spec fn view(&self) -> RequestV {
        RequestV {
            model: self.model@,
            messages: items_view(self.messages@),
            tools: match self.tools {
                Some(v) => Some(items_view(v@)),
                None => None,
            },
            stream: self.stream,
            max_tokens: self.max_tokens as nat,
            sampling: self.sampling@,
            kwargs: fields_of(self.kwargs@),
            profile: self.profile,
            id_slot: match self.id_slot {
                Some(n) => Some(n as int),
                None => None,
            },
            cache_prompt: self.cache_prompt,
            lossy_repeat: self.lossy_repeat,
        }
    }
}

pub open spec fn no_fields() -> JsonV {
    JsonV::Object(Map::empty())
}

/// The part of the sampling that every endpoint takes.
pub open spec fn put_openai_sampling(v: JsonV, s: SamplingV) -> JsonV {
    put(
        put(
            put(v, "temperature"@, JsonV::Float(s.temperature)),
            "top_p"@,
            JsonV::Float(s.top_p),
        ),
        "presence_penalty"@,
        JsonV::Float(s.presence_penalty),
    )
}

/// The part of the sampling that only local engines take.
pub open spec fn put_local_sampling(v: JsonV, s: SamplingV) -> JsonV {
    put(
        put(
            put(v, "top_k"@, JsonV::Int(s.top_k as int)),
            "min_p"@,
            JsonV::Float(s.min_p),
        ),
        "repetition_penalty"@,
        JsonV::Float(s.repetition_penalty),
    )
}

/// The arguments of the chat template, where there are any.
pub open spec fn put_kwargs(v: JsonV, kwargs: Map<Seq<char>, JsonV>) -> JsonV {
    if kwargs =~= Map::empty() {
        v
    } else {
        put(v, "chat_template_kwargs"@, JsonV::Object(kwargs))
    }
}

/// What goes beside the OpenAI fields, where there is anything.
pub open spec fn put_extra(v: JsonV, extra: JsonV) -> JsonV {
    if fields_of(extra) =~= Map::empty() {
        v
    } else {
        put(v, "extra_body"@, extra)
    }
}

/// The head of a request: model, messages, streaming, length.
pub open spec fn request_head(q: RequestV) -> JsonV {
    let start = put(
        put(
            put(no_fields(), "model"@, JsonV::Str(q.model)),
            "messages"@,
            JsonV::Array(q.messages),
        ),
        "stream"@,
        JsonV::Bool(q.stream),
    );
    let streamed = if q.stream {
        put(start, "stream_options"@, put(no_fields(), "include_usage"@, JsonV::Bool(true)))
    } else {
        start
    };
    put(streamed, "max_tokens"@, JsonV::Int(q.max_tokens as int))
}

/// The request with what the engine takes: llama.cpp takes everything at the root,
/// vLLM and SGLang take local sampling and template arguments in `extra_body`, any
/// other endpoint only the template arguments.
pub open spec fn request_engine(q: RequestV) -> JsonV {
    let s = if q.lossy_repeat {
        lossy(q.sampling)
    } else {
        q.sampling
    };
    let base = put_openai_sampling(request_head(q), s);
    match q.profile {
        EngineProfile::LlamaCpp | EngineProfile::Auto => {
            let tuned = put_kwargs(put_local_sampling(base, s), q.kwargs);
            let cached = if q.cache_prompt {
                put(tuned, "cache_prompt"@, JsonV::Bool(true))
            } else {
                tuned
            };
            match q.id_slot {
                Some(n) => put(cached, "id_slot"@, JsonV::Int(n)),
                None => cached,
            }
        },
        EngineProfile::Vllm | EngineProfile::Sglang => put_extra(
            base,
            put_kwargs(put_local_sampling(no_fields(), s), q.kwargs),
        ),
        EngineProfile::Generic => put_extra(base, put_kwargs(no_fields(), q.kwargs)),
    }
}

/// The body of a chat request.
pub open spec fn request_body(q: RequestV) -> JsonV {
    let body = request_engine(q);
    match q.tools {
        Some(tools) => if tools.len() > 0 {
            put(body, "tools"@, JsonV::Array(tools))
        } else {
            body
        },
        None => body,
    }
}

fn insert_openai_sampling(v: Json, s: &Sampling) -> (r: Json)
    ensures
        r@ == put_openai_sampling(v@, s@),
{
    v.with("temperature", Json::Float(s.temperature.clone())).with(
        "top_p",
        Json::Float(s.top_p.clone()),
    ).with("presence_penalty", Json::Float(s.presence_penalty.clone()))
}

fn insert_local_sampling(v: Json, s: &Sampling) -> (r: Json)
    ensures
        r@ == put_local_sampling(v@, s@),
{
    v.with("top_k", Json::Uint(s.top_k as u64)).with("min_p", Json::Float(s.min_p.clone())).with(
        "repetition_penalty",
        Json::Float(s.repetition_penalty.clone()),
    )
}

/// Whether an object binds anything.
fn binds_any(v: &Json) -> (r: bool)
    ensures
        r == !(fields_of(v@) =~= Map::empty()),
{
    match v {
        Json::Object(m) => {
            if m.len() > 0 {
                proof {
                    crate::json::lemma_fields_dom(m@, m@[0].0@);
                    assert(fields_view(m@).contains_key(m@[0].0@));
                }
                true
            } else {
                assert(fields_view(m@) =~= Map::empty());
                false
            }
        },
        _ => false,
    }
}

fn insert_kwargs(v: Json, kwargs: &Json) -> (r: Json)
    ensures
        r@ == put_kwargs(v@, fields_of(kwargs@)),
{
    if binds_any(kwargs) {
        v.with("chat_template_kwargs", kwargs.copy())
    } else {
        v
    }
}

fn insert_extra(v: Json, extra: Json) -> (r: Json)
    ensures
        r@ == put_extra(v@, extra@),
{
    if binds_any(&extra) {
        v.with("extra_body", extra)
    } else {
        v
    }
}

/// The body of a chat request.
pub fn build_chat_body(spec: &ChatRequestSpec) -> (r: Json)
    ensures
        r@ == request_body(spec@),
{
    let sampling: Sampling = if spec.lossy_repeat {
        spec.sampling.copy().with_lossy_repeat()
    } else {
        spec.sampling.copy()
    };
    let mut root: Json = Json::object().with("model", Json::Str(spec.model.clone())).with(
        "messages",
        copy_list(&spec.messages),
    ).with("stream", Json::Bool(spec.stream));
    if spec.stream {
        root.set("stream_options", Json::object().with("include_usage", Json::Bool(true)));
    }
    root.set("max_tokens", Json::Uint(spec.max_tokens as u64));
    assert(root@ == request_head(spec@));
    let mut body: Json = insert_openai_sampling(root, &sampling);
    match spec.profile {
        EngineProfile::LlamaCpp | EngineProfile::Auto => {
            body = insert_kwargs(insert_local_sampling(body, &sampling), &spec.kwargs);
            if spec.cache_prompt {
                body.set("cache_prompt", Json::Bool(true));
            }
            if let Some(slot) = spec.id_slot {
                body.set("id_slot", Json::number(slot));
            }
        },
        EngineProfile::Vllm | EngineProfile::Sglang => {
            let extra = insert_kwargs(
                insert_local_sampling(Json::object(), &sampling),
                &spec.kwargs,
            );
            body = insert_extra(body, extra);
        },
        EngineProfile::Generic => {
            let extra = insert_kwargs(Json::object(), &spec.kwargs);
            body = insert_extra(body, extra);
        },
    }
    assert(body@ == request_engine(spec@));
    if let Some(tools) = &spec.tools {
        proof {
            lemma_items_view(tools@);
        }
        if tools.len() > 0 {
            body.set("tools", copy_list(tools));
        }
    }
    body
}

fn copy_list(v: &Vec<Json>) -> (r: Json)
    ensures
        r@ == JsonV::Array(items_view(v@)),
{
    let mut out: Vec<Json> = Vec::new();
    let mut i: usize = 0;
    assert(v@.take(0) =~= Seq::empty());
    while i < v.len()
        invariant
            i <= v@.len(),
            items_view(out@) == items_view(v@.take(i as int)),
        decreases v.len() - i,
    {
        let ghost before = out@;
        let x = v[i].copy();
        out.push(x);
        proof {
            lemma_items_push(before, x);
            lemma_items_push(v@.take(i as int), v@[i as int]);
            assert(v@.take(i + 1) =~= v@.take(i as int).push(v@[i as int]));
        }
        i = i + 1;
    }
    assert(v@.take(i as int) =~= v@);
    Json::Array(out)
}

// ---------------------------------------------------------------------------
// No null
// ---------------------------------------------------------------------------

/// A value that is `null` or holds one somewhere.
pub open spec fn has_null(v: JsonV) -> bool
    decreases v,
{
    match v {
        JsonV::Null => true,
        JsonV::Array(a) => exists|i: int| 0 <= i < a.len() && has_null(#[trigger] a[i]),
        JsonV::Object(m) => exists|k: Seq<char>| m.contains_key(k) && has_null(#[trigger] m[k]),
        _ => false,
    }
}

proof fn lemma_item_null(a: Seq<JsonV>, i: int)
    requires
        0 <= i < a.len(),
        has_null(a[i]),
    ensures
        has_null(JsonV::Array(a)),
{
    let v = JsonV::Array(a);
    assert(has_null(v->Array_0[i]));
}

proof fn lemma_field_null(m: Map<Seq<char>, JsonV>, k: Seq<char>)
    requires
        m.contains_key(k),
        has_null(m[k]),
    ensures
        has_null(JsonV::Object(m)),
{
    let v = JsonV::Object(m);
    assert(has_null(v->Object_0[k]));
}

/// Whether a value is `null` or holds one somewhere.
pub fn contains_null(v: &Json) -> (r: bool)
    ensures
        r == has_null(v@),
    decreases v,
{
    match v {
        Json::Null => true,
        Json::Array(a) => {
            proof {
                lemma_items_view(a@);
            }
            let mut i: usize = 0;
            while i < a.len()
                invariant
                    i <= a@.len(),
                    decreases_to!(v => a),
                    v@ == JsonV::Array(items_view(a@)),
                    items_view(a@).len() == a@.len(),
                    forall|j: int| 0 <= j < a@.len() ==> #[trigger] items_view(a@)[j] == a@[j]@,
                    forall|j: int| 0 <= j < i ==> !has_null(#[trigger] items_view(a@)[j]),
                decreases a.len() - i,
            {
                if contains_null(&a[i]) {
                    proof {
                        lemma_item_null(items_view(a@), i as int);
                    }
                    return true;
                }
                i = i + 1;
            }
            false
        },
        Json::Object(m) => {
            let ghost f = fields_view(m@);
            proof {
                lemma_fields_counts(m@);
            }
            let mut i: usize = 0;
            while i < m.len()
                invariant
                    i <= m@.len(),
                    decreases_to!(v => m),
                    f == fields_view(m@),
                    v@ == JsonV::Object(f),
                    forall|j: int| #[trigger]
                        counts(m@, j) ==> f.contains_key(m@[j].0@) && f[m@[j].0@] == m@[j].1@,
                    forall|j: int| 0 <= j < i && #[trigger] counts(m@, j) ==> !has_null(m@[j].1@),
                decreases m.len() - i,
            {
                if entry_counts(m, i) {
                    if contains_null(&m[i].1) {
                        proof {
                            assert(counts(m@, i as int));
                            lemma_field_null(f, m@[i as int].0@);
                        }
                        return true;
                    }
                }
                i = i + 1;
            }
            assert forall|k: Seq<char>| f.contains_key(k) implies !has_null(#[trigger] f[k]) by {
                let j = choose|j: int| #[trigger] counts(m@, j) && m@[j].0@ == k;
                assert(counts(m@, j));
            }
            false
        },
        _ => false,
    }
}

proof fn lemma_put_null(v: JsonV, k: Seq<char>, x: JsonV)
    requires
        v is Object,
        !has_null(v),
        !has_null(x),
    ensures
        put(v, k, x) is Object,
        !has_null(put(v, k, x)),
{
    let m = v->Object_0;
    let w = put(v, k, x);
    if has_null(w) {
        let n = w->Object_0;
        let q = choose|q: Seq<char>| n.contains_key(q) && has_null(#[trigger] n[q]);
        if q != k {
            assert(m.contains_key(q) && n[q] == m[q]);
            lemma_field_null(m, q);
        }
    }
}

proof fn lemma_list_null(a: Seq<JsonV>)
    requires
        forall|i: int| 0 <= i < a.len() ==> !has_null(#[trigger] a[i]),
    ensures
        !has_null(JsonV::Array(a)),
{
    let v = JsonV::Array(a);
    if has_null(v) {
        let i = choose|i: int| 0 <= i < v->Array_0.len() && has_null(#[trigger] v->Array_0[i]);
        assert(has_null(a[i]));
    }
}

/// What a request is made of holds no `null`.
pub open spec fn request_clean(q: RequestV) -> bool {
    &&& forall|i: int| 0 <= i < q.messages.len() ==> !has_null(#[trigger] q.messages[i])
    &&& q.tools matches Some(t) ==> forall|i: int| 0 <= i < t.len() ==> !has_null(#[trigger] t[i])
    &&& !has_null(JsonV::Object(q.kwargs))
}

/// `null` is never sent: a request made of values without one holds none.
pub proof fn law_no_null_is_sent(q: RequestV)
    requires
        request_clean(q),
    ensures
        !has_null(request_body(q)),
{
    let e = no_fields();
    assert(!has_null(e));
    lemma_list_null(q.messages);
    let s = if q.lossy_repeat {
        lossy(q.sampling)
    } else {
        q.sampling
    };
    let h1 = put(e, "model"@, JsonV::Str(q.model));
    lemma_put_null(e, "model"@, JsonV::Str(q.model));
    let h2 = put(h1, "messages"@, JsonV::Array(q.messages));
    lemma_put_null(h1, "messages"@, JsonV::Array(q.messages));
    let h3 = put(h2, "stream"@, JsonV::Bool(q.stream));
    lemma_put_null(h2, "stream"@, JsonV::Bool(q.stream));
    let opt = put(e, "include_usage"@, JsonV::Bool(true));
    lemma_put_null(e, "include_usage"@, JsonV::Bool(true));
    lemma_put_null(h3, "stream_options"@, opt);
    let h4 = if q.stream {
        put(h3, "stream_options"@, opt)
    } else {
        h3
    };
    lemma_put_null(h4, "max_tokens"@, JsonV::Int(q.max_tokens as int));
    let head = request_head(q);
    assert(head is Object && !has_null(head));
    lemma_openai_null(head, s);
    let base = put_openai_sampling(head, s);
    lemma_local_null(base, s);
    lemma_local_null(e, s);
    let local = put_local_sampling(base, s);
    let extra = put_local_sampling(e, s);
    lemma_put_null(local, "chat_template_kwargs"@, JsonV::Object(q.kwargs));
    lemma_put_null(extra, "chat_template_kwargs"@, JsonV::Object(q.kwargs));
    lemma_put_null(e, "chat_template_kwargs"@, JsonV::Object(q.kwargs));
    let tuned = put_kwargs(local, q.kwargs);
    lemma_put_null(tuned, "cache_prompt"@, JsonV::Bool(true));
    let cached = if q.cache_prompt {
        put(tuned, "cache_prompt"@, JsonV::Bool(true))
    } else {
        tuned
    };
    if let Some(n) = q.id_slot {
        lemma_put_null(cached, "id_slot"@, JsonV::Int(n));
    }
    lemma_put_null(base, "extra_body"@, put_kwargs(extra, q.kwargs));
    lemma_put_null(base, "extra_body"@, put_kwargs(e, q.kwargs));
    let body = request_engine(q);
    assert(body is Object && !has_null(body));
    if let Some(t) = q.tools {
        lemma_list_null(t);
        lemma_put_null(body, "tools"@, JsonV::Array(t));
    }
}

proof fn lemma_openai_null(v: JsonV, s: SamplingV)
    requires
        v is Object,
        !has_null(v),
    ensures
        put_openai_sampling(v, s) is Object,
        !has_null(put_openai_sampling(v, s)),
{
    let a = put(v, "temperature"@, JsonV::Float(s.temperature));
    lemma_put_null(v, "temperature"@, JsonV::Float(s.temperature));
    let b = put(a, "top_p"@, JsonV::Float(s.top_p));
    lemma_put_null(a, "top_p"@, JsonV::Float(s.top_p));
    lemma_put_null(b, "presence_penalty"@, JsonV::Float(s.presence_penalty));
}

proof fn lemma_local_null(v: JsonV, s: SamplingV)
    requires
        v is Object,
        !has_null(v),
    ensures
        put_local_sampling(v, s) is Object,
        !has_null(put_local_sampling(v, s)),
{
    let a = put(v, "top_k"@, JsonV::Int(s.top_k as int));
    lemma_put_null(v, "top_k"@, JsonV::Int(s.top_k as int));
    let b = put(a, "min_p"@, JsonV::Float(s.min_p));
    lemma_put_null(a, "min_p"@, JsonV::Float(s.min_p));
    lemma_put_null(b, "repetition_penalty"@, JsonV::Float(s.repetition_penalty));
}

// ---------------------------------------------------------------------------
// Looking for a key
// ---------------------------------------------------------------------------

/// A value that binds `key`, itself or somewhere inside.
pub open spec fn key_within(v: JsonV, key: Seq<char>) -> bool
    decreases v,
{
    match v {
        JsonV::Array(a) => exists|i: int| 0 <= i < a.len() && key_within(#[trigger] a[i], key),
        JsonV::Object(m) => m.contains_key(key) || exists|k: Seq<char>|
            m.contains_key(k) && key_within(#[trigger] m[k], key),
        _ => false,
    }
}

/// The first child, in the order of keys, with `key` inside.
pub open spec fn first_child(m: Map<Seq<char>, JsonV>, key: Seq<char>, k: Seq<char>) -> bool {
    &&& m.contains_key(k)
    &&& key_within(m[k], key)
    &&& forall|q: Seq<char>|
        m.contains_key(q) && key_within(#[trigger] m[q], key) ==> sorted_before(k, q)
}

/// The first item with `key` inside.
pub open spec fn first_item(a: Seq<JsonV>, key: Seq<char>, i: int) -> bool {
    &&& 0 <= i < a.len()
    &&& key_within(a[i], key)
    &&& forall|j: int| 0 <= j < i ==> !key_within(#[trigger] a[j], key)
}

/// `x` is what a search for `key` in `v` comes upon: an object's own binding first,
/// then its children in the order of keys; a list's items in order.
pub open spec fn search_finds(v: JsonV, key: Seq<char>, x: JsonV) -> bool
    decreases v,
{
    match v {
        JsonV::Array(a) => exists|i: int| #[trigger]
            first_item(a, key, i) && search_finds(a[i], key, x),
        JsonV::Object(m) => if m.contains_key(key) {
            x == m[key]
        } else {
            exists|k: Seq<char>| #[trigger]
                first_child(m, key, k) && search_finds(m[k], key, x)
        },
        _ => false,
    }
}

proof fn lemma_array_within(a: Seq<JsonV>, key: Seq<char>, i: int)
    requires
        0 <= i < a.len(),
        key_within(a[i], key),
    ensures
        key_within(JsonV::Array(a), key),
{
    let v = JsonV::Array(a);
    assert(key_within(v->Array_0[i], key));
}

proof fn lemma_object_within(m: Map<Seq<char>, JsonV>, key: Seq<char>, k: Seq<char>)
    requires
        m.contains_key(k),
        key_within(m[k], key),
    ensures
        key_within(JsonV::Object(m), key),
{
    let v = JsonV::Object(m);
    assert(key_within(v->Object_0[k], key));
}

proof fn lemma_array_finds(a: Seq<JsonV>, key: Seq<char>, i: int, x: JsonV)
    requires
        first_item(a, key, i),
        search_finds(a[i], key, x),
    ensures
        search_finds(JsonV::Array(a), key, x),
{
    let v = JsonV::Array(a);
    assert(first_item(v->Array_0, key, i) && search_finds(v->Array_0[i], key, x));
}

proof fn lemma_object_finds(m: Map<Seq<char>, JsonV>, key: Seq<char>, k: Seq<char>, x: JsonV)
    requires
        !m.contains_key(key),
        first_child(m, key, k),
        search_finds(m[k], key, x),
    ensures
        search_finds(JsonV::Object(m), key, x),
{
    let v = JsonV::Object(m);
    assert(first_child(v->Object_0, key, k) && search_finds(v->Object_0[k], key, x));
}

/// What a search for `key` comes upon.
pub fn find_key<'a>(v: &'a Json, key: &str) -> (r: Option<&'a Json>)
    ensures
        r is Some <==> key_within(v@, key@),
        r matches Some(x) ==> search_finds(v@, key@, x@),
    decreases v,
{
    match v {
        Json::Array(a) => {
            proof {
                lemma_items_view(a@);
            }
            let mut i: usize = 0;
            while i < a.len()
                invariant
                    i <= a@.len(),
                    decreases_to!(v => a),
                    v@ == JsonV::Array(items_view(a@)),
                    items_view(a@).len() == a@.len(),
                    forall|j: int| 0 <= j < a@.len() ==> #[trigger] items_view(a@)[j] == a@[j]@,
                    forall|j: int| 0 <= j < i ==> !key_within(#[trigger] items_view(a@)[j], key@),
                decreases a.len() - i,
            {
                if let Some(x) = find_key(&a[i], key) {
                    proof {
                        let iv = items_view(a@);
                        assert(iv[i as int] == a@[i as int]@);
                        lemma_array_within(iv, key@, i as int);
                        assert(first_item(iv, key@, i as int));
                        lemma_array_finds(iv, key@, i as int, x@);
                    }
                    return Some(x);
                }
                i = i + 1;
            }
            None
        },
        Json::Object(m) => {
            if let Some(x) = v.get(key) {
                return Some(x);
            }
            let ghost f = fields_view(m@);
            proof {
                lemma_fields_counts(m@);
            }
            let mut best: Option<(usize, &'a Json)> = None;
            let mut i: usize = 0;
            while i < m.len()
                invariant
                    i <= m@.len(),
                    decreases_to!(v => m),
                    f == fields_view(m@),
                    v@ == JsonV::Object(f),
                    !f.contains_key(key@),
                    forall|j: int| #[trigger]
                        counts(m@, j) ==> f.contains_key(m@[j].0@) && f[m@[j].0@] == m@[j].1@,
                    best is None ==> forall|j: int|
                        0 <= j < i && #[trigger] counts(m@, j) ==> !key_within(m@[j].1@, key@),
                    best matches Some((b, x)) ==> {
                        &&& b < i
                        &&& counts(m@, b as int)
                        &&& key_within(m@[b as int].1@, key@)
                        &&& search_finds(m@[b as int].1@, key@, x@)
                        &&& forall|j: int|
                            0 <= j < i && #[trigger] counts(m@, j) && key_within(m@[j].1@, key@)
                                ==> sorted_before(m@[b as int].0@, m@[j].0@)
                    },
                decreases m.len() - i,
            {
                if entry_counts(m, i) {
                    if let Some(x) = find_key(&m[i].1, key) {
                        let better: bool = match best {
                            Some((b, _)) => is_sorted_before(m[i].0.as_str(), m[b].0.as_str()),
                            None => true,
                        };
                        proof {
                            let ki = m@[i as int].0@;
                            lemma_sorted_total(ki, ki);
                            if let Some((b, _)) = best {
                                let kb = m@[b as int].0@;
                                lemma_sorted_total(ki, kb);
                                assert forall|j: int|
                                    0 <= j < i && #[trigger] counts(m@, j) && key_within(
                                        m@[j].1@,
                                        key@,
                                    ) && better implies sorted_before(ki, m@[j].0@) by {
                                    lemma_sorted_trans(ki, kb, m@[j].0@);
                                }
                            }
                        }
                        if better {
                            best = Some((i, x));
                        }
                    }
                }
                i = i + 1;
            }
            match best {
                Some((b, x)) => {
                    proof {
                        let k = m@[b as int].0@;
                        assert(counts(m@, b as int));
                        lemma_object_within(f, key@, k);
                        assert(first_child(f, key@, k)) by {
                            assert forall|q: Seq<char>|
                                f.contains_key(q) && key_within(#[trigger] f[q], key@) implies
                                sorted_before(k, q) by {
                                let j = choose|j: int| #[trigger] counts(m@, j) && m@[j].0@ == q;
                                assert(counts(m@, j));
                            }
                        }
                        lemma_object_finds(f, key@, k, x@);
                    }
                    Some(x)
                },
                None => {
                    assert forall|q: Seq<char>| f.contains_key(q) implies !key_within(
                        #[trigger] f[q],
                        key@,
                    ) by {
                        let j = choose|j: int| #[trigger] counts(m@, j) && m@[j].0@ == q;
                        assert(counts(m@, j));
                    }
                    None
                },
            }
        },
        _ => None,
    }
}

/// What one chunk of a stream adds to a message.
#[derive(Debug, PartialEq, Eq)]
pub struct ChatMessageDelta {
    pub role: Option<String>,
    pub content: Option<String>,
    pub reasoning_content: Option<String>,
}

// ---------------------------------------------------------------------------
// Laws
// ---------------------------------------------------------------------------

proof fn lemma_request_keys()
    ensures
        "model"@ != "messages"@,
        "model"@ != "stream"@,
        "model"@ != "stream_options"@,
        "model"@ != "max_tokens"@,
        "model"@ != "temperature"@,
        "model"@ != "top_p"@,
        "model"@ != "presence_penalty"@,
        "model"@ != "top_k"@,
        "model"@ != "min_p"@,
        "model"@ != "repetition_penalty"@,
        "model"@ != "chat_template_kwargs"@,
        "model"@ != "cache_prompt"@,
        "model"@ != "id_slot"@,
        "model"@ != "extra_body"@,
        "model"@ != "tools"@,
        "messages"@ != "stream"@,
        "messages"@ != "stream_options"@,
        "messages"@ != "max_tokens"@,
        "messages"@ != "temperature"@,
        "messages"@ != "top_p"@,
        "messages"@ != "presence_penalty"@,
        "messages"@ != "top_k"@,
        "messages"@ != "min_p"@,
        "messages"@ != "repetition_penalty"@,
        "messages"@ != "chat_template_kwargs"@,
        "messages"@ != "cache_prompt"@,
        "messages"@ != "id_slot"@,
        "messages"@ != "extra_body"@,
        "messages"@ != "tools"@,
        "stream"@ != "stream_options"@,
        "stream"@ != "max_tokens"@,
        "stream"@ != "temperature"@,
        "stream"@ != "top_p"@,
        "stream"@ != "presence_penalty"@,
        "stream"@ != "top_k"@,
        "stream"@ != "min_p"@,
        "stream"@ != "repetition_penalty"@,
        "stream"@ != "chat_template_kwargs"@,
        "stream"@ != "cache_prompt"@,
        "stream"@ != "id_slot"@,
        "stream"@ != "extra_body"@,
        "stream"@ != "tools"@,
        "stream_options"@ != "max_tokens"@,
        "stream_options"@ != "temperature"@,
        "stream_options"@ != "top_p"@,
        "stream_options"@ != "presence_penalty"@,
        "stream_options"@ != "top_k"@,
        "stream_options"@ != "min_p"@,
        "stream_options"@ != "repetition_penalty"@,
        "stream_options"@ != "chat_template_kwargs"@,
        "stream_options"@ != "cache_prompt"@,
        "stream_options"@ != "id_slot"@,
        "stream_options"@ != "extra_body"@,
        "stream_options"@ != "tools"@,
        "max_tokens"@ != "temperature"@,
        "max_tokens"@ != "top_p"@,
        "max_tokens"@ != "presence_penalty"@,
        "max_tokens"@ != "top_k"@,
        "max_tokens"@ != "min_p"@,
        "max_tokens"@ != "repetition_penalty"@,
        "max_tokens"@ != "chat_template_kwargs"@,
        "max_tokens"@ != "cache_prompt"@,
        "max_tokens"@ != "id_slot"@,
        "max_tokens"@ != "extra_body"@,
        "max_tokens"@ != "tools"@,
        "temperature"@ != "top_p"@,
        "temperature"@ != "presence_penalty"@,
        "temperature"@ != "top_k"@,
        "temperature"@ != "min_p"@,
        "temperature"@ != "repetition_penalty"@,
        "temperature"@ != "chat_template_kwargs"@,
        "temperature"@ != "cache_prompt"@,
        "temperature"@ != "id_slot"@,
        "temperature"@ != "extra_body"@,
        "temperature"@ != "tools"@,
        "top_p"@ != "presence_penalty"@,
        "top_p"@ != "top_k"@,
        "top_p"@ != "min_p"@,
        "top_p"@ != "repetition_penalty"@,
        "top_p"@ != "chat_template_kwargs"@,
        "top_p"@ != "cache_prompt"@,
        "top_p"@ != "id_slot"@,
        "top_p"@ != "extra_body"@,
        "top_p"@ != "tools"@,
        "presence_penalty"@ != "top_k"@,
        "presence_penalty"@ != "min_p"@,
        "presence_penalty"@ != "repetition_penalty"@,
        "presence_penalty"@ != "chat_template_kwargs"@,
        "presence_penalty"@ != "cache_prompt"@,
        "presence_penalty"@ != "id_slot"@,
        "presence_penalty"@ != "extra_body"@,
        "presence_penalty"@ != "tools"@,
        "top_k"@ != "min_p"@,
        "top_k"@ != "repetition_penalty"@,
        "top_k"@ != "chat_template_kwargs"@,
        "top_k"@ != "cache_prompt"@,
        "top_k"@ != "id_slot"@,
        "top_k"@ != "extra_body"@,
        "top_k"@ != "tools"@,
        "min_p"@ != "repetition_penalty"@,
        "min_p"@ != "chat_template_kwargs"@,
        "min_p"@ != "cache_prompt"@,
        "min_p"@ != "id_slot"@,
        "min_p"@ != "extra_body"@,
        "min_p"@ != "tools"@,
        "repetition_penalty"@ != "chat_template_kwargs"@,
        "repetition_penalty"@ != "cache_prompt"@,
        "repetition_penalty"@ != "id_slot"@,
        "repetition_penalty"@ != "extra_body"@,
        "repetition_penalty"@ != "tools"@,
        "chat_template_kwargs"@ != "cache_prompt"@,
        "chat_template_kwargs"@ != "id_slot"@,
        "chat_template_kwargs"@ != "extra_body"@,
        "chat_template_kwargs"@ != "tools"@,
        "cache_prompt"@ != "id_slot"@,
        "cache_prompt"@ != "extra_body"@,
        "cache_prompt"@ != "tools"@,
        "id_slot"@ != "extra_body"@,
        "id_slot"@ != "tools"@,
        "extra_body"@ != "tools"@,
{
    reveal_strlit("model");
    reveal_strlit("messages");
    reveal_strlit("stream");
    reveal_strlit("stream_options");
    reveal_strlit("max_tokens");
    reveal_strlit("temperature");
    reveal_strlit("top_p");
    reveal_strlit("presence_penalty");
    reveal_strlit("top_k");
    reveal_strlit("min_p");
    reveal_strlit("repetition_penalty");
    reveal_strlit("chat_template_kwargs");
    reveal_strlit("cache_prompt");
    reveal_strlit("id_slot");
    reveal_strlit("extra_body");
    reveal_strlit("tools");
    reveal_strlit("include_usage");
    assert("model"@.len() == 5 && "messages"@.len() == 8 && "stream"@.len() == 6 && "stream_options"@.len() == 14 && "max_tokens"@.len() == 10 && "temperature"@.len() == 11 && "top_p"@.len() == 5 && "presence_penalty"@.len() == 16 && "top_k"@.len() == 5 && "min_p"@.len() == 5 && "repetition_penalty"@.len() == 18 && "chat_template_kwargs"@.len() == 20 && "cache_prompt"@.len() == 12 && "id_slot"@.len() == 7 && "extra_body"@.len() == 10 && "tools"@.len() == 5);
    assert("model"@[0] == 'm' && "top_p"@[0] == 't');
    assert("model"@[0] == 'm' && "top_k"@[0] == 't');
    assert("model"@[1] == 'o' && "min_p"@[1] == 'i');
    assert("model"@[0] == 'm' && "tools"@[0] == 't');
    assert("max_tokens"@[0] == 'm' && "extra_body"@[0] == 'e');
    assert("top_p"@[4] == 'p' && "top_k"@[4] == 'k');
    assert("top_p"@[0] == 't' && "min_p"@[0] == 'm');
    assert("top_p"@[2] == 'p' && "tools"@[2] == 'o');
    assert("top_k"@[0] == 't' && "min_p"@[0] == 'm');
    assert("top_k"@[2] == 'p' && "tools"@[2] == 'o');
    assert("min_p"@[0] == 'm' && "tools"@[0] == 't');
}

/// A request offers exactly the tools that it is made with, to every kind of engine; with
/// none there is no word of tools.
pub proof fn law_the_tools_are_offered(q: RequestV)
    ensures
        q.tools matches Some(t) ==> t.len() > 0 ==> request_body(q).field("tools"@) == Some(
            JsonV::Array(t),
        ),
        q.tools is None || q.tools->0.len() == 0 ==> request_body(q).field("tools"@) is None,
{
    lemma_request_keys();
}

/// A request names the model, carries all the messages, and says how long the reply may be,
/// how it is sampled and whether it is streamed, to every kind of engine. Only a streamed
/// reply is asked for its counts.
pub proof fn law_the_request_says_what_is_asked(q: RequestV)
    ensures
        ({
            let b = request_body(q);
            &&& b.field("model"@) == Some(JsonV::Str(q.model))
            &&& b.field("messages"@) == Some(JsonV::Array(q.messages))
            &&& b.field("stream"@) == Some(JsonV::Bool(q.stream))
            &&& b.field("max_tokens"@) == Some(JsonV::Int(q.max_tokens as int))
            &&& b.field("temperature"@) == Some(JsonV::Float(q.sampling.temperature))
            &&& b.field("top_p"@) == Some(JsonV::Float(q.sampling.top_p))
            &&& b.field("presence_penalty"@) == Some(JsonV::Float(q.sampling.presence_penalty))
            &&& q.stream ==> b.at("stream_options"@).field("include_usage"@) == Some(
                JsonV::Bool(true),
            )
            &&& !q.stream ==> b.field("stream_options"@) is None
        }),
{
    lemma_request_keys();
}

/// llama.cpp takes its own sampling, the arguments of the template, the cache and the slot
/// at the root, each only where it is given, and nothing beside the root.
pub proof fn law_llama_takes_all_at_the_root(q: RequestV)
    requires
        q.profile == EngineProfile::LlamaCpp || q.profile == EngineProfile::Auto,
    ensures
        ({
            let b = request_body(q);
            &&& b.field("top_k"@) == Some(JsonV::Int(q.sampling.top_k as int))
            &&& b.field("min_p"@) == Some(JsonV::Float(q.sampling.min_p))
            &&& b.field("repetition_penalty"@) == Some(
                JsonV::Float(
                    if q.lossy_repeat {
                        "1.1"@
                    } else {
                        q.sampling.repetition_penalty
                    },
                ),
            )
            &&& b.field("chat_template_kwargs"@) == (if q.kwargs =~= Map::empty() {
                None
            } else {
                Some(JsonV::Object(q.kwargs))
            })
            &&& b.field("cache_prompt"@) == (if q.cache_prompt {
                Some(JsonV::Bool(true))
            } else {
                None
            })
            &&& b.field("id_slot"@) == (match q.id_slot {
                Some(n) => Some(JsonV::Int(n)),
                None => None,
            })
            &&& b.field("extra_body"@) is None
        }),
{
    lemma_request_keys();
}

/// vLLM and SGLang take their own sampling and the arguments of the template beside the
/// root, and neither a slot nor the cache.
pub proof fn law_vllm_takes_its_own_beside_the_root(q: RequestV)
    requires
        q.profile == EngineProfile::Vllm || q.profile == EngineProfile::Sglang,
    ensures
        ({
            let b = request_body(q);
            let x = b.at("extra_body"@);
            &&& x.field("top_k"@) == Some(JsonV::Int(q.sampling.top_k as int))
            &&& x.field("min_p"@) == Some(JsonV::Float(q.sampling.min_p))
            &&& x.field("repetition_penalty"@) == Some(
                JsonV::Float(
                    if q.lossy_repeat {
                        "1.1"@
                    } else {
                        q.sampling.repetition_penalty
                    },
                ),
            )
            &&& x.field("chat_template_kwargs"@) == (if q.kwargs =~= Map::empty() {
                None
            } else {
                Some(JsonV::Object(q.kwargs))
            })
            &&& b.field("top_k"@) is None && b.field("min_p"@) is None && b.field(
                "repetition_penalty"@,
            ) is None && b.field("chat_template_kwargs"@) is None
            &&& b.field("cache_prompt"@) is None && b.field("id_slot"@) is None
        }),
{
    lemma_request_keys();
    let s = if q.lossy_repeat {
        lossy(q.sampling)
    } else {
        q.sampling
    };
    let x = put_kwargs(put_local_sampling(no_fields(), s), q.kwargs);
    assert(fields_of(x).contains_key("top_k"@));
}

/// Any other endpoint takes only what OpenAI's does, and the arguments of the template
/// beside it, where there are any.
pub proof fn law_others_take_only_the_template(q: RequestV)
    requires
        q.profile == EngineProfile::Generic,
    ensures
        ({
            let b = request_body(q);
            &&& q.kwargs =~= Map::empty() ==> b.field("extra_body"@) is None
            &&& !(q.kwargs =~= Map::empty()) ==> b.at("extra_body"@).field(
                "chat_template_kwargs"@,
            ) == Some(JsonV::Object(q.kwargs)) && b.at("extra_body"@).field("top_k"@) is None
                && b.at("extra_body"@).field("repetition_penalty"@) is None
            &&& b.field("top_k"@) is None && b.field("min_p"@) is None && b.field(
                "repetition_penalty"@,
            ) is None && b.field("chat_template_kwargs"@) is None
            &&& b.field("cache_prompt"@) is None && b.field("id_slot"@) is None
        }),
{
    lemma_request_keys();
    let x = put_kwargs(no_fields(), q.kwargs);
    if !(q.kwargs =~= Map::empty()) {
        assert(fields_of(x).contains_key("chat_template_kwargs"@));
    } else {
        assert(fields_of(x) =~= Map::<Seq<char>, JsonV>::empty());
    }
}

/// A search for a key finds what an object binds it to, before anything inside; a list is
/// searched item by item; and what is no container holds no key.
pub proof fn law_a_search_finds_the_nearest(
    m: Map<Seq<char>, JsonV>,
    a: Seq<JsonV>,
    key: Seq<char>,
    x: JsonV,
    k: Seq<char>,
    s: Seq<char>,
)
    ensures
        m.contains_key(key) ==> key_within(JsonV::Object(m), key),
        m.contains_key(key) ==> (search_finds(JsonV::Object(m), key, x) <==> x == m[key]),
        m.contains_key(k) && key_within(m[k], key) ==> key_within(JsonV::Object(m), key),
        a.len() > 0 && key_within(a[0], key) ==> key_within(JsonV::Array(a), key),
        a.len() > 0 && key_within(a[0], key) && search_finds(a[0], key, x) ==> search_finds(
            JsonV::Array(a),
            key,
            x,
        ),
        !key_within(JsonV::Str(s), key) && !key_within(JsonV::Null, key),
        m =~= Map::empty() ==> !key_within(JsonV::Object(m), key),
{
    let o = JsonV::Object(m);
    if m.contains_key(k) && key_within(m[k], key) {
        lemma_object_within(m, key, k);
    }
    if a.len() > 0 && key_within(a[0], key) {
        lemma_array_within(a, key, 0);
        if search_finds(a[0], key, x) {
            assert(first_item(a, key, 0));
            lemma_array_finds(a, key, 0, x);
        }
    }
    assert(o->Object_0 == m);
}

} // verus!
