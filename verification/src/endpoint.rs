//! Connecting to a chat endpoint: which model, which slot, how the reply is read.

use vstd::prelude::*;
use crate::adapter::EngineProfile;
use crate::json::{lemma_items_view, Json, JsonV};
use crate::message::{empty_to_none, some_text};
use crate::outside::{sha256, sha256_of};
use crate::policy::ThinkPolicy;
use crate::text::{contains, ends_with, has_suffix, holds, strip_trailing, text2, without_trailing};
use crate::usage::{count_of, json_u64, or_else};

verus! {

/// The model that the settings name, where they name one.
pub fn configured_chat_model(model: &str) -> (r: Option<String>)
    ensures
        crate::json::opt_text(r) == some_text(model@),
{
    empty_to_none(model)
}

/// Whether the server is asked how many slots it has.
pub fn should_probe_slots(profile: EngineProfile) -> (r: bool)
    ensures
        r == (profile == EngineProfile::LlamaCpp),
{
    match profile {
        EngineProfile::LlamaCpp => true,
        _ => false,
    }
}

/// Whether requests name a slot and ask for the prompt's cache.
pub fn pins_slot(profile: EngineProfile) -> (r: bool)
    ensures
        r == (profile == EngineProfile::LlamaCpp || profile == EngineProfile::Auto),
{
    match profile {
        EngineProfile::LlamaCpp | EngineProfile::Auto => true,
        _ => false,
    }
}

// ---------------------------------------------------------------------------
// Slots
// ---------------------------------------------------------------------------

/// The number that the first four bytes hold, the first byte the highest.
pub open spec fn head_number(digest: Seq<u8>) -> nat {
    ((digest[0] * 0x100_0000) + (digest[1] * 0x1_0000) + (digest[2] * 0x100) + digest[3]) as nat
}

/// The slot of a session whose identifier has this digest. The last of several slots
/// is left free, so that a small request cannot wipe a long prefix.
pub open spec fn slot_of(digest: Seq<u8>, total_slots: nat) -> Option<int> {
    if total_slots == 0 {
        None
    } else if total_slots == 1 {
        Some(0)
    } else {
        Some((head_number(digest) % (total_slots - 1) as nat) as int)
    }
}

/// The slot of a session whose identifier has this digest.
pub fn digest_slot(digest: &Vec<u8>, total_slots: u32) -> (r: Option<i64>)
    requires
        digest@.len() >= 4,
    ensures
        (match r {
            Some(n) => Some(n as int),
            None => None,
        }) == slot_of(digest@, total_slots as nat),
{
    if total_slots == 0 {
        return None;
    }
    if total_slots == 1 {
        return Some(0);
    }
    let usable: u64 = (total_slots - 1) as u64;
    let n: u64 = digest[0] as u64 * 0x100_0000 + digest[1] as u64 * 0x1_0000 + digest[2] as u64
        * 0x100 + digest[3] as u64;
    let slot: u64 = n % usable;
    Some(slot as i64)
}

/// The slot of a session: always the same one for the same session.
pub fn session_slot(session_id: &str, total_slots: u32) -> (r: Option<i64>)
    ensures
        (match r {
            Some(n) => Some(n as int),
            None => None,
        }) == slot_of(sha256_of(vstd::utf8::encode_utf8(session_id@)), total_slots as nat),
{
    let digest = sha256(session_id.as_bytes());
    digest_slot(&digest, total_slots)
}

/// The part of an address before a version at its end.
pub open spec fn before_version(base: Seq<char>) -> Option<Seq<char>> {
    if has_suffix(base, "/v1"@) {
        Some(base.take(base.len() - 3))
    } else {
        None
    }
}

/// The addresses that may say how many slots there are, in the order to try them.
pub open spec fn slot_urls(base_url: Seq<char>) -> Seq<Seq<char>> {
    let base = without_trailing(base_url, '/');
    let own = seq![base + "/props"@, base + "/slots"@];
    match before_version(base) {
        Some(root) => own + seq![root + "/props"@, root + "/slots"@],
        None => own,
    }
}

/// The addresses that may say how many slots there are, in the order to try them.
pub fn slot_probe_urls(base_url: &str) -> (r: Vec<String>)
    ensures
        crate::text::texts(r@) == slot_urls(base_url@),
{
    let base = strip_trailing(base_url, '/');
    let mut out: Vec<String> = Vec::new();
    out.push(text2(base.as_str(), "/props"));
    out.push(text2(base.as_str(), "/slots"));
    proof {
        reveal_strlit("/v1");
    }
    if ends_with(base.as_str(), "/v1") {
        let n: usize = base.as_str().unicode_len();
        let root = base.as_str().substring_char(0, n - 3);
        assert(root@ =~= base@.take(base@.len() - 3));
        out.push(text2(root, "/props"));
        out.push(text2(root, "/slots"));
    }
    assert(crate::text::texts(out@) =~= slot_urls(base_url@));
    out
}

pub open spec fn field_count(v: JsonV, key: Seq<char>) -> Option<nat> {
    match v.field(key) {
        Some(x) => count_of(x),
        None => None,
    }
}

/// How many slots a reply speaks of, where the number is a sensible one.
pub open spec fn slots_in(v: JsonV) -> Option<nat> {
    let told = or_else(field_count(v, "total_slots"@), field_count(v, "slots"@));
    if told is Some && 0 < told->0 < 10_000 {
        told
    } else {
        match v {
            JsonV::Array(items) => if 0 < items.len() < 10_000 {
                Some(items.len())
            } else {
                None
            },
            _ => None,
        }
    }
}

fn count_under(v: &Json, key: &str) -> (r: Option<u64>)
    ensures
        (match r {
            Some(n) => Some(n as nat),
            None => None,
        }) == field_count(v@, key@),
{
    match v.get(key) {
        Some(x) => json_u64(x),
        None => None,
    }
}

/// How many slots a reply speaks of, where the number is a sensible one.
pub fn total_slots_of(v: &Json) -> (r: Option<u32>)
    ensures
        (match r {
            Some(n) => Some(n as nat),
            None => None,
        }) == slots_in(v@),
{
    let told: Option<u64> = match count_under(v, "total_slots") {
        Some(n) => Some(n),
        None => count_under(v, "slots"),
    };
    if let Some(n) = told {
        if 0 < n && n < 10_000 {
            return Some(n as u32);
        }
    }
    match v {
        Json::Array(items) => {
            proof {
                lemma_items_view(items@);
            }
            let n: usize = items.len();
            if 0 < n && n < 10_000 {
                Some(n as u32)
            } else {
                None
            }
        },
        _ => None,
    }
}

/// How many slots there are by the replies to the probes, in their order; a probe that
/// failed has none.
pub open spec fn first_slots(replies: Seq<Option<JsonV>>, i: int) -> nat
    decreases replies.len() - i,
{
    if i < 0 || i >= replies.len() {
        0
    } else {
        match replies[i] {
            Some(v) => match slots_in(v) {
                Some(n) => n,
                None => first_slots(replies, i + 1),
            },
            None => first_slots(replies, i + 1),
        }
    }
}

pub open spec fn replies_view(v: Seq<Option<Json>>) -> Seq<Option<JsonV>> {
    Seq::new(
        v.len(),
        |i: int|
            match v[i] {
                Some(x) => Some(x@),
                None => None,
            },
    )
}

/// How many slots there are by the replies to the probes; nought where none says.
pub fn fetch_total_slots(replies: &Vec<Option<Json>>) -> (r: u32)
    ensures
        r == first_slots(replies_view(replies@), 0),
{
    let ghost rv = replies_view(replies@);
    let mut i: usize = 0;
    while i < replies.len()
        invariant
            i <= replies@.len(),
            rv == replies_view(replies@),
            first_slots(rv, 0) == first_slots(rv, i as int),
        decreases replies.len() - i,
    {
        assert(rv[i as int] == (match replies@[i as int] {
            Some(x) => Some(x@),
            None => None,
        }));
        if let Some(v) = &replies[i] {
            if let Some(n) = total_slots_of(v) {
                return n;
            }
        }
        i = i + 1;
    }
    0
}

// ---------------------------------------------------------------------------
// Requests
// ---------------------------------------------------------------------------

pub open spec fn chat_address(base_url: Seq<char>) -> Seq<char> {
    without_trailing(base_url, '/') + "/chat/completions"@
}

/// Where chat requests go.
pub fn chat_url(base_url: &str) -> (r: String)
    ensures
        r@ == chat_address(base_url@),
{
    text2(strip_trailing(base_url, '/').as_str(), "/chat/completions")
}

/// The server behind the address of chat requests.
pub fn media_origin(url: &str) -> (r: String)
    ensures
        r@ == (if has_suffix(url@, "/chat/completions"@) {
            url@.take(url@.len() - "/chat/completions"@.len())
        } else {
            url@
        }),
{
    if !ends_with(url, "/chat/completions") {
        return url.to_owned();
    }
    proof {
        reveal_strlit("/chat/completions");
    }
    let n: usize = url.unicode_len();
    assert(url@.subrange(0, n - 17) =~= url@.take(url@.len() - 17));
    url.substring_char(0, n - 17).to_owned()
}

/// The policy for an endpoint: off, with the settings' room, where it cannot think.
pub fn connect_policy(policy: ThinkPolicy, can_think: bool, max_tokens: u32) -> (r: ThinkPolicy)
    ensures
        can_think ==> r == policy,
        !can_think ==> r == (ThinkPolicy {
            enabled: false,
            effort: None,
            max_think_tokens: 0,
            max_tokens,
        }),
{
    if can_think {
        policy
    } else {
        ThinkPolicy { enabled: false, effort: None, max_think_tokens: 0, max_tokens }
    }
}

/// How many tokens a thought may have before the reply is dropped.
pub open spec fn cap_of(p: ThinkPolicy) -> Option<u32> {
    if p.enabled && p.max_think_tokens > 0 {
        Some(p.max_think_tokens)
    } else {
        None
    }
}

/// How a completion is asked for: the cap on its thought, and whether it is streamed.
/// It is where somebody watches or the thought has a cap.
pub fn ask_plan(p: ThinkPolicy, watched: bool) -> (r: (Option<u32>, bool))
    ensures
        r.0 == cap_of(p),
        r.1 == (watched || cap_of(p) is Some),
{
    let watchdog: Option<u32> = if p.enabled && p.max_think_tokens > 0 {
        Some(p.max_think_tokens)
    } else {
        None
    };
    (watchdog, watched || watchdog.is_some())
}

/// Whether the reply comes as a stream: it was asked for, and the server did not send
/// one plain value all the same.
pub fn reads_stream(streamed: bool, content_type: &str) -> (r: bool)
    ensures
        r == (streamed && !holds(content_type@, "application/json"@)),
{
    streamed && !contains(content_type, "application/json")
}

// ---------------------------------------------------------------------------
// Laws
// ---------------------------------------------------------------------------

/// With several slots a session is never given the last one, and the slot exists.
pub proof fn law_last_slot_stays_free(digest: Seq<u8>, total_slots: nat)
    requires
        total_slots > 1,
    ensures
        slot_of(digest, total_slots) matches Some(n) && 0 <= n < total_slots - 1,
{
}

/// The server behind the address of chat requests is the one that was configured.
pub proof fn law_origin_is_the_base(base_url: Seq<char>)
    ensures
        has_suffix(chat_address(base_url), "/chat/completions"@),
        chat_address(base_url).take(
            chat_address(base_url).len() - "/chat/completions"@.len(),
        ) == without_trailing(base_url, '/'),
{
    let b = without_trailing(base_url, '/');
    let a = chat_address(base_url);
    let t = "/chat/completions"@;
    assert(a.subrange(a.len() - t.len(), a.len() as int) =~= t);
    assert(a.take(a.len() - t.len()) =~= b);
}

/// How many slots a server has is what it says, where that is sensible, else how many it
/// lists.
pub proof fn law_how_many_slots_there_are(v: JsonV, n: nat, items: Seq<JsonV>)
    requires
        0 < n < 10_000,
    ensures
        v.field("total_slots"@) == Some(JsonV::Int(n as int)) ==> slots_in(v) == Some(n),
        v.field("total_slots"@) is None && v.field("slots"@) == Some(JsonV::Int(n as int))
            ==> slots_in(v) == Some(n),
        0 < items.len() < 10_000 ==> slots_in(JsonV::Array(items)) == Some(items.len()),
        slots_in(JsonV::Array(Seq::empty())) is None,
        slots_in(JsonV::Null) is None,
{
}

/// The first probe that says how many slots there are counts.
pub proof fn law_the_first_probe_counts(rs: Seq<Option<JsonV>>, i: int, n: nat)
    requires
        0 <= i < rs.len(),
        rs[i] is Some,
        slots_in(rs[i]->0) == Some(n),
        forall|j: int|
            0 <= j < i ==> (#[trigger] rs[j]) is None || slots_in(rs[j]->0) is None,
    ensures
        first_slots(rs, 0) == n,
        first_slots(Seq::empty(), 0) == 0,
{
    lemma_first_slots(rs, i, n, 0);
}

proof fn lemma_first_slots(rs: Seq<Option<JsonV>>, i: int, n: nat, k: int)
    requires
        0 <= k <= i < rs.len(),
        rs[i] is Some,
        slots_in(rs[i]->0) == Some(n),
        forall|j: int|
            0 <= j < i ==> (#[trigger] rs[j]) is None || slots_in(rs[j]->0) is None,
    ensures
        first_slots(rs, k) == n,
    decreases i - k,
{
    if k < i {
        assert(rs[k] is None || slots_in(rs[k]->0) is None);
        lemma_first_slots(rs, i, n, k + 1);
    }
}

/// The slots are asked for below the address of the server, and below what stands before
/// its version; slashes at its end make no difference.
pub proof fn law_where_slots_are_asked_for(base: Seq<char>)
    requires
        base.len() > 0,
        base.last() != '/',
    ensures
        ({
            let us = slot_urls(base + "/v1"@);
            &&& us.len() == 4
            &&& us[0] == base + "/v1"@ + "/props"@ && us[1] == base + "/v1"@ + "/slots"@
            &&& us[2] == base + "/props"@ && us[3] == base + "/slots"@
        }),
        slot_urls(base.push('/')) == slot_urls(base),
{
    reveal_strlit("/v1");
    let b = base + "/v1"@;
    assert(b.last() == '1');
    assert(without_trailing(b, '/') == b);
    assert(b.subrange(b.len() - 3, b.len() as int) =~= "/v1"@);
    assert(b.take(b.len() - 3) =~= base);
    assert(base.push('/').drop_last() =~= base);
}

/// The slot of a session is found by what its digest begins with, so that the same session
/// always has the same one; a server of one slot has only that.
pub proof fn law_which_slot_a_session_has(digest: Seq<u8>, total: nat)
    requires
        digest.len() >= 4,
    ensures
        slot_of(digest, 0) is None,
        slot_of(digest, 1) == Some(0int),
        total > 1 ==> slot_of(digest, total) == Some(
            ((digest[0] * 0x100_0000 + digest[1] * 0x1_0000 + digest[2] * 0x100 + digest[3]) as int)
                % (total - 1),
        ),
{
}

/// A thought has a cap where the model thinks and one is set.
pub proof fn law_when_a_thought_is_capped(p: ThinkPolicy)
    ensures
        p.enabled && p.max_think_tokens > 0 ==> cap_of(p) == Some(p.max_think_tokens),
        !p.enabled || p.max_think_tokens == 0 ==> cap_of(p) is None,
{
}

/// A count of slots that makes no sense is passed over.
pub proof fn law_senseless_counts_are_passed_over(m: Map<Seq<char>, JsonV>, n: nat)
    requires
        n == 0 || 10_000 <= n <= u64::MAX,
        m.contains_key("total_slots"@),
        m["total_slots"@] == JsonV::Int(n as int),
    ensures
        slots_in(JsonV::Object(m)) is None,
{
}

} // verus!
