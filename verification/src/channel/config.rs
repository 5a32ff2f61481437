//! The configured channels.

use vstd::prelude::*;
use crate::channel::mailbox::{policy_of, BusyPolicy};
use crate::json::{items_view, lemma_items_push, put, Json, JsonV};
use crate::table::{bindings, bound, Table};
use crate::text::{
    blank, clone_texts, has_prefix, is_blank, list_has, lower, same, same_ignoring_case,
    starts_with, texts,
};

verus! {

/// A kind of channel, in small letters.
pub open spec fn kind_name(k: Seq<char>) -> bool {
    ||| k == "cli"@
    ||| k == "sidecar"@
    ||| k == "console"@
    ||| k == "webhook"@
    ||| k == "telegram"@
    ||| k == "discord"@
    ||| k == "slack"@
    ||| k == "dingtalk"@
    ||| k == "feishu"@
    ||| k == "qq"@
    ||| k == "wechat"@
    ||| k == "wecom"@
    ||| k == "imessage"@
    ||| k == "matrix"@
    ||| k == "mattermost"@
    ||| k == "mqtt"@
    ||| k == "voice"@
    ||| k == "onebot"@
    ||| k == "sip"@
    ||| k == "xiaoyi"@
    ||| k == "yuanbao"@
}

/// Whether a kind of channel is known, whatever its capitals.
pub fn known_kind(kind: &str) -> (r: bool)
    ensures
        r == kind_name(lower(kind@)),
{
    let lo = crate::text::to_lower(kind);
    let k = lo.as_str();
    same(k, "cli") || same(k, "sidecar") || same(k, "console") || same(k, "webhook") || same(
        k,
        "telegram",
    ) || same(k, "discord") || same(k, "slack") || same(k, "dingtalk") || same(k, "feishu")
        || same(k, "qq") || same(k, "wechat") || same(k, "wecom") || same(k, "imessage") || same(
        k,
        "matrix",
    ) || same(k, "mattermost") || same(k, "mqtt") || same(k, "voice") || same(k, "onebot")
        || same(k, "sip") || same(k, "xiaoyi") || same(k, "yuanbao")
}

/// One configured channel.
#[derive(Debug, PartialEq, Eq)]
pub struct ChannelEndpoint {
    pub id: String,
    pub kind: String,
    pub enabled: bool,
    pub allow_from: Vec<String>,
    pub deny_from: Vec<String>,
    pub require_mention: bool,
    /// `open`, `allowlist` or `closed`.
    pub dm_policy: String,
    /// `open`, `allowlist`, `mention` or `closed`.
    pub group_policy: String,
    /// Where replies are posted.
    pub reply_url: String,
    /// Where a webhook listens.
    pub bind: String,
    pub secret: String,
    pub extra: Table,
}

pub ghost struct EndpointV {
    pub id: Seq<char>,
    pub kind: Seq<char>,
    pub enabled: bool,
    pub allow_from: Seq<Seq<char>>,
    pub deny_from: Seq<Seq<char>>,
    pub require_mention: bool,
    pub dm_policy: Seq<char>,
    pub group_policy: Seq<char>,
    pub reply_url: Seq<char>,
    pub bind: Seq<char>,
    pub secret: Seq<char>,
    pub extra: Map<Seq<char>, Seq<char>>,
}

impl View for ChannelEndpoint {
    type V = EndpointV;

    open spec fn view(&self) -> EndpointV {
        EndpointV {
            id: self.id@,
            kind: self.kind@,
            enabled: self.enabled,
            allow_from: texts(self.allow_from@),
            deny_from: texts(self.deny_from@),
            require_mention: self.require_mention,
            dm_policy: self.dm_policy@,
            group_policy: self.group_policy@,
            reply_url: self.reply_url@,
            bind: self.bind@,
            secret: self.secret@,
            extra: self.extra@,
        }
    }
}

pub open spec fn endpoints_view(v: Seq<ChannelEndpoint>) -> Seq<EndpointV> {
    v.map_values(|e: ChannelEndpoint| e@)
}

pub open spec fn default_endpoint() -> EndpointV {
    EndpointV {
        id: Seq::empty(),
        kind: Seq::empty(),
        enabled: false,
        allow_from: Seq::empty(),
        deny_from: Seq::empty(),
        require_mention: false,
        dm_policy: "open"@,
        group_policy: "open"@,
        reply_url: Seq::empty(),
        bind: Seq::empty(),
        secret: Seq::empty(),
        extra: Map::empty(),
    }
}

impl Default for ChannelEndpoint {
    fn default() -> (r: ChannelEndpoint)
        ensures
            r@ == default_endpoint(),
    {
        let allow_from: Vec<String> = Vec::new();
        let deny_from: Vec<String> = Vec::new();
        assert(texts(allow_from@) =~= Seq::empty());
        assert(texts(deny_from@) =~= Seq::empty());
        ChannelEndpoint {
            id: String::new(),
            kind: String::new(),
            enabled: false,
            allow_from,
            deny_from,
            require_mention: false,
            dm_policy: "open".to_owned(),
            group_policy: "open".to_owned(),
            reply_url: String::new(),
            bind: String::new(),
            secret: String::new(),
            extra: Table::new(),
        }
    }
}

/// A value that a console shows in place of the real one.
pub open spec fn placeholder(v: Seq<char>) -> bool {
    v.len() == 0 || v == "true"@ || v == "false"@ || has_prefix(v, "****"@)
}

fn is_placeholder(v: &str) -> (r: bool)
    ensures
        r == placeholder(v@),
{
    v.is_empty() || same(v, "true") || same(v, "false") || starts_with(v, "****")
}

/// The value that is kept for a key: the incoming one, unless it only stands in for
/// the previous one.
pub open spec fn kept_extra(
    incoming: Map<Seq<char>, Seq<char>>,
    prev: Map<Seq<char>, Seq<char>>,
) -> Map<Seq<char>, Seq<char>> {
    incoming.union_prefer_right(
        prev.restrict(
            Set::new(|k: Seq<char>| !incoming.contains_key(k) || placeholder(incoming[k])),
        ),
    )
}

/// An endpoint as it was posted, with the secrets that the console did not show
/// taken from the previous one.
pub open spec fn with_secrets_of(e: EndpointV, prev: EndpointV) -> EndpointV {
    EndpointV {
        secret: if blank(e.secret) {
            prev.secret
        } else {
            e.secret
        },
        extra: kept_extra(e.extra, prev.extra),
        ..e
    }
}

impl ChannelEndpoint {
    /// The same endpoint again.
    pub fn copy(&self) -> (r: ChannelEndpoint)
        ensures
            r@ == self@,
    {
        ChannelEndpoint {
            id: self.id.clone(),
            kind: self.kind.clone(),
            enabled: self.enabled,
            allow_from: clone_texts(&self.allow_from),
            deny_from: clone_texts(&self.deny_from),
            require_mention: self.require_mention,
            dm_policy: self.dm_policy.clone(),
            group_policy: self.group_policy.clone(),
            reply_url: self.reply_url.clone(),
            bind: self.bind.clone(),
            secret: self.secret.clone(),
            extra: self.extra.copy(),
        }
    }

    /// Takes over the secrets that the console did not show. Saving what it shows
    /// does not wipe them.
    pub fn absorb_secrets_from(&mut self, prev: &ChannelEndpoint)
        ensures
            final(self)@ == with_secrets_of(old(self)@, prev@),
    {
        if is_blank(self.secret.as_str()) {
            self.secret = prev.secret.clone();
        }
        let given = self.extra.copy();
        let ghost inc = given@;
        let ghost all = prev.extra.entries@;
        let mut i: usize = 0;
        assert(kept_extra(inc, bindings(all.take(0))) =~= inc);
        while i < prev.extra.entries.len()
            invariant
                i <= all.len(),
                all == prev.extra.entries@,
                given@ == inc,
                self.extra@ == kept_extra(inc, bindings(all.take(i as int))),
                self.id == old(self).id,
                self.kind == old(self).kind,
                self.enabled == old(self).enabled,
                self.allow_from == old(self).allow_from,
                self.deny_from == old(self).deny_from,
                self.require_mention == old(self).require_mention,
                self.dm_policy == old(self).dm_policy,
                self.group_policy == old(self).group_policy,
                self.reply_url == old(self).reply_url,
                self.bind == old(self).bind,
                self.secret@ == (if blank(old(self).secret@) {
                    prev.secret@
                } else {
                    old(self).secret@
                }),
            decreases prev.extra.entries.len() - i,
        {
            let k = &prev.extra.entries[i].0;
            let v = &prev.extra.entries[i].1;
            proof {
                assert(all.take(i + 1).drop_last() =~= all.take(i as int));
                assert(all.take(i + 1).last() == all[i as int]);
            }
            let stands_in: bool = match given.get(k.as_str()) {
                Some(s) => is_placeholder(s.as_str()),
                None => true,
            };
            if stands_in {
                self.extra.insert(k.as_str(), v.as_str());
            }
            proof {
                assert(self.extra@ =~= kept_extra(inc, bindings(all.take(i + 1))));
            }
            i = i + 1;
        }
        assert(all.take(i as int) =~= all);
    }
}

/// The place of the first endpoint with an identifier, from `i` on.
pub open spec fn endpoint_index(list: Seq<EndpointV>, id: Seq<char>, i: int) -> Option<int>
    decreases list.len() - i,
{
    if i < 0 || i >= list.len() {
        None
    } else if list[i].id == id {
        Some(i)
    } else {
        endpoint_index(list, id, i + 1)
    }
}

fn find_endpoint(list: &Vec<ChannelEndpoint>, id: &str) -> (r: Option<usize>)
    ensures
        r is Some <==> endpoint_index(endpoints_view(list@), id@, 0) is Some,
        r matches Some(i) ==> endpoint_index(endpoints_view(list@), id@, 0) == Some(i as int) && i
            < list@.len(),
{
    let ghost es = endpoints_view(list@);
    let mut i: usize = 0;
    while i < list.len()
        invariant
            i <= list@.len(),
            es == endpoints_view(list@),
            endpoint_index(es, id@, 0) == endpoint_index(es, id@, i as int),
        decreases list.len() - i,
    {
        assert(es[i as int] == list@[i as int]@);
        if same(list[i].id.as_str(), id) {
            return Some(i);
        }
        i = i + 1;
    }
    None
}

/// One posted endpoint with the secrets of the one it replaces.
pub open spec fn merged_endpoint(stored: Seq<EndpointV>, e: EndpointV) -> EndpointV {
    if e.id.len() == 0 {
        e
    } else {
        match endpoint_index(stored, e.id, 0) {
            Some(i) => with_secrets_of(e, stored[i]),
            None => e,
        }
    }
}

/// The posted endpoints, each with the secrets of the one it replaces.
pub fn merge_channel_endpoints(
    stored: &Vec<ChannelEndpoint>,
    incoming: Vec<ChannelEndpoint>,
) -> (r: Vec<ChannelEndpoint>)
    ensures
        endpoints_view(r@) == endpoints_view(incoming@).map_values(
            |e: EndpointV| merged_endpoint(endpoints_view(stored@), e),
        ),
{
    let ghost all = incoming@;
    let ghost old_list = endpoints_view(stored@);
    let mut rest = incoming;
    let mut out: Vec<ChannelEndpoint> = Vec::new();
    let n: usize = rest.len();
    let mut i: usize = 0;
    while i < n
        invariant
            i <= n == all.len(),
            old_list == endpoints_view(stored@),
            rest@ == all.skip(i as int),
            out@.len() == i,
            forall|j: int| 0 <= j < i ==> (#[trigger] out@[j])@ == merged_endpoint(old_list, all[j]@),
        decreases n - i,
    {
        let mut e = rest.remove(0);
        assert(e == all[i as int]);
        assert(rest@ =~= all.skip(i + 1));
        if !e.id.as_str().is_empty() {
            if let Some(k) = find_endpoint(stored, e.id.as_str()) {
                assert(old_list[k as int] == stored@[k as int]@);
                e.absorb_secrets_from(&stored[k]);
            }
        }
        out.push(e);
        i = i + 1;
    }
    assert(endpoints_view(out@) =~= endpoints_view(all).map_values(
        |e: EndpointV| merged_endpoint(old_list, e),
    ));
    out
}

/// The endpoint under the identifier that it is stored by: its own, else its kind.
pub open spec fn named_endpoint(e: EndpointV) -> EndpointV {
    if blank(e.id) {
        EndpointV { id: e.kind, ..e }
    } else {
        e
    }
}

/// The list with one endpoint put in: in the place of the one with its identifier,
/// whose secrets it keeps, else at the end.
pub open spec fn upserted(list: Seq<EndpointV>, e: EndpointV) -> Seq<EndpointV> {
    let n = named_endpoint(e);
    match endpoint_index(list, n.id, 0) {
        Some(i) => list.update(i, with_secrets_of(n, list[i])),
        None => list.push(n),
    }
}

/// Puts one endpoint in.
pub fn upsert_channel_endpoint(list: &mut Vec<ChannelEndpoint>, add: ChannelEndpoint)
    ensures
        endpoints_view(final(list)@) == upserted(endpoints_view(old(list)@), add@),
{
    let ghost before = list@;
    let mut e = add;
    if is_blank(e.id.as_str()) {
        e.id = e.kind.clone();
    }
    assert(e@ == named_endpoint(add@));
    match find_endpoint(list, e.id.as_str()) {
        Some(i) => {
            let prev = list[i].copy();
            assert(endpoints_view(before)[i as int] == prev@);
            e.absorb_secrets_from(&prev);
            list.set(i, e);
            assert(endpoints_view(list@) =~= endpoints_view(before).update(i as int, e@));
        },
        None => {
            list.push(e);
            assert(endpoints_view(list@) =~= endpoints_view(before).push(e@));
        },
    }
}

/// The list without the endpoints of an identifier.
pub open spec fn without_id(list: Seq<EndpointV>, id: Seq<char>) -> Seq<EndpointV>
    decreases list.len(),
{
    if list.len() == 0 {
        Seq::empty()
    } else {
        let before = without_id(list.drop_last(), id);
        if list.last().id == id {
            before
        } else {
            before.push(list.last())
        }
    }
}

/// Takes out the endpoints of an identifier.
pub fn remove_channel_endpoint(list: &mut Vec<ChannelEndpoint>, id: &str)
    ensures
        endpoints_view(final(list)@) == without_id(endpoints_view(old(list)@), id@),
{
    let ghost all = endpoints_view(list@);
    let mut out: Vec<ChannelEndpoint> = Vec::new();
    let mut i: usize = 0;
    assert(endpoints_view(out@) =~= Seq::empty());
    while i < list.len()
        invariant
            i <= list@.len(),
            all == endpoints_view(list@),
            all == endpoints_view(old(list)@),
            endpoints_view(out@) == without_id(all.take(i as int), id@),
        decreases list.len() - i,
    {
        assert(all.take(i + 1).drop_last() =~= all.take(i as int));
        assert(all.take(i + 1).last() == list@[i as int]@);
        if !same(list[i].id.as_str(), id) {
            let ghost before = out@;
            let e = list[i].copy();
            out.push(e);
            assert(endpoints_view(out@) =~= endpoints_view(before).push(e@));
        }
        i = i + 1;
    }
    assert(all.take(i as int) =~= all);
    *list = out;
}

// ---------------------------------------------------------------------------
// The whole configuration
// ---------------------------------------------------------------------------

#[derive(Debug, PartialEq, Eq)]
pub struct ChannelsConfig {
    /// What a busy session does with a new message.
    pub busy: String,
    /// The surfaces that may enqueue; `cli` and `sidecar` always may.
    pub enabled: Vec<String>,
    pub endpoints: Vec<ChannelEndpoint>,
}

impl Default for ChannelsConfig {
    fn default() -> (r: ChannelsConfig)
        ensures
            r.busy@ == "interrupt"@,
            texts(r.enabled@) == seq!["cli"@, "sidecar"@],
            r.endpoints@.len() == 0,
    {
        let mut enabled: Vec<String> = Vec::new();
        enabled.push("cli".to_owned());
        enabled.push("sidecar".to_owned());
        assert(texts(enabled@) =~= seq!["cli"@, "sidecar"@]);
        ChannelsConfig { busy: "interrupt".to_owned(), enabled, endpoints: Vec::new() }
    }
}

/// A row of the list of channels that every installation has.
pub open spec fn builtin_row(id: Seq<char>, enabled: bool) -> JsonV {
    let none = JsonV::Object(Map::empty());
    put(
        put(
            put(put(none, "id"@, JsonV::Str(id)), "kind"@, JsonV::Str(id)),
            "enabled"@,
            JsonV::Bool(enabled),
        ),
        "builtin"@,
        JsonV::Bool(true),
    )
}

/// The row of a configured channel. It shows no secrets.
pub open spec fn endpoint_row(e: EndpointV) -> JsonV {
    let none = JsonV::Object(Map::empty());
    put(
        put(
            put(
                put(
                    put(
                        put(
                            put(
                                put(none, "id"@, JsonV::Str(e.id)),
                                "kind"@,
                                JsonV::Str(e.kind),
                            ),
                            "enabled"@,
                            JsonV::Bool(e.enabled),
                        ),
                        "bind"@,
                        JsonV::Str(e.bind),
                    ),
                    "require_mention"@,
                    JsonV::Bool(e.require_mention),
                ),
                "dm_policy"@,
                JsonV::Str(e.dm_policy),
            ),
            "group_policy"@,
            JsonV::Str(e.group_policy),
        ),
        "builtin"@,
        JsonV::Bool(false),
    )
}

fn builtin_row_of(id: &str, enabled: bool) -> (r: Json)
    ensures
        r@ == builtin_row(id@, enabled),
{
    Json::object().with("id", Json::string(id)).with("kind", Json::string(id)).with(
        "enabled",
        Json::Bool(enabled),
    ).with("builtin", Json::Bool(true))
}

fn endpoint_row_of(e: &ChannelEndpoint) -> (r: Json)
    ensures
        r@ == endpoint_row(e@),
{
    Json::object().with("id", Json::string(e.id.as_str())).with(
        "kind",
        Json::string(e.kind.as_str()),
    ).with("enabled", Json::Bool(e.enabled)).with("bind", Json::string(e.bind.as_str())).with(
        "require_mention",
        Json::Bool(e.require_mention),
    ).with("dm_policy", Json::string(e.dm_policy.as_str())).with(
        "group_policy",
        Json::string(e.group_policy.as_str()),
    ).with("builtin", Json::Bool(false))
}

/// The first enabled endpoint, from `i` on, that a channel names by its identifier
/// or its kind.
pub open spec fn endpoint_named(list: Seq<EndpointV>, channel: Seq<char>, i: int) -> Option<int>
    decreases list.len() - i,
{
    if i < 0 || i >= list.len() {
        None
    } else if list[i].enabled && (lower(list[i].id) == lower(channel) || lower(list[i].kind)
        == lower(channel)) {
        Some(i)
    } else {
        endpoint_named(list, channel, i + 1)
    }
}

impl ChannelsConfig {
    pub fn busy_policy(&self) -> (r: BusyPolicy)
        ensures
            r == (match policy_of(self.busy@) {
                Some(p) => p,
                None => BusyPolicy::Interrupt,
            }),
    {
        match BusyPolicy::parse(self.busy.as_str()) {
            Ok(p) => p,
            Err(_) => BusyPolicy::Interrupt,
        }
    }

    /// The channels as a list for the console.
    pub fn list_json(&self) -> (r: Json)
        ensures
            r@ == JsonV::Array(
                seq![
                    builtin_row("cli"@, true),
                    builtin_row("sidecar"@, true),
                    builtin_row("console"@, texts(self.enabled@).contains("console"@)),
                ] + endpoints_view(self.endpoints@).map_values(|e: EndpointV| endpoint_row(e)),
            ),
    {
        let mut rows: Vec<Json> = Vec::new();
        assert(items_view(rows@) =~= Seq::empty());
        let a = builtin_row_of("cli", true);
        let b = builtin_row_of("sidecar", true);
        let c = builtin_row_of("console", list_has(&self.enabled, "console"));
        proof {
            lemma_items_push(rows@, a);
            lemma_items_push(rows@.push(a), b);
            lemma_items_push(rows@.push(a).push(b), c);
        }
        rows.push(a);
        rows.push(b);
        rows.push(c);
        let ghost head = seq![a@, b@, c@];
        assert(items_view(rows@) =~= head);
        let ghost es = endpoints_view(self.endpoints@).map_values(|e: EndpointV| endpoint_row(e));
        let mut i: usize = 0;
        assert(head + es.take(0) =~= head);
        while i < self.endpoints.len()
            invariant
                i <= self.endpoints@.len(),
                es == endpoints_view(self.endpoints@).map_values(|e: EndpointV| endpoint_row(e)),
                items_view(rows@) == head + es.take(i as int),
            decreases self.endpoints.len() - i,
        {
            let row = endpoint_row_of(&self.endpoints[i]);
            proof {
                lemma_items_push(rows@, row);
                assert(es[i as int] == row@);
                assert((head + es.take(i as int)).push(row@) =~= head + es.take(i + 1));
            }
            rows.push(row);
            i = i + 1;
        }
        assert(es.take(i as int) =~= es);
        Json::Array(rows)
    }

    /// The enabled endpoint that a channel names.
    pub fn endpoint_for(&self, channel: &str) -> (r: Option<&ChannelEndpoint>)
        ensures
            r is Some <==> channel@.len() > 0 && endpoint_named(
                endpoints_view(self.endpoints@),
                channel@,
                0,
            ) is Some,
            r matches Some(e) ==> e@ == endpoints_view(self.endpoints@)[endpoint_named(
                endpoints_view(self.endpoints@),
                channel@,
                0,
            )->0],
    {
        if channel.is_empty() {
            return None;
        }
        let ghost es = endpoints_view(self.endpoints@);
        let mut i: usize = 0;
        while i < self.endpoints.len()
            invariant
                i <= self.endpoints@.len(),
                es == endpoints_view(self.endpoints@),
                endpoint_named(es, channel@, 0) == endpoint_named(es, channel@, i as int),
                channel@.len() > 0,
            decreases self.endpoints.len() - i,
        {
            let e = &self.endpoints[i];
            assert(es[i as int] == e@);
            if e.enabled && (same_ignoring_case(e.id.as_str(), channel) || same_ignoring_case(
                e.kind.as_str(),
                channel,
            )) {
                return Some(e);
            }
            i = i + 1;
        }
        None
    }
}

// ---------------------------------------------------------------------------
// Laws
// ---------------------------------------------------------------------------

/// Saving what the console shows wipes no secret: a hidden secret and every hidden
/// value stay as they were, and a typed one replaces them.
pub proof fn law_hidden_secrets_survive(e: EndpointV, prev: EndpointV, k: Seq<char>)
    ensures
        blank(e.secret) ==> with_secrets_of(e, prev).secret == prev.secret,
        !blank(e.secret) ==> with_secrets_of(e, prev).secret == e.secret,
        prev.extra.contains_key(k) && (!e.extra.contains_key(k) || placeholder(e.extra[k]))
            ==> bound(with_secrets_of(e, prev).extra, k) == bound(prev.extra, k),
        e.extra.contains_key(k) && !placeholder(e.extra[k]) ==> bound(
            with_secrets_of(e, prev).extra,
            k,
        ) == bound(e.extra, k),
{
}

proof fn lemma_endpoint_index(list: Seq<EndpointV>, id: Seq<char>, i: int)
    requires
        0 <= i,
    ensures
        endpoint_index(list, id, i) matches Some(j) ==> i <= j < list.len() && list[j].id == id,
        endpoint_index(list, id, i) is None ==> forall|j: int|
            i <= j < list.len() ==> (#[trigger] list[j]).id != id,
    decreases list.len() - i,
{
    if i < list.len() && list[i].id != id {
        lemma_endpoint_index(list, id, i + 1);
    }
}

/// Putting one endpoint in leaves every other as it was and where it was.
pub proof fn law_upsert_keeps_siblings(list: Seq<EndpointV>, e: EndpointV, j: int)
    requires
        0 <= j < list.len(),
        list[j].id != named_endpoint(e).id,
    ensures
        upserted(list, e).len() >= list.len(),
        upserted(list, e)[j] == list[j],
{
    lemma_endpoint_index(list, named_endpoint(e).id, 0);
}

/// Taking an endpoint out takes out no other, and none of its identifier stays.
pub proof fn law_remove_keeps_siblings(list: Seq<EndpointV>, id: Seq<char>)
    ensures
        forall|j: int| 0 <= j < without_id(list, id).len() ==> (#[trigger] without_id(list, id)[j]).id != id,
        forall|j: int|
            0 <= j < list.len() && (#[trigger] list[j]).id != id ==> without_id(list, id).contains(
                list[j],
            ),
    decreases list.len(),
{
    if list.len() > 0 {
        let w = list.drop_last();
        law_remove_keeps_siblings(w, id);
        let r = without_id(list, id);
        assert forall|j: int| 0 <= j < r.len() implies (#[trigger] r[j]).id != id by {
            if j < without_id(w, id).len() {
                assert(r[j] == without_id(w, id)[j]);
            }
        }
        assert forall|j: int| 0 <= j < list.len() && (#[trigger] list[j]).id != id implies r.contains(
            list[j],
        ) by {
            if j < w.len() {
                assert(w[j] == list[j]);
                let b = without_id(w, id);
                assert(b.contains(w[j]));
                let q = choose|q: int| 0 <= q < b.len() && b[q] == w[j];
                assert(r[q] == list[j]);
            } else {
                assert(r[r.len() - 1] == list[j]);
            }
        }
    }
}

/// The kinds of channels that there are, and no other.
pub proof fn law_the_kinds_of_channels(k: Seq<char>)
    ensures
        kind_name(k) <==> seq![
            "cli"@,
            "sidecar"@,
            "console"@,
            "webhook"@,
            "telegram"@,
            "discord"@,
            "slack"@,
            "dingtalk"@,
            "feishu"@,
            "qq"@,
            "wechat"@,
            "wecom"@,
            "imessage"@,
            "matrix"@,
            "mattermost"@,
            "mqtt"@,
            "voice"@,
            "onebot"@,
            "sip"@,
            "xiaoyi"@,
            "yuanbao"@,
        ].contains(k),
{
    let all = seq![
        "cli"@,
        "sidecar"@,
        "console"@,
        "webhook"@,
        "telegram"@,
        "discord"@,
        "slack"@,
        "dingtalk"@,
        "feishu"@,
        "qq"@,
        "wechat"@,
        "wecom"@,
        "imessage"@,
        "matrix"@,
        "mattermost"@,
        "mqtt"@,
        "voice"@,
        "onebot"@,
        "sip"@,
        "xiaoyi"@,
        "yuanbao"@,
    ];
    assert(all[0] == "cli"@);
    assert(all[1] == "sidecar"@);
    assert(all[2] == "console"@);
    assert(all[3] == "webhook"@);
    assert(all[4] == "telegram"@);
    assert(all[5] == "discord"@);
    assert(all[6] == "slack"@);
    assert(all[7] == "dingtalk"@);
    assert(all[8] == "feishu"@);
    assert(all[9] == "qq"@);
    assert(all[10] == "wechat"@);
    assert(all[11] == "wecom"@);
    assert(all[12] == "imessage"@);
    assert(all[13] == "matrix"@);
    assert(all[14] == "mattermost"@);
    assert(all[15] == "mqtt"@);
    assert(all[16] == "voice"@);
    assert(all[17] == "onebot"@);
    assert(all[18] == "sip"@);
    assert(all[19] == "xiaoyi"@);
    assert(all[20] == "yuanbao"@);
}

/// A value only stands in for another where it is empty, a truth value or starred out.
pub proof fn law_what_stands_in(v: Seq<char>, rest: Seq<char>)
    ensures
        placeholder(Seq::empty()),
        placeholder("true"@) && placeholder("false"@),
        placeholder("****"@ + rest),
        v.len() > 0 && v != "true"@ && v != "false"@ && v[0] != '*' ==> !placeholder(v),
{
    reveal_strlit("****");
    let s = "****"@ + rest;
    assert(s.subrange(0, 4) =~= "****"@);
    if v.len() > 0 && v[0] != '*' && has_prefix(v, "****"@) {
        assert(v.subrange(0, 4)[0] == v[0]);
    }
}

/// What is put in is found under its identifier, else under its kind, with all that was
/// posted but what only stood in; and nothing is added where one was replaced.
pub proof fn law_what_is_put_in_is_there(list: Seq<EndpointV>, e: EndpointV)
    ensures
        ({
            let id = if blank(e.id) {
                e.kind
            } else {
                e.id
            };
            let r = upserted(list, e);
            &&& exists|i: int|
                0 <= i < r.len() && (#[trigger] r[i]).id == id && r[i].kind == e.kind
                    && r[i].enabled == e.enabled && r[i].allow_from == e.allow_from
                    && r[i].deny_from == e.deny_from && r[i].dm_policy == e.dm_policy
                    && r[i].group_policy == e.group_policy && r[i].require_mention
                    == e.require_mention && r[i].bind == e.bind && r[i].reply_url == e.reply_url
            &&& (exists|i: int| 0 <= i < list.len() && (#[trigger] list[i]).id == id) ==> r.len()
                == list.len()
            &&& !(exists|i: int| 0 <= i < list.len() && (#[trigger] list[i]).id == id) ==> r.len()
                == list.len() + 1 && r.last().secret == e.secret && r.last().extra == e.extra
        }),
{
    let n = named_endpoint(e);
    let r = upserted(list, e);
    lemma_found(list, n.id, 0);
    match endpoint_index(list, n.id, 0) {
        Some(i) => {
            assert(r[i].id == n.id);
        },
        None => {
            assert(r[r.len() - 1] == n);
        },
    }
}

proof fn lemma_found(list: Seq<EndpointV>, id: Seq<char>, i: int)
    requires
        0 <= i,
    ensures
        endpoint_index(list, id, i) matches Some(k) ==> i <= k < list.len() && list[k].id == id
            && forall|j: int| i <= j < k ==> (#[trigger] list[j]).id != id,
        endpoint_index(list, id, i) is None ==> forall|j: int|
            i <= j < list.len() ==> (#[trigger] list[j]).id != id,
    decreases list.len() - i,
{
    if i < list.len() && list[i].id != id {
        lemma_found(list, id, i + 1);
    }
}

/// Taking out leaves the others in their order, and none twice.
pub proof fn law_taking_out_keeps_the_order(list: Seq<EndpointV>, e: EndpointV, id: Seq<char>)
    ensures
        without_id(Seq::empty(), id).len() == 0,
        e.id == id ==> without_id(list.push(e), id) == without_id(list, id),
        e.id != id ==> without_id(list.push(e), id) == without_id(list, id).push(e),
{
    assert(list.push(e).drop_last() =~= list);
}

/// A channel is served by the first enabled endpoint that it names by identifier or by kind,
/// in letters of any case.
pub proof fn law_a_channel_names_its_endpoint(list: Seq<EndpointV>, channel: Seq<char>, i: int)
    requires
        0 <= i,
    ensures
        ({
            let r = endpoint_named(list, channel, i);
            &&& r matches Some(k) ==> i <= k < list.len() && list[k].enabled && (lower(list[k].id)
                == lower(channel) || lower(list[k].kind) == lower(channel))
            &&& forall|j: int|
                i <= j < list.len() && (#[trigger] list[j]).enabled && (lower(list[j].id) == lower(
                    channel,
                ) || lower(list[j].kind) == lower(channel)) ==> r is Some && r->0 <= j
        }),
    decreases list.len() - i,
{
    if i < list.len() && !(list[i].enabled && (lower(list[i].id) == lower(channel) || lower(
        list[i].kind,
    ) == lower(channel))) {
        law_a_channel_names_its_endpoint(list, channel, i + 1);
    }
}

/// A row of the list shows what a channel is and how it is set, and no secret.
pub proof fn law_a_row_shows_no_secret(e: EndpointV)
    ensures
        ({
            let r = endpoint_row(e);
            &&& r.field("id"@) == Some(JsonV::Str(e.id))
            &&& r.field("kind"@) == Some(JsonV::Str(e.kind))
            &&& r.field("enabled"@) == Some(JsonV::Bool(e.enabled))
            &&& r.field("bind"@) == Some(JsonV::Str(e.bind))
            &&& r.field("require_mention"@) == Some(JsonV::Bool(e.require_mention))
            &&& r.field("dm_policy"@) == Some(JsonV::Str(e.dm_policy))
            &&& r.field("group_policy"@) == Some(JsonV::Str(e.group_policy))
            &&& r.field("builtin"@) == Some(JsonV::Bool(false))
            &&& r.field("secret"@) is None && r.field("extra"@) is None
        }),
{
    reveal_strlit("id");
    reveal_strlit("kind");
    reveal_strlit("enabled");
    reveal_strlit("bind");
    reveal_strlit("require_mention");
    reveal_strlit("dm_policy");
    reveal_strlit("group_policy");
    reveal_strlit("builtin");
    reveal_strlit("secret");
    reveal_strlit("extra");
    assert("id"@.len() == 2 && "kind"@.len() == 4 && "enabled"@.len() == 7 && "bind"@.len() == 4
        && "require_mention"@.len() == 15 && "dm_policy"@.len() == 9 && "group_policy"@.len() == 12
        && "builtin"@.len() == 7 && "secret"@.len() == 6 && "extra"@.len() == 5);
    assert("kind"@[0] == 'k' && "bind"@[0] == 'b' && "enabled"@[0] == 'e' && "builtin"@[0] == 'b');
}

/// What is posted keeps the secrets of the one that it replaces, found by its identifier;
/// without one it is taken as it is.
pub proof fn law_what_is_posted_keeps_its_secrets(stored: Seq<EndpointV>, e: EndpointV, i: int)
    requires
        0 <= i < stored.len(),
        stored[i].id == e.id,
        e.id.len() > 0,
        forall|j: int| 0 <= j < i ==> (#[trigger] stored[j]).id != e.id,
    ensures
        merged_endpoint(stored, e) == with_secrets_of(e, stored[i]),
        blank(e.secret) ==> merged_endpoint(stored, e).secret == stored[i].secret,
        merged_endpoint(Seq::empty(), e) == e,
{
    lemma_found(stored, e.id, 0);
}

/// A channel is open to everybody until something else is said, and off.
pub proof fn law_what_a_channel_is_at_first()
    ensures
        ({
            let e = default_endpoint();
            &&& !e.enabled && !e.require_mention
            &&& e.dm_policy == "open"@ && e.group_policy == "open"@
            &&& e.allow_from.len() == 0 && e.deny_from.len() == 0
            &&& e.id.len() == 0 && e.kind.len() == 0 && e.secret.len() == 0
            &&& e.extra =~= Map::empty()
        }),
{
}

/// The row of a channel that every installation has.
pub proof fn law_how_a_builtin_channel_is_shown(id: Seq<char>, on: bool)
    ensures
        ({
            let r = builtin_row(id, on);
            &&& r.text_at("id"@) == Some(id) && r.text_at("kind"@) == Some(id)
            &&& r.at("enabled"@) == JsonV::Bool(on) && r.at("builtin"@) == JsonV::Bool(true)
        }),
{
    reveal_strlit("id");
    reveal_strlit("kind");
    reveal_strlit("enabled");
    reveal_strlit("builtin");
    assert("id"@.len() == 2 && "kind"@.len() == 4 && "enabled"@.len() == 7 && "builtin"@.len() == 7);
    assert("enabled"@[0] == 'e' && "builtin"@[0] == 'b');
}

} // verus!
