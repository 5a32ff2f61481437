//! Messages on their way in: past the rules of their channel, to a session, and in batches.

use vstd::prelude::*;
use crate::channel::access::{admission, gate, DenyReason, GateDecision};
use crate::channel::config::{
    endpoint_named, endpoints_view, ChannelEndpoint, ChannelsConfig, EndpointV,
};
use crate::channel::envelope::{all_joined, payloads_view, NativePayload, PayloadV};
use crate::text::same;

verus! {

/// The first enabled endpoint, from `i` on.
pub open spec fn first_enabled(list: Seq<EndpointV>, i: int) -> Option<int>
    decreases list.len() - i,
{
    if i < 0 || i >= list.len() {
        None
    } else if list[i].enabled {
        Some(i)
    } else {
        first_enabled(list, i + 1)
    }
}

/// The endpoint that a message came by: the one that its channel names, else the
/// first that is enabled.
pub open spec fn source_of(list: Seq<EndpointV>, channel: Seq<char>) -> Option<int> {
    if channel.len() > 0 && endpoint_named(list, channel, 0) is Some {
        endpoint_named(list, channel, 0)
    } else {
        first_enabled(list, 0)
    }
}

/// A message that passed, with the channel that it came by.
pub open spec fn stamped(e: EndpointV, p: PayloadV) -> PayloadV {
    if p.channel.len() == 0 {
        PayloadV {
            channel: if e.kind.len() == 0 {
                e.id
            } else {
                e.kind
            },
            ..p
        }
    } else {
        p
    }
}

/// What becomes of a message by the rules of its channel. Without any endpoint it passes
/// as it is.
pub open spec fn gated(list: Seq<EndpointV>, p: PayloadV) -> Result<PayloadV, DenyReason> {
    match source_of(list, p.channel) {
        Some(i) => match gate(list[i], p) {
            GateDecision::Deny(why) => Err(why),
            GateDecision::Allow => Ok(stamped(list[i], p)),
        },
        None => Ok(p),
    }
}

/// What became of a message.
#[derive(Debug, PartialEq, Eq)]
pub struct IngestResult {
    pub session_id: String,
    pub denied: Option<DenyReason>,
}

impl IngestResult {
    /// What became of a message: the session that it went to, or why it did not pass.
    pub fn of(outcome: Result<String, DenyReason>) -> (r: IngestResult)
        ensures
            outcome matches Ok(id) ==> r.session_id@ == id@ && r.denied is None,
            outcome matches Err(why) ==> r.session_id@.len() == 0 && r.denied == Some(why),
    {
        match outcome {
            Ok(session_id) => IngestResult { session_id, denied: None },
            Err(why) => IngestResult { session_id: String::new(), denied: Some(why) },
        }
    }
}

/// The way into all channels: the message to go on with, or why it does not.
pub fn ingest(cfg: &ChannelsConfig, env: NativePayload) -> (r: Result<NativePayload, DenyReason>)
    ensures
        r is Ok <==> gated(endpoints_view(cfg.endpoints@), env@) is Ok,
        r matches Ok(p) ==> gated(endpoints_view(cfg.endpoints@), env@) == Ok::<
            PayloadV,
            DenyReason,
        >(p@),
        r matches Err(why) ==> gated(endpoints_view(cfg.endpoints@), env@) == Err::<
            PayloadV,
            DenyReason,
        >(why),
{
    let ghost es = endpoints_view(cfg.endpoints@);
    let mut env = env;
    let ep: Option<&ChannelEndpoint> = match cfg.endpoint_for(env.channel.as_str()) {
        Some(e) => Some(e),
        None => {
            let mut found: Option<&ChannelEndpoint> = None;
            let mut i: usize = 0;
            while i < cfg.endpoints.len() && found.is_none()
                invariant
                    i <= cfg.endpoints@.len(),
                    es == endpoints_view(cfg.endpoints@),
                    found is None ==> first_enabled(es, 0) == first_enabled(es, i as int),
                    found matches Some(e) ==> first_enabled(es, 0) is Some && e@ == es[first_enabled(
                        es,
                        0,
                    )->0],
                decreases cfg.endpoints.len() - i,
            {
                assert(es[i as int] == cfg.endpoints@[i as int]@);
                if cfg.endpoints[i].enabled {
                    found = Some(&cfg.endpoints[i]);
                }
                i = i + 1;
            }
            found
        },
    };
    match ep {
        Some(e) => {
            assert(source_of(es, env@.channel) is Some && e@ == es[source_of(
                es,
                env@.channel,
            )->0]);
            match admission(e, &env) {
                GateDecision::Deny(why) => Err(why),
                GateDecision::Allow => {
                    if env.channel.as_str().is_empty() {
                        env.channel =
                        if e.kind.as_str().is_empty() {
                            e.id.clone()
                        } else {
                            e.kind.clone()
                        };
                    }
                    Ok(env)
                },
            }
        },
        None => Ok(env),
    }
}

// ---------------------------------------------------------------------------
// Batches
// ---------------------------------------------------------------------------

/// The messages of one session that wait to go on together.
#[derive(Debug, PartialEq, Eq)]
pub struct Batch {
    pub session_id: String,
    pub items: Vec<NativePayload>,
}

pub ghost struct BatchV {
    pub session_id: Seq<char>,
    pub items: Seq<PayloadV>,
}

impl View for Batch {
    type V = BatchV;

    open spec fn view(&self) -> BatchV {
        BatchV { session_id: self.session_id@, items: payloads_view(self.items@) }
    }
}

pub open spec fn batches_view(v: Seq<Batch>) -> Seq<BatchV> {
    v.map_values(|b: Batch| b@)
}

/// The messages that wait, by session.
#[derive(Debug, PartialEq, Eq)]
pub struct Dispatcher {
    pub pending: Vec<Batch>,
}

pub open spec fn batch_index(bs: Seq<BatchV>, id: Seq<char>, i: int) -> Option<int>
    decreases bs.len() - i,
{
    if i < 0 || i >= bs.len() {
        None
    } else if bs[i].session_id == id {
        Some(i)
    } else {
        batch_index(bs, id, i + 1)
    }
}

/// The messages of one session that wait.
pub open spec fn waiting(bs: Seq<BatchV>, id: Seq<char>) -> Seq<PayloadV> {
    match batch_index(bs, id, 0) {
        Some(i) => bs[i].items,
        None => Seq::empty(),
    }
}

/// The batches with one more message.
pub open spec fn batched(bs: Seq<BatchV>, p: PayloadV) -> Seq<BatchV> {
    match batch_index(bs, p.session_id, 0) {
        Some(i) => bs.update(
            i,
            BatchV { session_id: p.session_id, items: bs[i].items.push(p) },
        ),
        None => bs.push(BatchV { session_id: p.session_id, items: seq![p] }),
    }
}

/// Each session has one batch, and no batch is empty.
pub open spec fn batches_wf(bs: Seq<BatchV>) -> bool {
    &&& forall|i: int, j: int|
        0 <= i < j < bs.len() ==> (#[trigger] bs[i]).session_id != (#[trigger] bs[j]).session_id
    &&& forall|i: int| 0 <= i < bs.len() ==> (#[trigger] bs[i]).items.len() > 0
}

impl Dispatcher {
    pub fn new() -> (r: Dispatcher)
        ensures
            batches_view(r.pending@) == Seq::<BatchV>::empty(),
            batches_wf(batches_view(r.pending@)),
    {
        let pending: Vec<Batch> = Vec::new();
        assert(batches_view(pending@) =~= Seq::<BatchV>::empty());
        Dispatcher { pending }
    }

    fn find(&self, id: &str) -> (r: Option<usize>)
        ensures
            r is Some <==> batch_index(batches_view(self.pending@), id@, 0) is Some,
            r matches Some(i) ==> batch_index(batches_view(self.pending@), id@, 0) == Some(
                i as int,
            ) && i < self.pending@.len(),
    {
        let ghost bs = batches_view(self.pending@);
        let mut i: usize = 0;
        while i < self.pending.len()
            invariant
                i <= self.pending@.len(),
                bs == batches_view(self.pending@),
                batch_index(bs, id@, 0) == batch_index(bs, id@, i as int),
            decreases self.pending.len() - i,
        {
            assert(bs[i as int] == self.pending@[i as int]@);
            if same(self.pending[i].session_id.as_str(), id) {
                return Some(i);
            }
            i = i + 1;
        }
        None
    }

    /// A message came. Its session's wait starts again; the result names it.
    pub fn on_message(&mut self, env: NativePayload) -> (r: String)
        requires
            batches_wf(batches_view(old(self).pending@)),
        ensures
            r@ == env@.session_id,
            batches_view(final(self).pending@) == batched(
                batches_view(old(self).pending@),
                env@,
            ),
            batches_wf(batches_view(final(self).pending@)),
    {
        let ghost before = self.pending@;
        let ghost bs = batches_view(before);
        let id = env.session_id.clone();
        proof {
            lemma_batched_wf(bs, env@);
        }
        match self.find(id.as_str()) {
            Some(i) => {
                let mut b = self.pending.remove(i);
                assert(b == before[i as int]);
                assert(bs[i as int] == b@);
                let ghost items = b.items@;
                b.items.push(env);
                b.session_id = id.clone();
                assert(payloads_view(b.items@) =~= payloads_view(items).push(env@));
                self.pending.insert(i, b);
                assert(batches_view(self.pending@) =~= batched(bs, env@));
            },
            None => {
                let mut items: Vec<NativePayload> = Vec::new();
                items.push(env);
                assert(payloads_view(items@) =~= seq![env@]);
                self.pending.push(Batch { session_id: id.clone(), items });
                assert(batches_view(self.pending@) =~= batched(bs, env@));
            },
        }
        id
    }

    /// The wait of a session is over: its messages go on as one, and no longer wait.
    pub fn on_flush(&mut self, id: &str) -> (r: Option<NativePayload>)
        requires
            batches_wf(batches_view(old(self).pending@)),
        ensures
            r is None <==> batch_index(batches_view(old(self).pending@), id@, 0) is None,
            r is None ==> final(self).pending@ == old(self).pending@,
            r matches Some(p) ==> p@ == (PayloadV {
                text: Seq::empty(),
                prompt: Seq::empty(),
                ..all_joined(waiting(batches_view(old(self).pending@), id@))
            }) && batches_view(final(self).pending@) == batches_view(old(self).pending@).remove(
                batch_index(batches_view(old(self).pending@), id@, 0)->0,
            ),
            batches_wf(batches_view(final(self).pending@)),
    {
        let ghost bs = batches_view(self.pending@);
        match self.find(id) {
            Some(i) => {
                let ghost before = self.pending@;
                let b = self.pending.remove(i);
                assert(b == before[i as int]);
                assert(bs[i as int] == b@);
                assert(batches_view(self.pending@) =~= bs.remove(i as int));
                assert(payloads_view(b.items@).len() == b.items@.len());
                proof {
                    let cs = bs.remove(i as int);
                    assert forall|x: int, y: int| 0 <= x < y < cs.len() implies (
                    #[trigger] cs[x]).session_id != (#[trigger] cs[y]).session_id by {
                        let a = if x < i {
                            x
                        } else {
                            x + 1
                        };
                        let c = if y < i {
                            y
                        } else {
                            y + 1
                        };
                        assert(cs[x] == bs[a] && cs[y] == bs[c]);
                    }
                    assert forall|x: int| 0 <= x < cs.len() implies (
                    #[trigger] cs[x]).items.len() > 0 by {
                        let a = if x < i {
                            x
                        } else {
                            x + 1
                        };
                        assert(cs[x] == bs[a]);
                    }
                }
                NativePayload::merge(b.items)
            },
            None => None,
        }
    }
}

proof fn lemma_batch_index(bs: Seq<BatchV>, id: Seq<char>, i: int)
    requires
        0 <= i,
    ensures
        batch_index(bs, id, i) matches Some(j) ==> i <= j < bs.len() && bs[j].session_id == id,
        batch_index(bs, id, i) is None ==> forall|j: int|
            i <= j < bs.len() ==> (#[trigger] bs[j]).session_id != id,
    decreases bs.len() - i,
{
    if i < bs.len() && bs[i].session_id != id {
        lemma_batch_index(bs, id, i + 1);
    }
}

proof fn lemma_batched_wf(bs: Seq<BatchV>, p: PayloadV)
    requires
        batches_wf(bs),
    ensures
        batches_wf(batched(bs, p)),
{
    lemma_batch_index(bs, p.session_id, 0);
    let cs = batched(bs, p);
    assert forall|i: int, j: int| 0 <= i < j < cs.len() implies (#[trigger] cs[i]).session_id != (
    #[trigger] cs[j]).session_id by {
        if j < bs.len() {
            assert(cs[i].session_id == bs[i].session_id);
            assert(cs[j].session_id == bs[j].session_id);
        }
    }
}

proof fn lemma_batch_found(bs: Seq<BatchV>, id: Seq<char>, i: int, j: int)
    requires
        0 <= i <= j < bs.len(),
        bs[j].session_id == id,
        forall|q: int| i <= q < j ==> (#[trigger] bs[q]).session_id != id,
    ensures
        batch_index(bs, id, i) == Some(j),
    decreases j - i,
{
    if i < j {
        lemma_batch_found(bs, id, i + 1, j);
    }
}

/// A message joins those of its own session, behind them, and leaves what waits for
/// any other session as it was.
pub proof fn law_sessions_do_not_mix(bs: Seq<BatchV>, p: PayloadV, other: Seq<char>)
    requires
        batches_wf(bs),
    ensures
        waiting(batched(bs, p), p.session_id) == waiting(bs, p.session_id).push(p),
        other != p.session_id ==> waiting(batched(bs, p), other) == waiting(bs, other),
{
    let cs = batched(bs, p);
    let id = p.session_id;
    lemma_batch_index(bs, id, 0);
    lemma_batched_wf(bs, p);
    match batch_index(bs, id, 0) {
        Some(i) => {
            assert forall|q: int| 0 <= q < i implies (#[trigger] cs[q]).session_id != id by {
                assert(cs[q] == bs[q]);
                assert(bs[q].session_id != bs[i].session_id);
            }
            lemma_batch_found(cs, id, 0, i);
        },
        None => {
            let n = bs.len() as int;
            assert forall|q: int| 0 <= q < n implies (#[trigger] cs[q]).session_id != id by {
                assert(cs[q] == bs[q]);
            }
            lemma_batch_found(cs, id, 0, n);
            assert(Seq::<PayloadV>::empty().push(p) =~= seq![p]);
        },
    }
    if other != id {
        lemma_batch_index(bs, other, 0);
        lemma_batch_index(cs, other, 0);
        match batch_index(bs, other, 0) {
            Some(j) => {
                assert(cs[j] == bs[j]);
                assert forall|q: int| 0 <= q < j implies (#[trigger] cs[q]).session_id
                    != other by {
                    assert(cs[q].session_id == bs[q].session_id);
                    assert(bs[q].session_id != bs[j].session_id);
                }
                lemma_batch_found(cs, other, 0, j);
            },
            None => {
                if batch_index(cs, other, 0) is Some {
                    let j = batch_index(cs, other, 0)->0;
                    if j < bs.len() {
                        assert(cs[j].session_id == bs[j].session_id);
                    }
                }
            },
        }
    }
}

/// A message comes by the endpoint that its channel names, else by the first that is
/// enabled; it passes as that one's rules say, and without any endpoint as it is.
pub proof fn law_what_becomes_of_a_message(list: Seq<EndpointV>, p: PayloadV, i: int)
    requires
        0 <= i < list.len(),
        list[i].enabled,
        forall|j: int| 0 <= j < i ==> !(#[trigger] list[j]).enabled,
    ensures
        p.channel.len() == 0 && gate(list[i], p) == GateDecision::Allow ==> gated(list, p) is Ok,
        p.channel.len() == 0 && gate(list[i], p) is Deny ==> gated(list, p) == Err::<
            PayloadV,
            DenyReason,
        >(gate(list[i], p)->Deny_0),
        p.channel.len() == 0 && gate(list[i], p) == GateDecision::Allow && list[i].kind.len() > 0
            ==> gated(list, p) == Ok::<PayloadV, DenyReason>(
            PayloadV { channel: list[i].kind, ..p },
        ),
        p.channel.len() == 0 && gate(list[i], p) == GateDecision::Allow && list[i].kind.len() == 0
            ==> gated(list, p) == Ok::<PayloadV, DenyReason>(PayloadV { channel: list[i].id, ..p }),
        gated(Seq::empty(), p) == Ok::<PayloadV, DenyReason>(p),
{
    lemma_first_enabled(list, i, 0);
}

proof fn lemma_first_enabled(list: Seq<EndpointV>, i: int, k: int)
    requires
        0 <= k <= i < list.len(),
        list[i].enabled,
        forall|j: int| 0 <= j < i ==> !(#[trigger] list[j]).enabled,
    ensures
        first_enabled(list, k) == Some(i),
    decreases i - k,
{
    if k < i {
        assert(!list[k].enabled);
        lemma_first_enabled(list, i, k + 1);
    }
}

/// A message that names an endpoint is judged by that one's rules, whatever stands before it,
/// and keeps the channel that it names.
pub proof fn law_a_named_endpoint_judges(list: Seq<EndpointV>, p: PayloadV, i: int)
    requires
        p.channel.len() > 0,
        endpoint_named(list, p.channel, 0) == Some(i),
    ensures
        gate(list[i], p) == GateDecision::Allow ==> gated(list, p) == Ok::<PayloadV, DenyReason>(p),
        gate(list[i], p) matches GateDecision::Deny(why) ==> gated(list, p) == Err::<
            PayloadV,
            DenyReason,
        >(why),
{
}

} // verus!
