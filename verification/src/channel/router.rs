//! Which session a conversation belongs to. The same sender or group keeps one
//! session.

use vstd::prelude::*;
use crate::channel::envelope::{NativePayload, PayloadV};
use crate::oracle::{path_under, under};
use crate::table::{bindings, bound, Table};

verus! {

/// The sessions by conversation.
#[derive(Debug, PartialEq, Eq)]
pub struct SessionRouter {
    pub map: Table,
    /// What this process wrote. Only this goes over what is stored, so that two
    /// processes do not wipe each other's entries.
    pub dirty: Table,
}

pub ghost struct RouterV {
    pub map: Map<Seq<char>, Seq<char>>,
    pub dirty: Map<Seq<char>, Seq<char>>,
}

impl View for SessionRouter {
    type V = RouterV;

    open spec fn view(&self) -> RouterV {
        RouterV { map: self.map@, dirty: self.dirty@ }
    }
}

/// A router that has been told where a conversation goes.
pub open spec fn routed(r: RouterV, key: Seq<char>, id: Seq<char>) -> RouterV {
    RouterV { map: r.map.insert(key, id), dirty: r.dirty.insert(key, id) }
}

/// The session of a payload, the router after it, and whether there is something to
/// store: the session that the payload names, else the one of its conversation, else
/// a fresh one.
pub open spec fn resolved(r: RouterV, p: PayloadV, fresh: Seq<char>) -> (Seq<char>, RouterV, bool) {
    let key = p.route();
    if p.session_id.len() > 0 {
        (p.session_id, routed(r, key, p.session_id), true)
    } else if r.map.contains_key(key) {
        (r.map[key], r, false)
    } else {
        (fresh, routed(r, key, fresh), true)
    }
}

/// What to store where `disk` is stored.
pub open spec fn merged_routes(r: RouterV, disk: Map<Seq<char>, Seq<char>>) -> Map<
    Seq<char>,
    Seq<char>,
> {
    disk.union_prefer_right(r.dirty)
}

/// The session of a payload.
#[derive(Debug, PartialEq, Eq)]
pub struct Resolved {
    pub session_id: String,
    /// Whether the routes are to be stored.
    pub store: bool,
}

impl SessionRouter {
    /// Where the routes are stored under the user's home.
    pub fn in_home(home: &str) -> (r: String)
        ensures
            r@ == under(under(home@, "channels"@), "routes.json"@),
    {
        path_under(path_under(home, "channels").as_str(), "routes.json")
    }

    /// A router with what is stored.
    pub fn open(stored: Table) -> (r: SessionRouter)
        ensures
            r@ == (RouterV { map: stored@, dirty: Map::empty() }),
    {
        SessionRouter { map: stored, dirty: Table::new() }
    }

    fn touch(&mut self, key: &str, id: &str)
        ensures
            final(self)@ == routed(old(self)@, key@, id@),
    {
        self.map.insert(key, id);
        self.dirty.insert(key, id);
    }

    /// The session of a payload; `fresh` is the one to open where there is none.
    pub fn resolve(&mut self, env: &NativePayload, fresh: &str) -> (r: Resolved)
        ensures
            (r.session_id@, final(self)@, r.store) == resolved(old(self)@, env@, fresh@),
    {
        let key = env.route_key();
        if !env.session_id.as_str().is_empty() {
            self.touch(key.as_str(), env.session_id.as_str());
            return Resolved { session_id: env.session_id.clone(), store: true };
        }
        if let Some(id) = self.map.get(key.as_str()) {
            return Resolved { session_id: id.clone(), store: false };
        }
        self.touch(key.as_str(), fresh);
        Resolved { session_id: fresh.to_owned(), store: true }
    }

    /// The session of a conversation.
    pub fn lookup(&self, route_key: &str) -> (r: Option<&String>)
        ensures
            r is Some <==> self@.map.contains_key(route_key@),
            r matches Some(s) ==> s@ == self@.map[route_key@],
    {
        self.map.get(route_key)
    }

    /// What to store where `disk` is stored: this process's own entries over it.
    pub fn overlay(&self, disk: &Table) -> (r: Table)
        ensures
            r@ == merged_routes(self@, disk@),
    {
        let mut out = disk.copy();
        let ghost all = self.dirty.entries@;
        let mut i: usize = 0;
        assert(disk@.union_prefer_right(bindings(all.take(0))) =~= disk@);
        while i < self.dirty.entries.len()
            invariant
                i <= all.len(),
                all == self.dirty.entries@,
                out@ == disk@.union_prefer_right(bindings(all.take(i as int))),
            decreases self.dirty.entries.len() - i,
        {
            proof {
                assert(all.take(i + 1).drop_last() =~= all.take(i as int));
                assert(disk@.union_prefer_right(bindings(all.take(i + 1)))
                    =~= disk@.union_prefer_right(bindings(all.take(i as int))).insert(
                    all[i as int].0@,
                    all[i as int].1@,
                ));
            }
            out.insert(self.dirty.entries[i].0.as_str(), self.dirty.entries[i].1.as_str());
            i = i + 1;
        }
        assert(all.take(i as int) =~= all);
        out
    }
}

/// The same conversation keeps its session: what was resolved once is resolved the
/// same again, whatever fresh session is offered, and nothing is stored for it.
pub proof fn law_same_sender_keeps_session(
    r: RouterV,
    p: PayloadV,
    q: PayloadV,
    fresh: Seq<char>,
    other: Seq<char>,
)
    requires
        p.route() == q.route(),
        q.session_id.len() == 0,
    ensures
        resolved(resolved(r, p, fresh).1, q, other).0 == resolved(r, p, fresh).0,
        !resolved(resolved(r, p, fresh).1, q, other).2,
{
}

/// Storing keeps what other processes stored under keys that this one never wrote,
/// and stores all that this one wrote.
pub proof fn law_storing_keeps_other_keys(
    r: RouterV,
    disk: Map<Seq<char>, Seq<char>>,
    k: Seq<char>,
)
    ensures
        !r.dirty.contains_key(k) ==> bound(merged_routes(r, disk), k) == bound(disk, k),
        r.dirty.contains_key(k) ==> bound(merged_routes(r, disk), k) == bound(r.dirty, k),
{
}

/// A router that opens what another one stored resolves as that one did.
pub proof fn law_reopened_router_agrees(
    r: RouterV,
    disk: Map<Seq<char>, Seq<char>>,
    p: PayloadV,
    fresh: Seq<char>,
    other: Seq<char>,
)
    requires
        resolved(r, p, fresh).2,
        p.session_id.len() == 0,
    ensures
        resolved(
            RouterV {
                map: merged_routes(resolved(r, p, fresh).1, disk),
                dirty: Map::empty(),
            },
            p,
            other,
        ).0 == resolved(r, p, fresh).0,
{
}

/// Which session a message belongs to: the one that it names, which its conversation keeps
/// from then on; else the one of its conversation; else a fresh one, which it keeps too.
pub proof fn law_which_session_a_message_has(r: RouterV, p: PayloadV, fresh: Seq<char>)
    ensures
        ({
            let (id, after, store) = resolved(r, p, fresh);
            let k = p.route();
            &&& p.session_id.len() > 0 ==> id == p.session_id
            &&& p.session_id.len() == 0 && r.map.contains_key(k) ==> id == r.map[k] && after == r
                && !store
            &&& p.session_id.len() == 0 && !r.map.contains_key(k) ==> id == fresh
            &&& after.map.contains_key(k) && after.map[k] == id
            &&& store ==> after.dirty.contains_key(k) && after.dirty[k] == id
            &&& forall|q: Seq<char>|
                q != k ==> (#[trigger] after.map.contains_key(q) <==> r.map.contains_key(q))
            &&& forall|q: Seq<char>|
                q != k && r.map.contains_key(q) ==> #[trigger] after.map[q] == r.map[q]
        }),
{
}

/// The routes are to be stored whenever a session is named or a new one begins, and not
/// where the route was known.
pub proof fn law_when_routes_are_stored(r: RouterV, p: PayloadV, fresh: Seq<char>)
    ensures
        p.session_id.len() > 0 ==> resolved(r, p, fresh).2,
        p.session_id.len() == 0 ==> (resolved(r, p, fresh).2 <==> !r.map.contains_key(p.route())),
{
}

} // verus!
