//! A table of texts by text.

use vstd::prelude::*;
use crate::text::same;

verus! {

/// A table of texts by text. Where a key is named twice, the later entry counts.
#[derive(Debug, PartialEq, Eq)]
pub struct Table {
    pub entries: Vec<(String, String)>,
}

pub open spec fn bindings(v: Seq<(String, String)>) -> Map<Seq<char>, Seq<char>>
    decreases v.len(),
{
    if v.len() == 0 {
        Map::empty()
    } else {
        bindings(v.drop_last()).insert(v.last().0@, v.last().1@)
    }
}

/// What a map binds a key to.
pub open spec fn bound(m: Map<Seq<char>, Seq<char>>, k: Seq<char>) -> Option<Seq<char>> {
    if m.contains_key(k) {
        Some(m[k])
    } else {
        None
    }
}

impl View for Table {
    type V = Map<Seq<char>, Seq<char>>;

    open spec fn view(&self) -> Map<Seq<char>, Seq<char>> {
        bindings(self.entries@)
    }
}

pub proof fn lemma_bindings_push(v: Seq<(String, String)>, x: (String, String))
    ensures
        bindings(v.push(x)) == bindings(v).insert(x.0@, x.1@),
{
    assert(v.push(x).drop_last() =~= v);
}

impl Table {
    pub fn new() -> (r: Table)
        ensures
            r@ == Map::<Seq<char>, Seq<char>>::empty(),
    {
        Table { entries: Vec::new() }
    }

    /// The text under `key`.
    pub fn get(&self, key: &str) -> (r: Option<&String>)
        ensures
            r is Some <==> self@.contains_key(key@),
            r matches Some(s) ==> self@[key@] == s@,
    {
        let v = &self.entries;
        let mut n: usize = v.len();
        assert(v@.take(n as int) =~= v@);
        while n > 0
            invariant
                n <= v@.len(),
                v == self.entries,
                bindings(v@).contains_key(key@) == bindings(v@.take(n as int)).contains_key(key@),
                bindings(v@.take(n as int)).contains_key(key@) ==> bindings(v@)[key@] == bindings(
                    v@.take(n as int),
                )[key@],
            decreases n,
        {
            assert(v@.take(n as int).drop_last() =~= v@.take(n - 1));
            if same(v[n - 1].0.as_str(), key) {
                return Some(&v[n - 1].1);
            }
            n = n - 1;
        }
        None
    }

    /// Binds `key` to `value`.
    pub fn insert(&mut self, key: &str, value: &str)
        ensures
            final(self)@ == old(self)@.insert(key@, value@),
    {
        self.remove(key);
        let e = (key.to_owned(), value.to_owned());
        proof {
            lemma_bindings_push(self.entries@, e);
            assert(old(self)@.remove(key@).insert(key@, value@) =~= old(self)@.insert(
                key@,
                value@,
            ));
        }
        self.entries.push(e);
    }

    /// Unbinds `key`.
    pub fn remove(&mut self, key: &str)
        ensures
            final(self)@ == old(self)@.remove(key@),
    {
        let ghost all = self.entries@;
        let mut out: Vec<(String, String)> = Vec::new();
        let mut i: usize = 0;
        while i < self.entries.len()
            invariant
                i <= all.len(),
                self.entries@ == all,
                bindings(out@) == bindings(all.take(i as int)).remove(key@),
            decreases self.entries.len() - i,
        {
            let e = (self.entries[i].0.clone(), self.entries[i].1.clone());
            proof {
                assert(all.take(i + 1).drop_last() =~= all.take(i as int));
                lemma_bindings_push(out@, e);
            }
            let ghost before = out@;
            if !same(e.0.as_str(), key) {
                out.push(e);
            }
            assert(bindings(out@) =~= bindings(all.take(i + 1)).remove(key@));
            i = i + 1;
        }
        assert(all.take(i as int) =~= all);
        self.entries = out;
    }

    /// The same table again.
    pub fn copy(&self) -> (r: Table)
        ensures
            r@ == self@,
    {
        let mut out: Vec<(String, String)> = Vec::new();
        let mut i: usize = 0;
        while i < self.entries.len()
            invariant
                i <= self.entries@.len(),
                bindings(out@) == bindings(self.entries@.take(i as int)),
            decreases self.entries.len() - i,
        {
            let e = (self.entries[i].0.clone(), self.entries[i].1.clone());
            proof {
                assert(self.entries@.take(i + 1).drop_last() =~= self.entries@.take(i as int));
                lemma_bindings_push(out@, e);
            }
            out.push(e);
            i = i + 1;
        }
        assert(self.entries@.take(i as int) =~= self.entries@);
        Table { entries: out }
    }
}

} // verus!
