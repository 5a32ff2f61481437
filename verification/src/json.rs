//! JSON values with a mathematical view: objects are finite maps from text to
//! value, numbers are integers or the decimal text of a fraction.

use vstd::prelude::*;
use crate::text::{decimal, same, show_u64};

verus! {

/// A JSON value. Where an object names a key twice, the later entry counts.
#[derive(Debug, PartialEq, Eq)]
pub enum Json {
    Null,
    Bool(bool),
    /// An integer that is not negative.
    Uint(u64),
    /// A negative integer.
    Nint(i64),
    /// A number with a fraction or an exponent, as its decimal text.
    Float(String),
    Str(String),
    Array(Vec<Json>),
    Object(Vec<(String, Json)>),
}

/// What a `Json` means.
pub ghost enum JsonV {
    Null,
    Bool(bool),
    Int(int),
    Float(Seq<char>),
    Str(Seq<char>),
    Array(Seq<JsonV>),
    Object(Map<Seq<char>, JsonV>),
}

pub open spec fn items_view(v: Seq<Json>) -> Seq<JsonV>
    decreases v,
{
    if v.len() == 0 {
        Seq::empty()
    } else {
        items_view(v.drop_last()).push(v.last().view())
    }
}

pub open spec fn fields_view(v: Seq<(String, Json)>) -> Map<Seq<char>, JsonV>
    decreases v,
{
    if v.len() == 0 {
        Map::empty()
    } else {
        fields_view(v.drop_last()).insert(v.last().0@, v.last().1.view())
    }
}

impl View for Json {
    type V = JsonV;

    open spec fn view(&self) -> JsonV
        decreases self,
    {
        match self {
            Json::Null => JsonV::Null,
            Json::Bool(b) => JsonV::Bool(*b),
            Json::Uint(n) => JsonV::Int(*n as int),
            Json::Nint(n) => JsonV::Int(*n as int),
            Json::Float(s) => JsonV::Float(s@),
            Json::Str(s) => JsonV::Str(s@),
            Json::Array(v) => JsonV::Array(items_view(v@)),
            Json::Object(v) => JsonV::Object(fields_view(v@)),
        }
    }
}

/// Each text that a value holds, at any depth, is shorter than `n`.
pub open spec fn short_texts(v: JsonV, n: nat) -> bool
    decreases v,
{
    match v {
        JsonV::Str(s) => s.len() < n,
        JsonV::Array(a) => forall|i: int| 0 <= i < a.len() ==> short_texts(#[trigger] a[i], n),
        JsonV::Object(m) => forall|k: Seq<char>|
            m.contains_key(k) ==> short_texts(#[trigger] m[k], n),
        _ => true,
    }
}

proof fn lemma_short_item(v: JsonV, i: int, n: nat)
    requires
        v is Array,
        short_texts(v, n),
        0 <= i < v->Array_0.len(),
    ensures
        short_texts(v->Array_0[i], n),
{
}

pub proof fn lemma_short_field(v: JsonV, k: Seq<char>, n: nat)
    requires
        v is Object,
        short_texts(v, n),
        v->Object_0.contains_key(k),
    ensures
        short_texts(v->Object_0[k], n),
{
}

proof fn lemma_short_texts_grow(v: JsonV, a: nat, b: nat)
    requires
        short_texts(v, a),
        a <= b,
    ensures
        short_texts(v, b),
    decreases v,
{
    match v {
        JsonV::Array(s) => {
            assert forall|i: int| 0 <= i < s.len() implies short_texts(#[trigger] s[i], b) by {
                lemma_short_texts_grow(s[i], a, b);
            }
        },
        JsonV::Object(m) => {
            assert forall|k: Seq<char>| m.contains_key(k) implies short_texts(#[trigger] m[k], b) by {
                lemma_short_texts_grow(m[k], a, b);
            }
        },
        _ => {},
    }
}

proof fn lemma_items_bounded(v: Seq<Json>) -> (n: nat)
    ensures
        short_texts(JsonV::Array(items_view(v)), n),
    decreases v,
{
    if v.len() == 0 {
        0
    } else {
        let a = lemma_items_bounded(v.drop_last());
        let b = lemma_texts_bounded(v.last());
        let n = if a > b {
            a
        } else {
            b
        };
        let before = items_view(v.drop_last());
        let all = items_view(v);
        assert(all == before.push(v.last()@));
        assert forall|i: int| 0 <= i < all.len() implies short_texts(#[trigger] all[i], n) by {
            if i < all.len() - 1 {
                assert(before[i] == all[i]);
                lemma_short_item(JsonV::Array(before), i, a);
                lemma_short_texts_grow(all[i], a, n);
            } else {
                lemma_short_texts_grow(all[i], b, n);
            }
        }
        n
    }
}

proof fn lemma_fields_bounded(v: Seq<(String, Json)>) -> (n: nat)
    ensures
        short_texts(JsonV::Object(fields_view(v)), n),
    decreases v,
{
    if v.len() == 0 {
        0
    } else {
        let a = lemma_fields_bounded(v.drop_last());
        let b = lemma_texts_bounded(v.last().1);
        let n = if a > b {
            a
        } else {
            b
        };
        let before = fields_view(v.drop_last());
        let all = fields_view(v);
        assert(all == before.insert(v.last().0@, v.last().1@));
        assert forall|k: Seq<char>| all.contains_key(k) implies short_texts(#[trigger] all[k], n) by {
            if k == v.last().0@ {
                lemma_short_texts_grow(all[k], b, n);
            } else {
                assert(before.contains_key(k) && before[k] == all[k]);
                lemma_short_field(JsonV::Object(before), k, a);
                lemma_short_texts_grow(all[k], a, n);
            }
        }
        n
    }
}

/// A length that no text of a value reaches.
pub proof fn lemma_texts_bounded(v: Json) -> (n: nat)
    ensures
        short_texts(v@, n),
    decreases v,
{
    match v {
        Json::Str(s) => s@.len() + 1,
        Json::Array(a) => lemma_items_bounded(a@),
        Json::Object(f) => lemma_fields_bounded(f@),
        _ => 0,
    }
}

pub proof fn lemma_items_view(v: Seq<Json>)
    ensures
        items_view(v).len() == v.len(),
        forall|i: int| 0 <= i < v.len() ==> #[trigger] items_view(v)[i] == v[i]@,
    decreases v.len(),
{
    if v.len() > 0 {
        lemma_items_view(v.drop_last());
        assert(items_view(v) == items_view(v.drop_last()).push(v.last()@));
        assert forall|i: int| 0 <= i < v.len() implies #[trigger] items_view(v)[i] == v[i]@ by {
            if i < v.len() - 1 {
                assert(v.drop_last()[i] == v[i]);
                assert(items_view(v)[i] == items_view(v.drop_last())[i]);
            }
        }
    }
}

pub proof fn lemma_items_push(v: Seq<Json>, x: Json)
    ensures
        items_view(v.push(x)) == items_view(v).push(x@),
{
    assert(v.push(x).drop_last() =~= v);
}

pub proof fn lemma_fields_push(v: Seq<(String, Json)>, x: (String, Json))
    ensures
        fields_view(v.push(x)) == fields_view(v).insert(x.0@, x.1@),
{
    assert(v.push(x).drop_last() =~= v);
}

pub proof fn lemma_fields_last(v: Seq<(String, Json)>)
    requires
        v.len() > 0,
    ensures
        fields_view(v) == fields_view(v.drop_last()).insert(v.last().0@, v.last().1@),
{
}

/// A key is bound exactly where an entry names it.
pub proof fn lemma_fields_dom(v: Seq<(String, Json)>, k: Seq<char>)
    ensures
        fields_view(v).contains_key(k) <==> exists|i: int| 0 <= i < v.len() && #[trigger] v[i].0@
            == k,
    decreases v.len(),
{
    if v.len() > 0 {
        let w = v.drop_last();
        lemma_fields_dom(w, k);
        lemma_fields_last(v);
        assert(v[v.len() - 1].0@ == v.last().0@);
        if exists|i: int| 0 <= i < w.len() && #[trigger] w[i].0@ == k {
            let i = choose|i: int| 0 <= i < w.len() && #[trigger] w[i].0@ == k;
            assert(v[i].0@ == k);
        }
        if exists|i: int| 0 <= i < v.len() && #[trigger] v[i].0@ == k {
            let i = choose|i: int| 0 <= i < v.len() && #[trigger] v[i].0@ == k;
            if i < w.len() {
                assert(w[i].0@ == k);
            }
        }
    }
}

/// Entry `i` is the last that names its key.
pub open spec fn counts(v: Seq<(String, Json)>, i: int) -> bool {
    0 <= i < v.len() && forall|j: int| i < j < v.len() ==> (#[trigger] v[j]).0@ != v[i].0@
}

/// The bindings of an object are those of the last entry for each key.
pub proof fn lemma_fields_counts(v: Seq<(String, Json)>)
    ensures
        forall|i: int| #[trigger]
            counts(v, i) ==> fields_view(v).contains_key(v[i].0@) && fields_view(v)[v[i].0@]
                == v[i].1@,
        forall|k: Seq<char>|
            fields_view(v).contains_key(k) ==> exists|i: int| #[trigger]
                counts(v, i) && v[i].0@ == k,
    decreases v.len(),
{
    if v.len() > 0 {
        let w = v.drop_last();
        lemma_fields_counts(w);
        lemma_fields_last(v);
        assert forall|i: int| #[trigger] counts(v, i) implies fields_view(v).contains_key(v[i].0@)
            && fields_view(v)[v[i].0@] == v[i].1@ by {
            if i < w.len() {
                assert(counts(w, i)) by {
                    assert forall|j: int| i < j < w.len() implies (#[trigger] w[j]).0@
                        != w[i].0@ by {
                        assert(v[j] == w[j]);
                    }
                }
                assert(v[v.len() - 1].0@ != v[i].0@);
            }
        }
        assert forall|k: Seq<char>| fields_view(v).contains_key(k) implies exists|i: int| #[trigger]
            counts(v, i) && v[i].0@ == k by {
            if k == v.last().0@ {
                assert(counts(v, v.len() - 1));
            } else {
                assert(fields_view(w).contains_key(k));
                let i = choose|i: int| #[trigger] counts(w, i) && w[i].0@ == k;
                assert(counts(v, i)) by {
                    assert forall|j: int| i < j < v.len() implies (#[trigger] v[j]).0@
                        != v[i].0@ by {
                        if j < w.len() {
                            assert(w[j] == v[j]);
                        }
                    }
                }
            }
        }
    }
}

/// Whether entry `i` is the last that names its key.
pub fn entry_counts(v: &Vec<(String, Json)>, i: usize) -> (r: bool)
    requires
        i < v.len(),
    ensures
        r == counts(v@, i as int),
{
    let mut j: usize = i + 1;
    while j < v.len()
        invariant
            i < j <= v@.len(),
            forall|k: int| i < k < j ==> (#[trigger] v@[k]).0@ != v@[i as int].0@,
        decreases v.len() - j,
    {
        if same(v[j].0.as_str(), v[i].0.as_str()) {
            assert(v@[j as int].0@ == v@[i as int].0@);
            return false;
        }
        j = j + 1;
    }
    true
}

// ---------------------------------------------------------------------------
// Reading
// ---------------------------------------------------------------------------

impl JsonV {
    /// The value under `k`, where this is an object that binds it.
    pub open spec fn field(self, k: Seq<char>) -> Option<JsonV> {
        match self {
            JsonV::Object(m) => if m.contains_key(k) {
                Some(m[k])
            } else {
                None
            },
            _ => None,
        }
    }

    pub open spec fn text(self) -> Option<Seq<char>> {
        match self {
            JsonV::Str(s) => Some(s),
            _ => None,
        }
    }

    pub open spec fn list(self) -> Option<Seq<JsonV>> {
        match self {
            JsonV::Array(s) => Some(s),
            _ => None,
        }
    }

    pub open spec fn integer(self) -> Option<int> {
        match self {
            JsonV::Int(n) => Some(n),
            _ => None,
        }
    }

    /// The value under `k`, `null` where there is none.
    pub open spec fn at(self, k: Seq<char>) -> JsonV {
        match self.field(k) {
            Some(v) => v,
            None => JsonV::Null,
        }
    }

    /// The first item of a list, `null` where there is none.
    pub open spec fn first(self) -> JsonV {
        match self {
            JsonV::Array(s) => if s.len() > 0 {
                s[0]
            } else {
                JsonV::Null
            },
            _ => JsonV::Null,
        }
    }

    /// The value under `a` and `b`.
    pub open spec fn field2(self, a: Seq<char>, b: Seq<char>) -> Option<JsonV> {
        match self.field(a) {
            Some(v) => v.field(b),
            None => None,
        }
    }

    /// The text of a number.
    pub open spec fn number_text(self) -> Option<Seq<char>> {
        match self {
            JsonV::Int(n) => Some(signed_decimal(n)),
            JsonV::Float(s) => Some(s),
            _ => None,
        }
    }

    /// The text under `k`.
    pub open spec fn text_at(self, k: Seq<char>) -> Option<Seq<char>> {
        match self.field(k) {
            Some(v) => v.text(),
            None => None,
        }
    }
}

/// The decimal text of an integer.
pub open spec fn signed_decimal(n: int) -> Seq<char> {
    if n < 0 {
        seq!['-'] + decimal((-n) as nat)
    } else {
        decimal(n as nat)
    }
}

/// The decimal text of an integer.
pub fn show_i64(n: i64) -> (r: String)
    ensures
        r@ == signed_decimal(n as int),
{
    if n < 0 {
        let mut out: String = String::new();
        out.push('-');
        assert(out@ =~= seq!['-']);
        let m: u64 = (-(n + 1)) as u64 + 1;
        out.append(show_u64(m).as_str());
        out
    } else {
        show_u64(n as u64)
    }
}

/// The text of an optional view.
pub open spec fn opt_text(s: Option<String>) -> Option<Seq<char>> {
    match s {
        Some(t) => Some(t@),
        None => None,
    }
}

/// The view of an optional value.
pub open spec fn opt_json(v: Option<Json>) -> Option<JsonV> {
    match v {
        Some(j) => Some(j@),
        None => None,
    }
}

impl Json {
    /// The integer `n`.
    pub fn number(n: i64) -> (r: Json)
        ensures
            r@ == JsonV::Int(n as int),
    {
        if n >= 0 {
            Json::Uint(n as u64)
        } else {
            Json::Nint(n)
        }
    }

    /// The text `s`.
    pub fn string(s: &str) -> (r: Json)
        ensures
            r@ == JsonV::Str(s@),
    {
        Json::Str(s.to_owned())
    }

    /// The list of one value.
    pub fn list_of(v: Json) -> (r: Json)
        ensures
            r@ == JsonV::Array(seq![v@]),
    {
        let mut items: Vec<Json> = Vec::new();
        assert(items_view(items@) =~= Seq::empty());
        proof {
            lemma_items_push(items@, v);
        }
        items.push(v);
        assert(items_view(items@) =~= seq![v@]);
        Json::Array(items)
    }

    /// The object without entries.
    pub fn object() -> (r: Json)
        ensures
            r@ == JsonV::Object(Map::empty()),
    {
        let v: Vec<(String, Json)> = Vec::new();
        assert(fields_view(v@) =~= Map::empty());
        Json::Object(v)
    }

    /// The value under `key`, where this is an object that binds it.
    pub fn get(&self, key: &str) -> (r: Option<&Json>)
        ensures
            r is Some <==> self@.field(key@) is Some,
            r matches Some(j) ==> self@.field(key@) == Some(j@),
    {
        match self {
            Json::Object(v) => {
                let mut n: usize = v.len();
                assert(v@.take(n as int) =~= v@);
                while n > 0
                    invariant
                        n <= v@.len(),
                        self@ == JsonV::Object(fields_view(v@)),
                        fields_view(v@).contains_key(key@) == fields_view(
                            v@.take(n as int),
                        ).contains_key(key@),
                        fields_view(v@.take(n as int)).contains_key(key@) ==> fields_view(
                            v@,
                        )[key@] == fields_view(v@.take(n as int))[key@],
                    decreases n,
                {
                    assert(v@.take(n as int).drop_last() =~= v@.take(n - 1));
                    proof {
                        lemma_fields_last(v@.take(n as int));
                    }
                    if same(v[n - 1].0.as_str(), key) {
                        return Some(&v[n - 1].1);
                    }
                    n = n - 1;
                }
                assert(v@.take(0) =~= Seq::empty());
                None
            },
            _ => None,
        }
    }

    pub fn as_str(&self) -> (r: Option<&str>)
        ensures
            r is Some <==> self@.text() is Some,
            r matches Some(s) ==> self@.text() == Some(s@),
    {
        match self {
            Json::Str(s) => Some(s.as_str()),
            _ => None,
        }
    }

    /// The integer, where it is one that is not negative and fits in 64 bits.
    pub fn as_u64(&self) -> (r: Option<u64>)
        ensures
            r is Some <==> (self@.integer() is Some && 0 <= self@.integer()->0 <= u64::MAX),
            r matches Some(n) ==> self@.integer() == Some(n as int),
    {
        match self {
            Json::Uint(n) => Some(*n),
            Json::Nint(n) => if *n >= 0 {
                Some(*n as u64)
            } else {
                None
            },
            _ => None,
        }
    }

    /// The integer, where it fits in 64 bits with a sign.
    pub fn as_i64(&self) -> (r: Option<i64>)
        ensures
            r is Some <==> (self@.integer() is Some && i64::MIN <= self@.integer()->0 <= i64::MAX),
            r matches Some(n) ==> self@.integer() == Some(n as int),
    {
        match self {
            Json::Uint(n) => if *n <= i64::MAX as u64 {
                Some(*n as i64)
            } else {
                None
            },
            Json::Nint(n) => Some(*n),
            _ => None,
        }
    }

    /// The text of a number.
    pub fn number_text(&self) -> (r: Option<String>)
        ensures
            r is Some <==> self@.number_text() is Some,
            r matches Some(s) ==> self@.number_text() == Some(s@),
    {
        match self {
            Json::Uint(n) => Some(show_u64(*n)),
            Json::Nint(n) => Some(show_i64(*n)),
            Json::Float(s) => Some(s.clone()),
            _ => None,
        }
    }

    pub fn is_null(&self) -> (r: bool)
        ensures
            r == (self@ == JsonV::Null),
    {
        match self {
            Json::Null => true,
            _ => false,
        }
    }

    pub fn is_object(&self) -> (r: bool)
        ensures
            r == (self@ is Object),
    {
        match self {
            Json::Object(_) => true,
            _ => false,
        }
    }

    /// The text under `key`.
    pub fn text_at(&self, key: &str) -> (r: Option<&str>)
        ensures
            r is Some <==> self@.text_at(key@) is Some,
            r matches Some(s) ==> self@.text_at(key@) == Some(s@),
    {
        match self.get(key) {
            Some(v) => v.as_str(),
            None => None,
        }
    }

    /// The value under `a` and `b`.
    pub fn get2(&self, a: &str, b: &str) -> (r: Option<&Json>)
        ensures
            r is Some <==> self@.field2(a@, b@) is Some,
            r matches Some(j) ==> self@.field2(a@, b@) == Some(j@),
    {
        match self.get(a) {
            Some(v) => v.get(b),
            None => None,
        }
    }

    /// The first item of a list.
    pub fn first(&self) -> (r: Option<&Json>)
        ensures
            r is None ==> self@.first() == JsonV::Null,
            r matches Some(j) ==> self@.first() == j@,
    {
        match self {
            Json::Array(v) => {
                proof {
                    lemma_items_view(v@);
                }
                if v.len() > 0 {
                    assert(items_view(v@)[0] == v@[0]@);
                    Some(&v[0])
                } else {
                    None
                }
            },
            _ => None,
        }
    }

    /// The same value again.
    pub fn copy(&self) -> (r: Json)
        ensures
            r@ == self@,
        decreases self,
    {
        match self {
            Json::Null => Json::Null,
            Json::Bool(b) => Json::Bool(*b),
            Json::Uint(n) => Json::Uint(*n),
            Json::Nint(n) => Json::Nint(*n),
            Json::Float(s) => Json::Float(s.clone()),
            Json::Str(s) => Json::Str(s.clone()),
            Json::Array(v) => {
                let mut out: Vec<Json> = Vec::new();
                let mut i: usize = 0;
                while i < v.len()
                    invariant
                        i <= v@.len(),
                        decreases_to!(self => v),
                        items_view(out@) == items_view(v@.take(i as int)),
                    decreases v.len() - i,
                {
                    let ghost before = out@;
                    let x = v[i].copy();
                    out.push(x);
                    proof {
                        lemma_items_push(before, x);
                        assert(v@.take(i + 1).drop_last() =~= v@.take(i as int));
                    }
                    i = i + 1;
                }
                assert(v@.take(i as int) =~= v@);
                Json::Array(out)
            },
            Json::Object(v) => {
                let mut out: Vec<(String, Json)> = Vec::new();
                let mut i: usize = 0;
                while i < v.len()
                    invariant
                        i <= v@.len(),
                        decreases_to!(self => v),
                        fields_view(out@) == fields_view(v@.take(i as int)),
                    decreases v.len() - i,
                {
                    let ghost before = out@;
                    let x = (v[i].0.clone(), v[i].1.copy());
                    out.push(x);
                    proof {
                        lemma_fields_push(before, x);
                        assert(v@.take(i + 1).drop_last() =~= v@.take(i as int));
                    }
                    i = i + 1;
                }
                assert(v@.take(i as int) =~= v@);
                Json::Object(out)
            },
        }
    }

    /// The object with `key` bound to `value`. A value that is no object counts as
    /// the object without entries.
    pub fn with(self, key: &str, value: Json) -> (r: Json)
        ensures
            r@ == JsonV::Object(fields_of(self@).insert(key@, value@)),
    {
        let entries: Vec<(String, Json)> = match self {
            Json::Object(v) => v,
            _ => {
                let v: Vec<(String, Json)> = Vec::new();
                assert(fields_view(v@) =~= Map::empty());
                v
            },
        };
        Json::Object(set_field(entries, key, value))
    }

    /// Binds `key` to `value`. A value that is no object becomes one first.
    pub fn set(&mut self, key: &str, value: Json)
        ensures
            final(self)@ == JsonV::Object(fields_of(old(self)@).insert(key@, value@)),
    {
        let mut before: Json = Json::Null;
        std::mem::swap(self, &mut before);
        *self = before.with(key, value);
    }
}

/// The bindings of a value: none where it is no object.
pub open spec fn fields_of(v: JsonV) -> Map<Seq<char>, JsonV> {
    match v {
        JsonV::Object(m) => m,
        _ => Map::empty(),
    }
}

/// The object `v` with `k` bound to `x`.
pub open spec fn put(v: JsonV, k: Seq<char>, x: JsonV) -> JsonV {
    JsonV::Object(fields_of(v).insert(k, x))
}

/// The entries with `key` bound to `value`.
fn set_field(v: Vec<(String, Json)>, key: &str, value: Json) -> (r: Vec<(String, Json)>)
    ensures
        fields_view(r@) == fields_view(v@).insert(key@, value@),
{
    let mut v = v;
    let ghost all = v@;
    let mut out: Vec<(String, Json)> = Vec::new();
    let mut i: usize = 0;
    let n: usize = v.len();
    while i < n
        invariant
            i <= n == all.len(),
            v@ == all.skip(i as int),
            fields_view(out@) == fields_view(all.take(i as int)).remove(key@),
        decreases n - i,
    {
        let ghost before = out@;
        let e = v.remove(0);
        proof {
            assert(e == all[i as int]);
            assert(v@ =~= all.skip(i + 1));
            assert(all.take(i + 1).drop_last() =~= all.take(i as int));
            lemma_fields_push(before, e);
        }
        if !same(e.0.as_str(), key) {
            out.push(e);
            assert(fields_view(out@) =~= fields_view(all.take(i + 1)).remove(key@));
        } else {
            assert(fields_view(out@) =~= fields_view(all.take(i + 1)).remove(key@));
        }
        i = i + 1;
    }
    assert(all.take(i as int) =~= all);
    let ghost before = out@;
    let e = (key.to_owned(), value);
    proof {
        lemma_fields_push(before, e);
        assert(fields_view(all).remove(key@).insert(key@, value@) =~= fields_view(all).insert(
            key@,
            value@,
        ));
    }
    out.push(e);
    out
}

/// `m` with the bindings of the entries `v` over it.
pub open spec fn overlaid(m: Map<Seq<char>, JsonV>, v: JsonV) -> Map<Seq<char>, JsonV> {
    m.union_prefer_right(fields_of(v))
}

impl Json {
    /// Binds every key of `other` as `other` does.
    pub fn overlay(&mut self, other: &Json)
        ensures
            final(self)@ == (if other@ is Object {
                JsonV::Object(overlaid(fields_of(old(self)@), other@))
            } else {
                old(self)@
            }),
    {
        if let Json::Object(v) = other {
            let ghost first = fields_of(self@);
            let mut out: Json = Json::object();
            if let Json::Object(_) = self {
                out = self.copy();
            }
            let mut i: usize = 0;
            assert(fields_view(v@.take(0)) =~= Map::empty());
            assert(first.union_prefer_right(fields_view(v@.take(0))) =~= first);
            while i < v.len()
                invariant
                    i <= v@.len(),
                    out@ == JsonV::Object(first.union_prefer_right(fields_view(v@.take(i as int)))),
                decreases v.len() - i,
            {
                out.set(v[i].0.as_str(), v[i].1.copy());
                proof {
                    lemma_fields_last(v@.take(i + 1));
                    assert(v@.take(i + 1).drop_last() =~= v@.take(i as int));
                    assert(first.union_prefer_right(fields_view(v@.take(i + 1)))
                        =~= first.union_prefer_right(fields_view(v@.take(i as int))).insert(
                        v@[i as int].0@,
                        v@[i as int].1@,
                    ));
                }
                i = i + 1;
            }
            assert(v@.take(i as int) =~= v@);
            *self = out;
        }
    }
}

impl Clone for Json {
    fn clone(&self) -> (r: Json)
        ensures
            r@ == self@,
    {
        self.copy()
    }
}

/// What an object binds: what was put in last under a key is there, and nothing else under
/// it changes; what is no object binds nothing.
pub proof fn law_what_is_put_in_is_there(v: JsonV, k: Seq<char>, x: JsonV, other: Seq<char>)
    ensures
        put(v, k, x).field(k) == Some(x),
        put(v, k, x).at(k) == x,
        v is Object && other != k ==> put(v, k, x).field(other) == v.field(other),
        !(v is Object) ==> v.field(k) is None && v.at(k) is Null,
        v.field(k) is None ==> v.at(k) is Null && v.text_at(k) is None,
        v.field(k) == Some(JsonV::Str(other)) ==> v.text_at(k) == Some(other),
        v.field(k) == Some(x) && !(x is Str) ==> v.text_at(k) is None,
{
}

/// The first item of a list, and what stands below a key below a key.
pub proof fn law_what_stands_where(items: Seq<JsonV>, v: JsonV, a: Seq<char>, b: Seq<char>)
    ensures
        items.len() > 0 ==> JsonV::Array(items).first() == items[0],
        items.len() == 0 ==> JsonV::Array(items).first() is Null,
        v.field2(a, b) == v.at(a).field(b),
{
}

/// What is laid over an object counts, and what it does not bind stays.
pub proof fn law_what_is_laid_over_counts(m: Map<Seq<char>, JsonV>, v: JsonV, k: Seq<char>)
    ensures
        v.field(k) matches Some(x) ==> overlaid(m, v).contains_key(k) && overlaid(m, v)[k] == x,
        v.field(k) is None && m.contains_key(k) ==> overlaid(m, v).contains_key(k) && overlaid(
            m,
            v,
        )[k] == m[k],
        v.field(k) is None && !m.contains_key(k) ==> !overlaid(m, v).contains_key(k),
{
}

/// A whole number is shown by its digits, a negative one behind a minus sign.
pub proof fn law_how_a_number_is_shown(n: nat)
    ensures
        signed_decimal(n as int) == decimal(n),
        n > 0 ==> signed_decimal(-n) == seq!['-'] + decimal(n),
        JsonV::Int(n as int).number_text() == Some(decimal(n)),
        JsonV::Null.number_text() is None,
{
}

} // verus!
