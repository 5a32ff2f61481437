//! Feishu and Lark: events out of frames and JSON, and replies as messages.

use vstd::prelude::*;
use crate::channel::config::{ChannelEndpoint, EndpointV};
use crate::channel::envelope::{blank_payload, boolish, says_yes, NativePayload, PartV, PayloadV};
use crate::channel::wire::{extra, extra_of, js_at, js_at2, js_at3, js_text, or_else, or_text};
use crate::fault::{Fault, FaultV};
use crate::json::{
    items_view, lemma_items_view, lemma_short_field, lemma_texts_bounded, opt_json, opt_text, put, short_texts, Json,
    JsonV,
};
use crate::outside::{json_text, parse_json, parsed_json, print_json, read_utf8, settled_json};
use crate::pb::{
    ack_of, blank_frame, frame_bytes, header_value, pong_of, read_frame, FrameV, PB_CONTROL,
    PB_DATA, PbFrame,
};
use crate::text::{
    chars_of, contains, find, holds, lower, parse_i64, parse_unsigned, same, same_ignoring_case,
    search, signed_value, split, split_at_char, string_of, text2, text4, texts, to_lower, trim,
    trimmed, unsigned_value,
};

verus! {

// ---------------------------------------------------------------------------
// Settings
// ---------------------------------------------------------------------------

/// The application and its secret, under either name.
pub open spec fn credentials_of(e: EndpointV) -> Option<(Seq<char>, Seq<char>)> {
    let id = or_text(extra_of(e, "app_id"@), extra_of(e, "client_id"@));
    let secret = or_text(extra_of(e, "app_secret"@), extra_of(e, "client_secret"@));
    if id.len() == 0 || secret.len() == 0 {
        None
    } else {
        Some((id, secret))
    }
}

/// The application and its secret.
pub fn credentials(ep: &ChannelEndpoint) -> (r: Option<(String, String)>)
    ensures
        r is Some <==> credentials_of(ep@) is Some,
        r matches Some(x) ==> credentials_of(ep@) == Some((x.0@, x.1@)),
{
    let id = or_else(extra(ep, "app_id"), extra(ep, "client_id"));
    let secret = or_else(extra(ep, "app_secret"), extra(ep, "client_secret"));
    if id.as_str().is_empty() || secret.as_str().is_empty() {
        None
    } else {
        Some((id, secret))
    }
}

/// The host of an endpoint: Lark's where its domain or brand says so.
pub open spec fn base_of(e: EndpointV) -> Seq<char> {
    if holds(lower(extra_of(e, "domain"@)), "lark"@) || lower(extra_of(e, "tenant_brand"@))
        == "lark"@ {
        "https://open.larksuite.com"@
    } else {
        "https://open.feishu.cn"@
    }
}

/// The host of an endpoint.
pub fn open_base(ep: &ChannelEndpoint) -> (r: &'static str)
    ensures
        r@ == base_of(ep@),
{
    let domain = to_lower(extra(ep, "domain").as_str());
    let brand = to_lower(extra(ep, "tenant_brand").as_str());
    if contains(domain.as_str(), "lark") || same(brand.as_str(), "lark") {
        "https://open.larksuite.com"
    } else {
        "https://open.feishu.cn"
    }
}

// ---------------------------------------------------------------------------
// Numbers in an address
// ---------------------------------------------------------------------------

/// The pair of a key and its value, around the first `=`.
pub open spec fn pair_of(s: Seq<char>) -> Option<(Seq<char>, Seq<char>)> {
    match find(s, seq!['=']) {
        Some(i) => Some((s.take(i), s.skip(i + 1))),
        None => None,
    }
}

/// The value of the first pair, from `i` on, with a key.
pub open spec fn pair_value(pairs: Seq<Seq<char>>, key: Seq<char>, i: int) -> Option<Seq<char>>
    decreases pairs.len() - i,
{
    if i < 0 || i >= pairs.len() {
        None
    } else {
        match pair_of(pairs[i]) {
            Some((k, v)) => if k == key {
                Some(v)
            } else {
                pair_value(pairs, key, i + 1)
            },
            None => pair_value(pairs, key, i + 1),
        }
    }
}

pub open spec fn small_number(s: Seq<char>) -> int {
    match signed_value(s) {
        Some(n) => if i32::MIN <= n <= i32::MAX {
            n
        } else {
            0
        },
        None => 0,
    }
}

/// The number under a key in the query of an address, zero where there is none.
pub open spec fn query_number(url: Seq<char>, key: Seq<char>) -> int {
    match find(url, seq!['?']) {
        None => 0,
        Some(q) => match pair_value(split_at_char(url.skip(q + 1), '&'), key, 0) {
            Some(v) => small_number(v),
            None => 0,
        },
    }
}

fn split_once(s: &str, c: char) -> (r: Option<(String, String)>)
    ensures
        r is Some <==> find(s@, seq![c]) is Some,
        r matches Some(x) ==> x.0@ == s@.take(find(s@, seq![c])->0) && x.1@ == s@.skip(
            find(s@, seq![c])->0 + 1,
        ),
{
    let cs = chars_of(s);
    let mut pat: Vec<char> = Vec::new();
    pat.push(c);
    assert(pat@ =~= seq![c]);
    match search(&cs, &pat, 0) {
        Some(i) => {
            let a = string_of(&cs, 0, i);
            let b = string_of(&cs, i + 1, cs.len());
            assert(a@ =~= s@.take(i as int));
            assert(b@ =~= s@.skip(i + 1));
            Some((a, b))
        },
        None => None,
    }
}

/// The number under a key in the query of an address.
pub fn query_i32(url: &str, key: &str) -> (r: i32)
    ensures
        r == query_number(url@, key@),
{
    let q: String = match split_once(url, '?') {
        Some((_, q)) => q,
        None => {
            return 0;
        },
    };
    let pairs = split(q.as_str(), '&');
    let ghost ps = split_at_char(q@, '&');
    let mut i: usize = 0;
    while i < pairs.len()
        invariant
            i <= pairs@.len(),
            texts(pairs@) == ps,
            find(url@, seq!['?']) is Some,
            ps == split_at_char(url@.skip(find(url@, seq!['?'])->0 + 1), '&'),
            pair_value(ps, key@, 0) == pair_value(ps, key@, i as int),
        decreases pairs.len() - i,
    {
        assert(ps[i as int] == pairs@[i as int]@);
        if let Some((k, v)) = split_once(pairs[i].as_str(), '=') {
            if same(k.as_str(), key) {
                return match parse_i64(v.as_str()) {
                    Some(n) => if -2147483648 <= n && n <= 2147483647 {
                        n as i32
                    } else {
                        0
                    },
                    None => 0,
                };
            }
        }
        i = i + 1;
    }
    0
}

// ---------------------------------------------------------------------------
// Messages in parts
// ---------------------------------------------------------------------------

/// The parts of a message that have come so far.
#[derive(Debug, PartialEq, Eq)]
pub struct Fragments {
    pub id: String,
    pub sum: usize,
    pub parts: Vec<(usize, Vec<u8>)>,
}

pub ghost struct FragV {
    pub id: Seq<char>,
    pub sum: nat,
    pub parts: Map<nat, Seq<u8>>,
}

pub open spec fn parts_map(v: Seq<(usize, Vec<u8>)>) -> Map<nat, Seq<u8>>
    decreases v.len(),
{
    if v.len() == 0 {
        Map::empty()
    } else {
        parts_map(v.drop_last()).insert(v.last().0 as nat, v.last().1@)
    }
}

impl View for Fragments {
    type V = FragV;

    open spec fn view(&self) -> FragV {
        FragV { id: self.id@, sum: self.sum as nat, parts: parts_map(self.parts@) }
    }
}

pub open spec fn frags_view(v: Seq<Fragments>) -> Seq<FragV> {
    v.map_values(|f: Fragments| f@)
}

pub open spec fn frag_index(fs: Seq<FragV>, id: Seq<char>, i: int) -> Option<int>
    decreases fs.len() - i,
{
    if i < 0 || i >= fs.len() {
        None
    } else if fs[i].id == id {
        Some(i)
    } else {
        frag_index(fs, id, i + 1)
    }
}

/// The parts of a message as far as they count: those of the same number of parts.
pub open spec fn parts_so_far(fs: Seq<FragV>, id: Seq<char>, sum: nat) -> Map<nat, Seq<u8>> {
    match frag_index(fs, id, 0) {
        Some(i) => if fs[i].sum == sum {
            fs[i].parts
        } else {
            Map::empty()
        },
        None => Map::empty(),
    }
}

/// What waits, with the parts of one message as given.
pub open spec fn with_parts(fs: Seq<FragV>, f: FragV) -> Seq<FragV> {
    match frag_index(fs, f.id, 0) {
        Some(i) => fs.update(i, f),
        None => fs.push(f),
    }
}

/// What waits, without one message.
pub open spec fn without_parts(fs: Seq<FragV>, id: Seq<char>) -> Seq<FragV> {
    match frag_index(fs, id, 0) {
        Some(i) => fs.remove(i),
        None => fs,
    }
}

/// All parts are there.
pub open spec fn complete(m: Map<nat, Seq<u8>>, sum: nat) -> bool {
    forall|k: nat| k < sum ==> #[trigger] m.contains_key(k)
}

/// The first `n` parts, one after the other.
pub open spec fn in_sequence(m: Map<nat, Seq<u8>>, n: nat) -> Seq<u8>
    decreases n,
{
    if n == 0 {
        Seq::empty()
    } else {
        in_sequence(m, (n - 1) as nat) + m[(n - 1) as nat]
    }
}

pub open spec fn count_or(s: Seq<char>, default: nat) -> nat {
    match unsigned_value(s) {
        Some(n) => if n <= usize::MAX {
            n
        } else {
            default
        },
        None => default,
    }
}

/// The payload that a frame completes, and what waits after it. A frame that is no
/// part of anything carries its payload whole.
pub open spec fn assembled(fs: Seq<FragV>, f: FrameV) -> (Option<Seq<u8>>, Seq<FragV>) {
    let sum = count_or(header_value(f, "sum"@), 1);
    let seq = count_or(header_value(f, "seq"@), 0);
    let id = header_value(f, "message_id"@);
    if sum <= 1 || id.len() == 0 {
        (Some(f.payload), fs)
    } else {
        let before = parts_so_far(fs, id, sum);
        if seq >= sum {
            (Some(f.payload), with_parts(fs, FragV { id, sum, parts: before }))
        } else {
            let parts = before.insert(seq, f.payload);
            if complete(parts, sum) {
                (Some(in_sequence(parts, sum)), without_parts(fs, id))
            } else {
                (None, with_parts(fs, FragV { id, sum, parts }))
            }
        }
    }
}

impl Fragments {
    fn part(&self, k: usize) -> (r: Option<&Vec<u8>>)
        ensures
            r is Some <==> self@.parts.contains_key(k as nat),
            r matches Some(b) ==> self@.parts[k as nat] == b@,
    {
        let v = &self.parts;
        let mut n: usize = v.len();
        assert(v@.take(n as int) =~= v@);
        while n > 0
            invariant
                n <= v@.len(),
                v == self.parts,
                parts_map(v@).contains_key(k as nat) == parts_map(v@.take(n as int)).contains_key(
                    k as nat,
                ),
                parts_map(v@.take(n as int)).contains_key(k as nat) ==> parts_map(v@)[k as nat]
                    == parts_map(v@.take(n as int))[k as nat],
            decreases n,
        {
            assert(v@.take(n as int).drop_last() =~= v@.take(n - 1));
            if v[n - 1].0 == k {
                return Some(&v[n - 1].1);
            }
            n = n - 1;
        }
        None
    }

    fn put(&mut self, k: usize, b: Vec<u8>)
        ensures
            final(self)@ == (FragV {
                parts: old(self)@.parts.insert(k as nat, b@),
                ..old(self)@
            }),
    {
        let ghost before = self.parts@;
        self.parts.push((k, b));
        assert(self.parts@.drop_last() =~= before);
    }

    /// All parts one after the other, where all are there.
    fn whole(&self) -> (r: Option<Vec<u8>>)
        ensures
            r is Some <==> complete(self@.parts, self@.sum),
            r matches Some(b) ==> b@ == in_sequence(self@.parts, self@.sum),
    {
        let mut out: Vec<u8> = Vec::new();
        let mut k: usize = 0;
        while k < self.sum
            invariant
                k <= self.sum,
                forall|j: nat| j < k ==> #[trigger] self@.parts.contains_key(j),
                out@ == in_sequence(self@.parts, k as nat),
            decreases self.sum - k,
        {
            match self.part(k) {
                Some(b) => {
                    out.extend_from_slice(b.as_slice());
                },
                None => {
                    assert(!self@.parts.contains_key(k as nat));
                    return None;
                },
            }
            k = k + 1;
            assert(out@ =~= in_sequence(self@.parts, k as nat));
        }
        Some(out)
    }
}

fn find_frag(fs: &Vec<Fragments>, id: &str) -> (r: Option<usize>)
    ensures
        r is Some <==> frag_index(frags_view(fs@), id@, 0) is Some,
        r matches Some(i) ==> frag_index(frags_view(fs@), id@, 0) == Some(i as int) && i < fs@.len(),
{
    let ghost vs = frags_view(fs@);
    let mut i: usize = 0;
    while i < fs.len()
        invariant
            i <= fs@.len(),
            vs == frags_view(fs@),
            frag_index(vs, id@, 0) == frag_index(vs, id@, i as int),
        decreases fs.len() - i,
    {
        assert(vs[i as int] == fs@[i as int]@);
        if same(fs[i].id.as_str(), id) {
            return Some(i);
        }
        i = i + 1;
    }
    None
}

fn count_of(s: &str, default: usize) -> (r: usize)
    ensures
        r == count_or(s@, default as nat),
{
    match parse_unsigned(s, usize::MAX as u64) {
        Some(n) => n as usize,
        None => default,
    }
}

fn copy_bytes(b: &Vec<u8>) -> (r: Vec<u8>)
    ensures
        r@ == b@,
{
    let mut out: Vec<u8> = Vec::new();
    out.extend_from_slice(b.as_slice());
    assert(out@ =~= b@);
    out
}

/// The payload that a frame completes.
pub fn assemble(frame: &PbFrame, frags: &mut Vec<Fragments>) -> (r: Option<Vec<u8>>)
    ensures
        ({
            let a = assembled(frags_view(old(frags)@), frame@);
            &&& r is Some <==> a.0 is Some
            &&& r matches Some(b) ==> a.0 == Some(b@)
            &&& frags_view(final(frags)@) == a.1
        }),
{
    let sum: usize = count_of(frame.header("sum").as_str(), 1);
    let seq: usize = count_of(frame.header("seq").as_str(), 0);
    let id = frame.header("message_id");
    if sum <= 1 || id.as_str().is_empty() {
        return Some(copy_bytes(&frame.payload));
    }
    let ghost fs = frags_view(frags@);
    let ghost own = frags@;
    let place = find_frag(frags, id.as_str());
    let mut entry: Fragments = match place {
        Some(i) => {
            let f = frags.remove(i);
            assert(f == own[i as int]);
            assert(fs[i as int] == f@);
            assert(frags_view(frags@) =~= fs.remove(i as int));
            if f.sum == sum {
                f
            } else {
                let none: Vec<(usize, Vec<u8>)> = Vec::new();
                Fragments { id: id.clone(), sum, parts: none }
            }
        },
        None => {
            let none: Vec<(usize, Vec<u8>)> = Vec::new();
            Fragments { id: id.clone(), sum, parts: none }
        },
    };
    proof {
        lemma_frag_index(fs, id@, 0);
    }
    assert(entry@ == (FragV { id: id@, sum: sum as nat, parts: parts_so_far(fs, id@, sum as nat) }));
    let ghost left = frags@;
    if seq >= sum {
        let ghost ev = entry@;
        match place {
            Some(i) => frags.insert(i, entry),
            None => frags.push(entry),
        }
        assert(frags_view(frags@) =~= with_parts(fs, ev));
        return Some(copy_bytes(&frame.payload));
    }
    entry.put(seq, copy_bytes(&frame.payload));
    match entry.whole() {
        Some(b) => {
            assert(frags_view(frags@) =~= without_parts(fs, id@));
            Some(b)
        },
        None => {
            let ghost ev = entry@;
            match place {
                Some(i) => frags.insert(i, entry),
                None => frags.push(entry),
            }
            assert(frags_view(frags@) =~= with_parts(fs, ev));
            None
        },
    }
}

proof fn lemma_frag_index(fs: Seq<FragV>, id: Seq<char>, i: int)
    requires
        0 <= i,
    ensures
        frag_index(fs, id, i) matches Some(j) ==> i <= j < fs.len() && fs[j].id == id,
    decreases fs.len() - i,
{
    if i < fs.len() && fs[i].id != id {
        lemma_frag_index(fs, id, i + 1);
    }
}

/// The last part to come completes the message: where all other parts wait, the
/// payload is all of them in the order of their numbers, in whatever order they came,
/// and nothing of the message waits any more.
pub proof fn law_last_part_completes(fs: Seq<FragV>, f: FrameV, all: Map<nat, Seq<u8>>)
    requires
        ({
            let sum = count_or(header_value(f, "sum"@), 1);
            let seq = count_or(header_value(f, "seq"@), 0);
            let id = header_value(f, "message_id"@);
            &&& sum > 1
            &&& seq < sum
            &&& id.len() > 0
            &&& complete(all, sum)
            &&& all[seq] == f.payload
            &&& all.dom() =~= Set::new(|k: nat| k < sum)
            &&& parts_so_far(fs, id, sum) == all.remove(seq)
        }),
    ensures
        assembled(fs, f).0 == Some(
            in_sequence(all, count_or(header_value(f, "sum"@), 1)),
        ),
{
    let sum = count_or(header_value(f, "sum"@), 1);
    let seq = count_or(header_value(f, "seq"@), 0);
    assert(all.remove(seq).insert(seq, f.payload) =~= all);
}

/// A frame that is no part of anything carries its payload whole, and what waits stays.
pub proof fn law_whole_frames_pass(fs: Seq<FragV>, f: FrameV)
    requires
        count_or(header_value(f, "sum"@), 1) <= 1 || header_value(f, "message_id"@).len() == 0,
    ensures
        assembled(fs, f) == (Some(f.payload), fs),
{
}

/// The number of a part.
pub open spec fn part_number(f: FrameV) -> nat {
    count_or(header_value(f, "seq"@), 0)
}

/// The part of number `k` is among the frames.
pub open spec fn comes(rs: Seq<FrameV>, k: nat) -> bool {
    exists|i: int| 0 <= i < rs.len() && #[trigger] part_number(rs[i]) == k
}

/// The frames are the parts of one message, each of them once, in whatever order; `parts`
/// are their payloads in the order of their numbers.
pub open spec fn row_of(rs: Seq<FrameV>, id: Seq<char>, parts: Seq<Seq<u8>>) -> bool {
    &&& rs.len() == parts.len()
    &&& forall|i: int|
        0 <= i < rs.len() ==> {
            &&& header_value(#[trigger] rs[i], "message_id"@) == id
            &&& count_or(header_value(rs[i], "sum"@), 1) == rs.len()
            &&& part_number(rs[i]) < rs.len()
            &&& rs[i].payload == parts[part_number(rs[i]) as int]
        }
    &&& forall|i: int, j: int|
        0 <= i < j < rs.len() ==> part_number(#[trigger] rs[i]) != part_number(#[trigger] rs[j])
    &&& forall|k: nat|
        k < rs.len() ==> #[trigger] comes(rs, k)
}

/// What waits after the first `n` of the frames came.
pub open spec fn waiting_after(fs: Seq<FragV>, rs: Seq<FrameV>, n: nat) -> Seq<FragV>
    decreases n,
{
    if n == 0 {
        fs
    } else {
        assembled(waiting_after(fs, rs, (n - 1) as nat), rs[n - 1]).1
    }
}

/// What the frame at `i` completes when the frames before it came.
pub open spec fn completes(fs: Seq<FragV>, rs: Seq<FrameV>, i: int) -> Option<Seq<u8>> {
    assembled(waiting_after(fs, rs, i as nat), rs[i]).0
}

/// The parts that the first `n` frames brought.
pub open spec fn brought(rs: Seq<FrameV>, n: nat) -> Map<nat, Seq<u8>>
    decreases n,
{
    if n == 0 {
        Map::empty()
    } else {
        brought(rs, (n - 1) as nat).insert(part_number(rs[n - 1]), rs[n - 1].payload)
    }
}

proof fn lemma_not_waiting(fs: Seq<FragV>, id: Seq<char>, i: int)
    requires
        0 <= i <= fs.len(),
        forall|k: int| 0 <= k < fs.len() ==> (#[trigger] fs[k]).id != id,
    ensures
        frag_index(fs, id, i) is None,
    decreases fs.len() - i,
{
    if i < fs.len() {
        lemma_not_waiting(fs, id, i + 1);
    }
}

proof fn lemma_waits_last(fs: Seq<FragV>, f: FragV, i: int)
    requires
        0 <= i <= fs.len(),
        forall|k: int| 0 <= k < fs.len() ==> (#[trigger] fs[k]).id != f.id,
    ensures
        frag_index(fs.push(f), f.id, i) == Some(fs.len() as int),
    decreases fs.len() - i,
{
    if i < fs.len() {
        assert(fs.push(f)[i] == fs[i]);
        lemma_waits_last(fs, f, i + 1);
    }
}

proof fn lemma_brought(rs: Seq<FrameV>, id: Seq<char>, parts: Seq<Seq<u8>>, n: nat)
    requires
        row_of(rs, id, parts),
        n <= rs.len(),
    ensures
        forall|i: int| 0 <= i < n ==> #[trigger] brought(rs, n).contains_key(part_number(rs[i])),
        forall|k: nat| #[trigger]
            brought(rs, n).contains_key(k) ==> k < rs.len() && brought(rs, n)[k] == parts[k as int],
        forall|i: int| n <= i < rs.len() ==> !#[trigger] brought(rs, n).contains_key(
            part_number(rs[i]),
        ),
    decreases n,
{
    if n > 0 {
        lemma_brought(rs, id, parts, (n - 1) as nat);
        let before = brought(rs, (n - 1) as nat);
        assert forall|i: int| n <= i < rs.len() implies !#[trigger] brought(rs, n).contains_key(
            part_number(rs[i]),
        ) by {
            assert(!before.contains_key(part_number(rs[i])));
            assert(part_number(rs[n - 1]) != part_number(rs[i]));
        }
        assert forall|i: int| 0 <= i < n implies #[trigger] brought(rs, n).contains_key(
            part_number(rs[i]),
        ) by {
            if i < n - 1 {
                assert(before.contains_key(part_number(rs[i])));
            }
        }
    }
}

proof fn lemma_row_so_far(
    fs: Seq<FragV>,
    rs: Seq<FrameV>,
    id: Seq<char>,
    parts: Seq<Seq<u8>>,
    n: nat,
)
    requires
        row_of(rs, id, parts),
        rs.len() >= 2,
        id.len() > 0,
        forall|k: int| 0 <= k < fs.len() ==> (#[trigger] fs[k]).id != id,
        0 < n < rs.len(),
    ensures
        waiting_after(fs, rs, n) == fs.push(
            FragV { id, sum: rs.len(), parts: brought(rs, n) },
        ),
        forall|i: int| 0 <= i < n ==> #[trigger] completes(fs, rs, i) is None,
    decreases n,
{
    let sum = rs.len();
    let last = rs[sum - 1];
    let now = FragV { id, sum, parts: brought(rs, n) };
    lemma_brought(rs, id, parts, n);
    assert(!brought(rs, n).contains_key(part_number(last)));
    assert(!complete(brought(rs, n), sum)) by {
        assert(part_number(last) < sum);
    }
    lemma_not_waiting(fs, id, 0);
    if n == 1 {
        assert(waiting_after(fs, rs, 0) == fs);
        assert(parts_so_far(fs, id, sum) == Map::<nat, Seq<u8>>::empty());
        assert(brought(rs, 1) == Map::<nat, Seq<u8>>::empty().insert(
            part_number(rs[0]),
            rs[0].payload,
        )) by {
            assert(brought(rs, 0) == Map::<nat, Seq<u8>>::empty());
        }
        assert(completes(fs, rs, 0) is None);
        assert(waiting_after(fs, rs, 1) == with_parts(fs, now));
    } else {
        let m = (n - 1) as nat;
        lemma_row_so_far(fs, rs, id, parts, m);
        let was = FragV { id, sum, parts: brought(rs, m) };
        lemma_waits_last(fs, was, 0);
        let w = fs.push(was);
        assert(parts_so_far(w, id, sum) == brought(rs, m));
        assert(completes(fs, rs, n - 1) is None);
        assert(with_parts(w, now) =~= fs.push(now));
        assert forall|i: int| 0 <= i < n implies #[trigger] completes(fs, rs, i) is None by {
            if i < n - 1 {
            }
        }
    }
}

proof fn lemma_in_sequence(m: Map<nat, Seq<u8>>, parts: Seq<Seq<u8>>, n: nat)
    requires
        n <= parts.len(),
        forall|k: nat| k < n ==> #[trigger] m[k] == parts[k as int],
    ensures
        in_sequence(m, n) == parts.take(n as int).flatten_alt(),
    decreases n,
{
    if n > 0 {
        lemma_in_sequence(m, parts, (n - 1) as nat);
        assert(parts.take(n as int).drop_last() =~= parts.take(n - 1));
        assert(m[(n - 1) as nat] == parts[n - 1]);
    } else {
        assert(parts.take(0) =~= Seq::empty());
    }
}

/// The parts of a message, each once and in whatever order they come, give its payload with
/// the last one: all of them in the order of their numbers. None gives anything before, and
/// what waited before waits then, and nothing else.
pub proof fn law_parts_come_in_any_order(
    fs: Seq<FragV>,
    rs: Seq<FrameV>,
    id: Seq<char>,
    parts: Seq<Seq<u8>>,
)
    requires
        row_of(rs, id, parts),
        rs.len() >= 2,
        id.len() > 0,
        forall|k: int| 0 <= k < fs.len() ==> (#[trigger] fs[k]).id != id,
    ensures
        forall|i: int| 0 <= i < rs.len() - 1 ==> #[trigger] completes(fs, rs, i) is None,
        completes(fs, rs, rs.len() - 1) == Some(parts.flatten()),
        waiting_after(fs, rs, rs.len()) == fs,
{
    let sum = rs.len();
    let m = (sum - 1) as nat;
    let last = rs[sum - 1];
    lemma_row_so_far(fs, rs, id, parts, m);
    lemma_brought(rs, id, parts, sum);
    let was = FragV { id, sum, parts: brought(rs, m) };
    lemma_waits_last(fs, was, 0);
    let w = fs.push(was);
    let all = brought(rs, sum);
    assert(parts_so_far(w, id, sum) == brought(rs, m));
    assert(complete(all, sum)) by {
        assert forall|k: nat| k < sum implies #[trigger] all.contains_key(k) by {
            assert(comes(rs, k));
            let i = choose|i: int| 0 <= i < rs.len() && #[trigger] part_number(rs[i]) == k;
            assert(all.contains_key(part_number(rs[i])));
        }
    }
    assert forall|k: nat| k < sum implies #[trigger] all[k] == parts[k as int] by {
        assert(all.contains_key(k));
    }
    lemma_in_sequence(all, parts, sum);
    assert(parts.take(sum as int) =~= parts);
    parts.lemma_flatten_and_flatten_alt_are_equivalent();
    assert(w.remove(fs.len() as int) =~= fs);
    assert(without_parts(w, id) == fs);
}

// ---------------------------------------------------------------------------
// Events
// ---------------------------------------------------------------------------

pub open spec fn ping_value(v: JsonV) -> bool {
    lower(js_text(v.at("type"@))) == lower("ping"@) || v.field("ping"@) is Some
}

pub fn is_ping(v: &Json) -> (r: bool)
    ensures
        r == ping_value(v@),
{
    same_ignoring_case(js_at(v, "type").as_str(), "ping") || v.get("ping").is_some()
}

/// What kind of event an envelope says it holds.
pub open spec fn event_type(v: JsonV) -> Seq<char> {
    or_text(
        js_text(v.at("header"@).at("event_type"@)),
        or_text(
            js_text(v.at("event"@).at("header"@).at("event_type"@)),
            or_text(js_text(v.at("event_type"@)), js_text(v.at("type"@))),
        ),
    )
}

fn envelope_event_type(v: &Json) -> (r: String)
    ensures
        r@ == event_type(v@),
{
    or_else(
        js_at2(v, "header", "event_type"),
        or_else(
            js_at3(v, "event", "header", "event_type"),
            or_else(js_at(v, "event_type"), js_at(v, "type")),
        ),
    )
}

/// The value of the first item, from `i` on, of a list of headers with a key.
pub open spec fn listed_header(items: Seq<JsonV>, key: Seq<char>, i: int) -> Seq<char>
    decreases items.len() - i,
{
    if i < 0 || i >= items.len() {
        Seq::empty()
    } else if lower(or_text(js_text(items[i].at("key"@)), js_text(items[i].at("Key"@)))) == lower(
        key,
    ) {
        or_text(js_text(items[i].at("value"@)), js_text(items[i].at("Value"@)))
    } else {
        listed_header(items, key, i + 1)
    }
}

/// A header of an envelope, whose headers are an object or a list.
pub open spec fn envelope_header(v: JsonV, key: Seq<char>) -> Seq<char> {
    let h = v.at("headers"@);
    let direct = js_text(h.at(key));
    if direct.len() > 0 {
        direct
    } else {
        match h {
            JsonV::Array(items) => listed_header(items, key, 0),
            _ => Seq::empty(),
        }
    }
}

fn header_str(v: &Json, key: &str) -> (r: String)
    ensures
        r@ == envelope_header(v@, key@),
{
    let h = match v.get("headers") {
        Some(h) => h,
        None => {
            return String::new();
        },
    };
    let direct = js_at(h, key);
    if !direct.as_str().is_empty() {
        return direct;
    }
    match h {
        Json::Array(items) => {
            proof {
                lemma_items_view(items@);
            }
            let ghost vs = items_view(items@);
            let mut i: usize = 0;
            while i < items.len()
                invariant
                    i <= items@.len() == vs.len(),
                    forall|j: int| 0 <= j < vs.len() ==> #[trigger] vs[j] == items@[j]@,
                    envelope_header(v@, key@) == listed_header(vs, key@, 0),
                    listed_header(vs, key@, 0) == listed_header(vs, key@, i as int),
                decreases items.len() - i,
            {
                assert(vs[i as int] == items@[i as int]@);
                let k = or_else(js_at(&items[i], "key"), js_at(&items[i], "Key"));
                if same_ignoring_case(k.as_str(), key) {
                    return or_else(js_at(&items[i], "value"), js_at(&items[i], "Value"));
                }
                i = i + 1;
            }
            String::new()
        },
        _ => String::new(),
    }
}

/// The acknowledgement that an envelope asks for.
pub open spec fn ack_value(mid: Seq<char>) -> JsonV {
    put(
        put(
            put(JsonV::Object(Map::empty()), "type"@, JsonV::Str("ack"@)),
            "code"@,
            JsonV::Int(200),
        ),
        "message_id"@,
        JsonV::Str(mid),
    )
}

/// The acknowledgement of an envelope, where it asks for one or names its message.
pub open spec fn ack_text(v: JsonV) -> Option<Seq<char>> {
    let mid = envelope_header(v, "message_id"@);
    if says_yes(v.at("need_ack"@)) || says_yes(v.at("headers"@).at("need_ack"@)) || mid.len() > 0 {
        Some(json_text(settled_json(ack_value(mid))))
    } else {
        None
    }
}

fn yes_at(v: &Json, key: &str) -> (r: bool)
    ensures
        r == says_yes(v@.at(key@)),
{
    match v.get(key) {
        Some(x) => boolish(x),
        None => false,
    }
}

/// The acknowledgement of an envelope.
pub fn json_ack(v: &Json) -> (r: Option<String>)
    ensures
        opt_text(r) == ack_text(v@),
{
    let mid = header_str(v, "message_id");
    let inner: bool = match v.get("headers") {
        Some(h) => yes_at(h, "need_ack"),
        None => false,
    };
    if yes_at(v, "need_ack") || inner || !mid.as_str().is_empty() {
        let ack = Json::object().with("type", Json::string("ack")).with("code", Json::Uint(200)).with(
            "message_id",
            Json::Str(mid),
        );
        Some(print_json(&ack))
    } else {
        None
    }
}

/// A message event: it has a message and a sender.
pub open spec fn im_event(v: JsonV) -> bool {
    v.field("message"@) is Some && (v.field("sender"@) is Some || v.field("sender_id"@) is Some)
}

/// The first of two values that is there.
pub open spec fn or_value(a: Option<JsonV>, b: Option<JsonV>) -> Option<JsonV> {
    match a {
        Some(x) => Some(x),
        None => b,
    }
}

/// The event under one key: an object, or the text of one.
pub open spec fn event_under(v: JsonV, key: Seq<char>, depth: nat) -> Option<JsonV>
    decreases depth, v, 0nat,
{
    match v {
        JsonV::Object(m) => if m.contains_key(key) {
            match m[key] {
                JsonV::Str(s) => if depth == 0 {
                    None
                } else {
                    match parsed_json(s) {
                        Some(x) => event_in(x, (depth - 1) as nat),
                        None => None,
                    }
                },
                inner => event_in(m[key], depth),
            }
        } else {
            None
        },
        _ => None,
    }
}

/// The message event in an envelope: itself, else what stands under `event`, `data`
/// or `payload`, down to `depth` texts inside texts.
pub open spec fn event_in(v: JsonV, depth: nat) -> Option<JsonV>
    decreases depth, v, 1nat,
{
    if im_event(v) {
        Some(v)
    } else {
        or_value(
            event_under(v, "event"@, depth),
            or_value(event_under(v, "data"@, depth), event_under(v, "payload"@, depth)),
        )
    }
}

/// Following more than `n` texts inside texts finds nothing else.
pub open spec fn deep_enough(v: JsonV, n: nat) -> bool {
    forall|d: nat| d >= n ==> #[trigger] event_in(v, d) == event_in(v, n)
}

/// The message event in an envelope, however deep texts stand in texts.
pub open spec fn event_of(v: JsonV) -> Option<JsonV> {
    event_in(v, choose|n: nat| deep_enough(v, n))
}

fn extract_under(v: &Json, key: &str, n: Ghost<nat>) -> (r: Option<Json>)
    requires
        short_texts(v@, n@),
    ensures
        forall|d: nat| d >= n@ ==> opt_json(r) == #[trigger] event_under(v@, key@, d),
    decreases n@, v, 0nat,
{
    match v {
        Json::Object(entries) => {
            let mut left: usize = entries.len();
            proof {
                assert(entries@.take(left as int) =~= entries@);
            }
            while left > 0
                invariant
                    left <= entries@.len(),
                    decreases_to!(v => entries),
                    short_texts(v@, n@),
                    v@ == JsonV::Object(crate::json::fields_view(entries@)),
                    crate::json::fields_view(entries@).contains_key(key@)
                        == crate::json::fields_view(entries@.take(left as int)).contains_key(key@),
                    crate::json::fields_view(entries@.take(left as int)).contains_key(key@)
                        ==> crate::json::fields_view(entries@)[key@] == crate::json::fields_view(
                        entries@.take(left as int),
                    )[key@],
                decreases left,
            {
                proof {
                    crate::json::lemma_fields_last(entries@.take(left as int));
                    assert(entries@.take(left as int).drop_last() =~= entries@.take(left - 1));
                }
                if same(entries[left - 1].0.as_str(), key) {
                    proof {
                        let m = crate::json::fields_view(entries@);
                        assert(m.contains_key(key@) && m[key@] == entries@[left - 1].1@);
                        lemma_short_field(v@, key@, n@);
                    }
                    let r = match &entries[left - 1].1 {
                        Json::Str(s) => match parse_json(s.as_str()) {
                            Some(x) => {
                                let e = extract_within(&x, Ghost(s@.len()));
                                assert forall|d: nat| d >= n@ implies opt_json(e)
                                    == #[trigger] event_under(v@, key@, d) by {
                                    assert(event_in(x@, (d - 1) as nat) == opt_json(e));
                                }
                                e
                            },
                            None => {
                                assert forall|d: nat| d >= n@ implies #[trigger] event_under(
                                    v@,
                                    key@,
                                    d,
                                ) is None by {}
                                None
                            },
                        },
                        _ => {
                            let e = extract_within(&entries[left - 1].1, n);
                            assert forall|d: nat| d >= n@ implies opt_json(e)
                                == #[trigger] event_under(v@, key@, d) by {
                                assert(event_in(entries@[left - 1].1@, d) == opt_json(e));
                            }
                            e
                        },
                    };
                    return r;
                }
                left = left - 1;
            }
            None
        },
        _ => None,
    }
}

fn extract_within(v: &Json, n: Ghost<nat>) -> (r: Option<Json>)
    requires
        short_texts(v@, n@),
    ensures
        forall|d: nat| d >= n@ ==> opt_json(r) == #[trigger] event_in(v@, d),
    decreases n@, v, 1nat,
{
    if v.get("message").is_some() && (v.get("sender").is_some() || v.get("sender_id").is_some()) {
        return Some(v.copy());
    }
    let r = match extract_under(v, "event", n) {
        Some(e) => Some(e),
        None => match extract_under(v, "data", n) {
            Some(e) => Some(e),
            None => extract_under(v, "payload", n),
        },
    };
    assert forall|d: nat| d >= n@ implies opt_json(r) == #[trigger] event_in(v@, d) by {
        let e = event_under(v@, "event"@, d);
        let f = event_under(v@, "data"@, d);
        let g = event_under(v@, "payload"@, d);
        assert(event_in(v@, d) == or_value(e, or_value(f, g)));
    }
    r
}

/// The message event in an envelope.
pub fn extract_event(v: &Json) -> (r: Option<Json>)
    ensures
        opt_json(r) == event_of(v@),
        exists|n: nat| deep_enough(v@, n),
{
    let n: Ghost<nat> = Ghost(lemma_texts_bounded(*v));
    let r = extract_within(v, n);
    proof {
        assert(event_in(v@, n@) == opt_json(r));
        assert(deep_enough(v@, n@));
        let c = choose|c: nat| deep_enough(v@, c);
        let most = if c > n@ {
            c
        } else {
            n@
        };
        assert(event_in(v@, most) == event_in(v@, c));
    }
    r
}

/// The name of the file that a content speaks of.
pub open spec fn file_name_in(v: JsonV) -> Seq<char> {
    or_text(js_text(v.at("file_name"@)), js_text(v.at("name"@)))
}

/// The name of the file of a message.
pub open spec fn file_name_of(content: JsonV) -> Seq<char> {
    match content {
        JsonV::Str(s) => match parsed_json(s) {
            Some(v) => file_name_in(v),
            None => Seq::empty(),
        },
        JsonV::Object(_) => file_name_in(content),
        _ => Seq::empty(),
    }
}

fn name_in(v: &Json) -> (r: String)
    ensures
        r@ == file_name_in(v@),
{
    or_else(js_at(v, "file_name"), js_at(v, "name"))
}

/// The name of the file of a message.
pub fn parse_file_name(content: &Json) -> (r: String)
    ensures
        r@ == file_name_of(content@),
{
    match content {
        Json::Str(s) => match parse_json(s.as_str()) {
            Some(v) => name_in(&v),
            None => String::new(),
        },
        Json::Object(_) => name_in(content),
        _ => String::new(),
    }
}

/// What stands for a message that is no text.
pub open spec fn caption_of(msg_type: Seq<char>, content: JsonV) -> Seq<char> {
    let kind = lower(trimmed(msg_type));
    if kind == "image"@ || kind == "sticker"@ {
        "[图片]"@
    } else if kind == "audio"@ {
        "[语音]"@
    } else if kind == "media"@ || kind == "video"@ {
        "[视频]"@
    } else if kind == "file"@ {
        let name = file_name_of(content);
        if name.len() == 0 {
            "[文件]"@
        } else {
            "[文件] "@ + name
        }
    } else {
        Seq::empty()
    }
}

/// What stands for a message that is no text.
pub fn feishu_nontext_caption(msg_type: &str, content: &Json) -> (r: String)
    ensures
        r@ == caption_of(msg_type@, content@),
{
    let kind = to_lower(trim(msg_type).as_str());
    let k = kind.as_str();
    if same(k, "image") || same(k, "sticker") {
        "[图片]".to_owned()
    } else if same(k, "audio") {
        "[语音]".to_owned()
    } else if same(k, "media") || same(k, "video") {
        "[视频]".to_owned()
    } else if same(k, "file") {
        let name = parse_file_name(content);
        if name.as_str().is_empty() {
            "[文件]".to_owned()
        } else {
            text2("[文件] ", name.as_str())
        }
    } else {
        String::new()
    }
}

/// The text of a content: what stands under `text`, in an object or in the text of
/// one, else the content itself where it is a plain text.
pub open spec fn content_words(content: JsonV) -> Seq<char> {
    match content {
        JsonV::Str(s) => match parsed_json(s) {
            Some(v) => {
                let t = js_text(v.at("text"@));
                if t.len() > 0 {
                    t
                } else if v is Object {
                    Seq::empty()
                } else {
                    trimmed(s)
                }
            },
            None => trimmed(s),
        },
        JsonV::Object(_) => js_text(content.at("text"@)),
        _ => Seq::empty(),
    }
}

/// The text of a content.
pub fn parse_text_content(content: &Json) -> (r: String)
    ensures
        r@ == content_words(content@),
{
    match content {
        Json::Str(s) => {
            if let Some(v) = parse_json(s.as_str()) {
                let t = js_at(&v, "text");
                if !t.as_str().is_empty() {
                    return t;
                }
                if v.is_object() {
                    return String::new();
                }
            }
            trim(s.as_str())
        },
        Json::Object(_) => js_at(content, "text"),
        _ => String::new(),
    }
}

/// The text of a content that is given as raw text.
pub fn parse_text_content_str(raw: &str) -> (r: String)
    ensures
        r@ == (if raw@.len() == 0 {
            Seq::empty()
        } else {
            match parsed_json(raw@) {
                Some(v) => content_words(v),
                None => trimmed(raw@),
            }
        }),
{
    if raw.is_empty() {
        return String::new();
    }
    match parse_json(raw) {
        Some(v) => parse_text_content(&v),
        None => trim(raw),
    }
}

/// Who sent a message event.
pub open spec fn sender_of(event: JsonV) -> Seq<char> {
    let s = event.at("sender"@);
    or_text(
        js_text(s.at("sender_id"@).at("open_id"@)),
        or_text(js_text(s.at("sender_id"@).at("user_id"@)), js_text(s.at("open_id"@))),
    )
}

/// What a message event says.
pub open spec fn words_of(event: JsonV) -> Seq<char> {
    let m = event.at("message"@);
    or_text(
        content_words(m.at("content"@)),
        caption_of(js_text(m.at("message_type"@)), m.at("content"@)),
    )
}

pub open spec fn some_mention(v: JsonV) -> bool {
    match v {
        JsonV::Array(a) => a.len() > 0,
        _ => false,
    }
}

/// The payload of a message event. One of an application, one without a sender and
/// one that says nothing has none.
pub open spec fn payload_of_event(e: EndpointV, event: JsonV) -> Option<PayloadV> {
    let m = event.at("message"@);
    let s = event.at("sender"@);
    let who = js_text(s.at("sender_type"@));
    let id = sender_of(event);
    let chat = js_text(m.at("chat_id"@));
    let group = lower(js_text(m.at("chat_type"@))) == lower("group"@);
    let text = words_of(event);
    if m == JsonV::Null || who == "app"@ || who == "bot"@ || id.len() == 0 || text.len() == 0 {
        None
    } else {
        let meta = put(
            put(
                put(
                    put(
                        put(
                            put(
                                JsonV::Object(Map::empty()),
                                "chat_id"@,
                                JsonV::Str(chat),
                            ),
                            "is_group"@,
                            JsonV::Bool(group),
                        ),
                        "message_id"@,
                        JsonV::Str(js_text(m.at("message_id"@))),
                    ),
                    "receive_id_type"@,
                    JsonV::Str(
                        if group {
                            "chat_id"@
                        } else {
                            "open_id"@
                        },
                    ),
                ),
                "receive_id"@,
                JsonV::Str(
                    if group {
                        chat
                    } else {
                        id
                    },
                ),
            ),
            "is_mentioned"@,
            JsonV::Bool(!group || some_mention(m.at("mentions"@)) || holds(text, "@_all"@)),
        );
        Some(
            PayloadV {
                channel: if e.kind.len() == 0 {
                    "feishu"@
                } else {
                    e.kind
                },
                sender_id: id,
                sender_name: js_text(s.at("name"@)),
                content_parts: seq![PartV::Text { text }],
                text,
                meta,
                ..blank_payload()
            },
        )
    }
}

pub open spec fn opt_payload(p: Option<NativePayload>) -> Option<PayloadV> {
    match p {
        Some(x) => Some(x@),
        None => None,
    }
}

/// The payload of a message event.
pub fn native_from_event(ep: &ChannelEndpoint, event: &Json) -> (r: Option<NativePayload>)
    ensures
        opt_payload(r) == payload_of_event(ep@, event@),
{
    let message = match event.get("message") {
        Some(m) => m,
        None => {
            return None;
        },
    };
    if message.is_null() {
        return None;
    }
    assert(message@ == event@.at("message"@));
    let sender_type = js_at2(event, "sender", "sender_type");
    if same(sender_type.as_str(), "app") || same(sender_type.as_str(), "bot") {
        return None;
    }
    let open_id = or_else(
        js_at3(event, "sender", "sender_id", "open_id"),
        or_else(
            js_at3(event, "sender", "sender_id", "user_id"),
            js_at2(event, "sender", "open_id"),
        ),
    );
    if open_id.as_str().is_empty() {
        return None;
    }
    let chat_id = js_at(message, "chat_id");
    let chat_type = js_at(message, "chat_type");
    let group: bool = same_ignoring_case(chat_type.as_str(), "group");
    let null = Json::Null;
    let content = match message.get("content") {
        Some(c) => c,
        None => &null,
    };
    assert(content@ == message@.at("content"@));
    let msg_type = js_at(message, "message_type");
    let text = or_else(
        parse_text_content(content),
        feishu_nontext_caption(msg_type.as_str(), content),
    );
    if text.as_str().is_empty() {
        return None;
    }
    let named: bool = match message.get("mentions") {
        Some(Json::Array(a)) => {
            proof {
                lemma_items_view(a@);
            }
            a.len() > 0
        },
        _ => false,
    };
    let mentioned: bool = !group || named || contains(text.as_str(), "@_all");
    let id_type = if group {
        "chat_id"
    } else {
        "open_id"
    };
    let receive: String = if group {
        chat_id.clone()
    } else {
        open_id.clone()
    };
    let meta = Json::object().with("chat_id", Json::Str(chat_id)).with(
        "is_group",
        Json::Bool(group),
    ).with("message_id", Json::Str(js_at(message, "message_id"))).with(
        "receive_id_type",
        Json::string(id_type),
    ).with("receive_id", Json::Str(receive)).with("is_mentioned", Json::Bool(mentioned));
    let mut env = NativePayload::text_only(
        if ep.kind.as_str().is_empty() {
            "feishu"
        } else {
            ep.kind.as_str()
        },
        text.as_str(),
    );
    env.sender_id = open_id;
    env.sender_name = js_at2(event, "sender", "name");
    env.meta = meta;
    Some(env)
}

/// The payload of an envelope: pings and cards have none.
pub open spec fn payload_of_envelope(e: EndpointV, v: JsonV) -> Option<PayloadV> {
    if ping_value(v) || holds(lower(event_type(v)), "card"@) {
        None
    } else {
        match event_of(v) {
            Some(event) => payload_of_event(e, event),
            None => None,
        }
    }
}

/// The payload of an envelope.
pub fn native_from_envelope(ep: &ChannelEndpoint, v: &Json) -> (r: Option<NativePayload>)
    ensures
        opt_payload(r) == payload_of_envelope(ep@, v@),
{
    if is_ping(v) {
        return None;
    }
    let et = to_lower(envelope_event_type(v).as_str());
    if contains(et.as_str(), "card") {
        return None;
    }
    match extract_event(v) {
        Some(event) => native_from_event(ep, &event),
        None => None,
    }
}

// ---------------------------------------------------------------------------
// What comes over the connection
// ---------------------------------------------------------------------------

/// What to do with what came over the connection: texts and bytes to send back, and
/// a payload to take in.
#[derive(Debug, PartialEq, Eq)]
pub struct Step {
    pub send_text: Option<String>,
    pub send_binary: Option<Vec<u8>>,
    pub payload: Option<NativePayload>,
    /// It could not be read.
    pub skipped: bool,
}

pub ghost struct StepV {
    pub send_text: Option<Seq<char>>,
    pub send_binary: Option<Seq<u8>>,
    pub payload: Option<PayloadV>,
    pub skipped: bool,
}

impl View for Step {
    type V = StepV;

    open spec fn view(&self) -> StepV {
        StepV {
            send_text: opt_text(self.send_text),
            send_binary: match self.send_binary {
                Some(b) => Some(b@),
                None => None,
            },
            payload: opt_payload(self.payload),
            skipped: self.skipped,
        }
    }
}

pub open spec fn nothing() -> StepV {
    StepV { send_text: None, send_binary: None, payload: None, skipped: false }
}

pub open spec fn pong_value() -> JsonV {
    put(JsonV::Object(Map::empty()), "type"@, JsonV::Str("pong"@))
}

/// What to do with an envelope: a ping is answered; anything else is acknowledged
/// where it asks for that, and its payload taken in.
pub open spec fn envelope_step(e: EndpointV, v: JsonV) -> StepV {
    if ping_value(v) {
        StepV { send_text: Some(json_text(settled_json(pong_value()))), ..nothing() }
    } else {
        StepV { send_text: ack_text(v), payload: payload_of_envelope(e, v), ..nothing() }
    }
}

/// What to do with a text.
pub open spec fn text_step(e: EndpointV, text: Seq<char>) -> StepV {
    match parsed_json(text) {
        Some(v) => envelope_step(e, v),
        None => StepV { skipped: true, ..nothing() },
    }
}

/// What to do with an envelope.
pub fn handle_json(ep: &ChannelEndpoint, v: &Json) -> (r: Step)
    ensures
        r@ == envelope_step(ep@, v@),
{
    if is_ping(v) {
        let pong = Json::object().with("type", Json::string("pong"));
        return Step {
            send_text: Some(print_json(&pong)),
            send_binary: None,
            payload: None,
            skipped: false,
        };
    }
    Step {
        send_text: json_ack(v),
        send_binary: None,
        payload: native_from_envelope(ep, v),
        skipped: false,
    }
}

/// What to do with a text.
pub fn handle_text(ep: &ChannelEndpoint, text: &str) -> (r: Step)
    ensures
        r@ == text_step(ep@, text@),
{
    match parse_json(text) {
        Some(v) => handle_json(ep, &v),
        None => Step { send_text: None, send_binary: None, payload: None, skipped: true },
    }
}

/// What to do with a payload that is complete.
pub open spec fn payload_step(e: EndpointV, ack: Seq<u8>, payload: Seq<u8>) -> StepV {
    let acked = StepV { send_binary: Some(ack), ..nothing() };
    if vstd::utf8::valid_utf8(payload) {
        match parsed_json(vstd::utf8::decode_utf8(payload)) {
            Some(v) => StepV { payload: payload_of_envelope(e, v), ..acked },
            None => StepV { skipped: true, ..acked },
        }
    } else {
        StepV { skipped: true, ..acked }
    }
}

pub open spec fn frame_kind_is(f: FrameV, kind: Seq<char>) -> bool {
    lower(header_value(f, "type"@)) == lower(kind)
}

/// What to do with a frame: a ping is answered, other control frames are not, an
/// event is acknowledged and its payload taken in once it is complete.
pub open spec fn frame_step(e: EndpointV, fs: Seq<FragV>, f: FrameV) -> (StepV, Seq<FragV>) {
    if f.method == 0 || frame_kind_is(f, "ping"@) {
        if frame_kind_is(f, "ping"@) {
            (StepV { send_binary: Some(frame_bytes(pong_of(f))), ..nothing() }, fs)
        } else {
            (nothing(), fs)
        }
    } else if f.method == 1 || frame_kind_is(f, "event"@) {
        let ack = frame_bytes(ack_of(f));
        let a = assembled(fs, f);
        match a.0 {
            Some(payload) => (payload_step(e, ack, payload), a.1),
            None => (StepV { send_binary: Some(ack), ..nothing() }, a.1),
        }
    } else {
        (nothing(), fs)
    }
}

/// What to do with bytes: JSON where they look like it, else a frame.
pub open spec fn binary_step(e: EndpointV, fs: Seq<FragV>, bin: Seq<u8>) -> (StepV, Seq<FragV>) {
    if bin.len() > 0 && bin[0] == 0x7B && vstd::utf8::valid_utf8(bin) {
        (text_step(e, vstd::utf8::decode_utf8(bin)), fs)
    } else {
        match read_frame(bin, blank_frame()) {
            Some(f) => frame_step(e, fs, f),
            None => (StepV { skipped: true, ..nothing() }, fs),
        }
    }
}

fn text_of_bytes(b: &Vec<u8>) -> (r: Option<String>)
    ensures
        r is Some <==> vstd::utf8::valid_utf8(b@),
        r matches Some(s) ==> s@ == vstd::utf8::decode_utf8(b@),
{
    match read_utf8(b.as_slice()) {
        Ok(s) => {
            proof {
                vstd::utf8::encode_utf8_decode_utf8(s@);
            }
            Some(s)
        },
        Err(_) => None,
    }
}

/// What to do with a frame.
pub fn handle_frame(ep: &ChannelEndpoint, frame: &PbFrame, frags: &mut Vec<Fragments>) -> (r: Step)
    ensures
        (r@, frags_view(final(frags)@)) == frame_step(ep@, frags_view(old(frags)@), frame@),
{
    let kind = frame.header("type");
    let ping: bool = same_ignoring_case(kind.as_str(), "ping");
    if frame.method == PB_CONTROL || ping {
        let send_binary: Option<Vec<u8>> = if ping {
            Some(frame.to_pong().encode())
        } else {
            None
        };
        return Step { send_text: None, send_binary, payload: None, skipped: false };
    }
    if frame.method == PB_DATA || same_ignoring_case(kind.as_str(), "event") {
        let ack = frame.to_ack().encode();
        return match assemble(frame, frags) {
            Some(payload) => {
                let parsed: Option<Json> = match text_of_bytes(&payload) {
                    Some(s) => parse_json(s.as_str()),
                    None => None,
                };
                match parsed {
                    Some(v) => Step {
                        send_text: None,
                        send_binary: Some(ack),
                        payload: native_from_envelope(ep, &v),
                        skipped: false,
                    },
                    None => Step {
                        send_text: None,
                        send_binary: Some(ack),
                        payload: None,
                        skipped: true,
                    },
                }
            },
            None => Step { send_text: None, send_binary: Some(ack), payload: None, skipped: false },
        };
    }
    Step { send_text: None, send_binary: None, payload: None, skipped: false }
}

/// What to do with bytes.
pub fn handle_binary(ep: &ChannelEndpoint, bin: &Vec<u8>, frags: &mut Vec<Fragments>) -> (r: Step)
    ensures
        (r@, frags_view(final(frags)@)) == binary_step(ep@, frags_view(old(frags)@), bin@),
{
    if bin.len() > 0 && bin[0] == 0x7B {
        if let Some(text) = text_of_bytes(bin) {
            return handle_text(ep, text.as_str());
        }
    }
    match PbFrame::decode(bin) {
        Some(frame) => handle_frame(ep, &frame, frags),
        None => Step { send_text: None, send_binary: None, payload: None, skipped: true },
    }
}

// ---------------------------------------------------------------------------
// Requests and their answers
// ---------------------------------------------------------------------------

/// The address of the long connection in an answer.
pub open spec fn ws_url_of(data: JsonV) -> Seq<char> {
    or_text(
        js_text(data.at("data"@).at("url"@)),
        or_text(
            js_text(data.at("data"@).at("URL"@)),
            or_text(
                js_text(data.at("url"@)),
                or_text(js_text(data.at("URL"@)), js_text(data.at("data"@).at("ws_url"@))),
            ),
        ),
    )
}

/// The address of the long connection in an answer.
pub fn pick_ws_url(data: &Json) -> (r: Option<String>)
    ensures
        r is Some <==> ws_url_of(data@).len() > 0,
        r matches Some(s) ==> s@ == ws_url_of(data@),
{
    let s = or_else(
        js_at2(data, "data", "url"),
        or_else(
            js_at2(data, "data", "URL"),
            or_else(
                js_at(data, "url"),
                or_else(js_at(data, "URL"), js_at2(data, "data", "ws_url")),
            ),
        ),
    );
    if s.as_str().is_empty() {
        None
    } else {
        Some(s)
    }
}

/// A code that is a number other than zero.
pub open spec fn bad_code(data: JsonV) -> Option<int> {
    match data.at("code"@) {
        JsonV::Int(n) => if n != 0 && i64::MIN <= n <= i64::MAX {
            Some(n)
        } else {
            None
        },
        _ => None,
    }
}

/// The long connection that an answer gives, or what went wrong; `status` is how the
/// answer's status reads.
pub open spec fn ws_answer(ok: bool, status: Seq<char>, data: JsonV) -> Result<Seq<char>, FaultV> {
    if !ok {
        Err(
            FaultV::Msg(
                "feishu ws endpoint HTTP "@ + status + " code="@ + json_text(
                    settled_json(data.at("code"@)),
                ) + " msg="@ + js_text(data.at("msg"@)),
            ),
        )
    } else {
        match bad_code(data) {
            Some(n) => Err(
                FaultV::Msg(
                    "feishu ws endpoint code="@ + crate::json::signed_decimal(n) + " msg="@
                        + js_text(data.at("msg"@)),
                ),
            ),
            None => if ws_url_of(data).len() > 0 {
                Ok(ws_url_of(data))
            } else {
                Err(FaultV::Msg("feishu ws endpoint: no url"@))
            },
        }
    }
}

pub open spec fn text_result(r: Result<String, Fault>) -> Result<Seq<char>, FaultV> {
    match r {
        Ok(s) => Ok(s@),
        Err(e) => Err(e@),
    }
}

fn code_text(data: &Json) -> (r: String)
    ensures
        r@ == json_text(settled_json(data@.at("code"@))),
{
    match data.get("code") {
        Some(c) => print_json(c),
        None => print_json(&Json::Null),
    }
}

/// The long connection that an answer gives, or what went wrong.
pub fn post_ws_url(ok: bool, status: &str, data: &Json) -> (r: Result<String, Fault>)
    ensures
        text_result(r) == ws_answer(ok, status@, data@),
{
    if !ok {
        let mut m = text4(
            "feishu ws endpoint HTTP ",
            status,
            " code=",
            code_text(data).as_str(),
        );
        m.append(" msg=");
        m.append(js_at(data, "msg").as_str());
        return Err(Fault::Msg(m));
    }
    let code: Option<i64> = match data.get("code") {
        Some(c) => c.as_i64(),
        None => None,
    };
    if let Some(n) = code {
        if n != 0 {
            return Err(
                Fault::Msg(
                    text4(
                        "feishu ws endpoint code=",
                        crate::json::show_i64(n).as_str(),
                        " msg=",
                        js_at(data, "msg").as_str(),
                    ),
                ),
            );
        }
    }
    match pick_ws_url(data) {
        Some(s) => Ok(s),
        None => Err(Fault::msg("feishu ws endpoint: no url")),
    }
}

/// The token that an answer gives, or what went wrong.
pub open spec fn token_answer(data: JsonV) -> Result<Seq<char>, FaultV> {
    let token = js_text(data.at("tenant_access_token"@));
    if token.len() > 0 {
        Ok(token)
    } else {
        Err(
            FaultV::Msg(
                "feishu token code="@ + json_text(settled_json(data.at("code"@))) + " msg="@
                    + js_text(data.at("msg"@)),
            ),
        )
    }
}

/// The token that an answer gives, or what went wrong.
pub fn tenant_token(data: &Json) -> (r: Result<String, Fault>)
    ensures
        text_result(r) == token_answer(data@),
{
    let token = js_at(data, "tenant_access_token");
    if !token.as_str().is_empty() {
        return Ok(token);
    }
    Err(
        Fault::Msg(
            text4(
                "feishu token code=",
                code_text(data).as_str(),
                " msg=",
                js_at(data, "msg").as_str(),
            ),
        ),
    )
}

/// How long a token is kept, in seconds.
pub const TOKEN_TTL: u64 = 3000;

/// A token that was got before; `until` is the second from which it is not used any
/// more.
#[derive(Debug, PartialEq, Eq)]
pub struct CachedToken {
    pub app_id: String,
    pub base: String,
    pub token: String,
    pub until: u64,
}

impl CachedToken {
    /// The token, where it is for this application and host and still holds.
    pub fn usable(&self, app_id: &str, base: &str, now: u64) -> (r: Option<String>)
        ensures
            r is Some <==> self.app_id@ == app_id@ && self.base@ == base@ && now < self.until,
            r matches Some(s) ==> s@ == self.token@,
    {
        if same(self.app_id.as_str(), app_id) && same(self.base.as_str(), base) && now
            < self.until {
            Some(self.token.clone())
        } else {
            None
        }
    }

    /// A token that was just got.
    pub fn fresh(app_id: &str, base: &str, token: &str, now: u64) -> (r: CachedToken)
        ensures
            r.app_id@ == app_id@,
            r.base@ == base@,
            r.token@ == token@,
            r.until == (if now > u64::MAX - TOKEN_TTL {
                u64::MAX
            } else {
                (now + TOKEN_TTL) as u64
            }),
    {
        CachedToken {
            app_id: app_id.to_owned(),
            base: base.to_owned(),
            token: token.to_owned(),
            until: if now > u64::MAX - TOKEN_TTL {
                u64::MAX
            } else {
                now + TOKEN_TTL
            },
        }
    }
}

/// By which kind of identifier a reply is addressed.
pub open spec fn id_type_of(p: PayloadV) -> Seq<char> {
    or_text(
        js_text(p.meta.at("receive_id_type"@)),
        if p.group() {
            "chat_id"@
        } else {
            "open_id"@
        },
    )
}

/// To whom a reply is addressed.
pub open spec fn receiver_of(p: PayloadV, id_type: Seq<char>) -> Seq<char> {
    if id_type == "open_id"@ {
        or_text(js_text(p.meta.at("receive_id"@)), p.sender_id)
    } else {
        p.chat()
    }
}

/// By which kind of identifier a reply is addressed.
pub fn receive_id_type(env: &NativePayload) -> (r: String)
    ensures
        r@ == id_type_of(env@),
{
    let t = js_at(&env.meta, "receive_id_type");
    if !t.as_str().is_empty() {
        return t;
    }
    if env.is_group() {
        "chat_id".to_owned()
    } else {
        "open_id".to_owned()
    }
}

/// To whom a reply is addressed.
pub fn receive_id(env: &NativePayload, id_type: &str) -> (r: String)
    ensures
        r@ == receiver_of(env@, id_type@),
{
    if same(id_type, "open_id") {
        return or_else(js_at(&env.meta, "receive_id"), env.sender_id.clone());
    }
    env.chat_id()
}

/// A reply as it is posted.
pub open spec fn message_body(receiver: Seq<char>, text: Seq<char>, uuid: Seq<char>) -> JsonV {
    let none = JsonV::Object(Map::empty());
    put(
        put(
            put(
                put(none, "receive_id"@, JsonV::Str(receiver)),
                "msg_type"@,
                JsonV::Str("text"@),
            ),
            "content"@,
            JsonV::Str(json_text(settled_json(put(none, "text"@, JsonV::Str(text))))),
        ),
        "uuid"@,
        JsonV::Str(uuid),
    )
}

/// A reply as it is posted, under an identifier of its own. A payload that nobody
/// can be addressed by is an error.
pub fn send_body(env: &NativePayload, text: &str, uuid: &str) -> (r: Result<Json, Fault>)
    ensures
        r is Ok <==> receiver_of(env@, id_type_of(env@)).len() > 0,
        r matches Ok(j) ==> j@ == message_body(
            receiver_of(env@, id_type_of(env@)),
            text@,
            uuid@,
        ),
        r matches Err(e) ==> e@ == FaultV::Msg("feishu send: missing chat_id / open_id"@),
{
    let id_type = receive_id_type(env);
    let receiver = receive_id(env, id_type.as_str());
    if receiver.as_str().is_empty() {
        return Err(Fault::msg("feishu send: missing chat_id / open_id"));
    }
    let content = print_json(&Json::object().with("text", Json::string(text)));
    Ok(
        Json::object().with("receive_id", Json::Str(receiver)).with(
            "msg_type",
            Json::string("text"),
        ).with("content", Json::Str(content)).with("uuid", Json::string(uuid)),
    )
}

/// What becomes of a reply that was posted.
#[derive(Debug, PartialEq, Eq)]
pub enum Sent {
    Done,
    /// The token did not hold: drop it and try once more.
    Unauthorized(Fault),
    Failed(Fault),
}

pub ghost enum SentV {
    Done,
    Unauthorized(FaultV),
    Failed(FaultV),
}

impl View for Sent {
    type V = SentV;

    open spec fn view(&self) -> SentV {
        match self {
            Sent::Done => SentV::Done,
            Sent::Unauthorized(e) => SentV::Unauthorized(e@),
            Sent::Failed(e) => SentV::Failed(e@),
        }
    }
}

pub open spec fn code_or(data: JsonV, default: int) -> int {
    match data.at("code"@) {
        JsonV::Int(n) => if i64::MIN <= n <= i64::MAX {
            n
        } else {
            default
        },
        _ => default,
    }
}

/// What becomes of a reply that was posted; `number` is the answer's status and
/// `status` how it reads.
pub open spec fn sent_answer(number: u16, status: Seq<char>, data: JsonV) -> SentV {
    let code = code_or(data, -1);
    if 200 <= number < 300 && code == 0 {
        SentV::Done
    } else if number == 401 || code == 99991663 {
        SentV::Unauthorized(
            FaultV::Msg("feishu send unauthorized code="@ + crate::json::signed_decimal(code)),
        )
    } else {
        SentV::Failed(
            FaultV::Msg(
                "feishu send HTTP "@ + status + " code="@ + crate::json::signed_decimal(code)
                    + " msg="@ + js_text(data.at("msg"@)),
            ),
        )
    }
}

/// What becomes of a reply that was posted.
pub fn send_text(number: u16, status: &str, data: &Json) -> (r: Sent)
    ensures
        r@ == sent_answer(number, status@, data@),
{
    let code: i64 = match data.get("code") {
        Some(c) => match c.as_i64() {
            Some(n) => n,
            None => -1,
        },
        None => -1,
    };
    let shown = crate::json::show_i64(code);
    if 200 <= number && number < 300 && code == 0 {
        return Sent::Done;
    }
    if number == 401 || code == 99991663 {
        return Sent::Unauthorized(
            Fault::Msg(text2("feishu send unauthorized code=", shown.as_str())),
        );
    }
    let mut m = text4("feishu send HTTP ", status, " code=", shown.as_str());
    m.append(" msg=");
    m.append(js_at(data, "msg").as_str());
    Sent::Failed(Fault::Msg(m))
}

/// A request for the address of the socket.
#[derive(Debug, PartialEq, Eq)]
pub struct EndpointRequest {
    pub url: String,
    /// It carries the token of the application.
    pub with_token: bool,
    pub body: Json,
}

pub ghost struct EndpointRequestV {
    pub url: Seq<char>,
    pub with_token: bool,
    pub body: JsonV,
}

impl View for EndpointRequest {
    type V = EndpointRequestV;

    open spec fn view(&self) -> EndpointRequestV {
        EndpointRequestV { url: self.url@, with_token: self.with_token, body: self.body@ }
    }
}

/// The requests for the address of the socket, in the order to try them: under the open
/// interfaces and beside them with the token, then with identifier and secret.
pub open spec fn endpoint_requests(base: Seq<char>, app_id: Seq<char>, secret: Seq<char>) -> Seq<
    EndpointRequestV,
> {
    let bare = base + "/callback/ws/endpoint"@;
    seq![
        EndpointRequestV {
            url: base + "/open-apis/callback/ws/endpoint"@,
            with_token: true,
            body: JsonV::Object(Map::empty()),
        },
        EndpointRequestV { url: bare, with_token: true, body: JsonV::Object(Map::empty()) },
        EndpointRequestV {
            url: bare,
            with_token: false,
            body: put(
                put(JsonV::Object(Map::empty()), "AppID"@, JsonV::Str(app_id)),
                "AppSecret"@,
                JsonV::Str(secret),
            ),
        },
    ]
}

/// The requests for the address of the socket, in the order to try them.
pub fn ws_endpoint(base: &str, app_id: &str, secret: &str) -> (r: Vec<EndpointRequest>)
    ensures
        r@.map_values(|q: EndpointRequest| q@) == endpoint_requests(base@, app_id@, secret@),
{
    let mut out: Vec<EndpointRequest> = Vec::new();
    out.push(
        EndpointRequest {
            url: text2(base, "/open-apis/callback/ws/endpoint"),
            with_token: true,
            body: Json::object(),
        },
    );
    out.push(
        EndpointRequest {
            url: text2(base, "/callback/ws/endpoint"),
            with_token: true,
            body: Json::object(),
        },
    );
    out.push(
        EndpointRequest {
            url: text2(base, "/callback/ws/endpoint"),
            with_token: false,
            body: Json::object().with("AppID", Json::string(app_id)).with(
                "AppSecret",
                Json::string(secret),
            ),
        },
    );
    assert(out@.map_values(|q: EndpointRequest| q@) =~= endpoint_requests(
        base@,
        app_id@,
        secret@,
    ));
    out
}

/// What follows a request for the address of the socket.
#[derive(Debug, PartialEq, Eq)]
pub enum EndpointNext {
    Found(String),
    /// The request of this number is next; the failure is only noted.
    Try(usize),
    Failed(Fault),
}

/// What follows the request of number `tried`: the first address that is found is taken,
/// and the failure of the last request is the failure of all.
pub fn ws_endpoint_next(tried: usize, answer: Result<String, Fault>) -> (r: EndpointNext)
    ensures
        answer matches Ok(url) ==> (r matches EndpointNext::Found(u) && u@ == url@),
        answer matches Err(e) ==> (if tried < 2 {
            r == EndpointNext::Try((tried + 1) as usize)
        } else {
            r matches EndpointNext::Failed(f) && f@ == e@
        }),
{
    match answer {
        Ok(url) => EndpointNext::Found(url),
        Err(e) => {
            if tried < 2 {
                EndpointNext::Try(tried + 1)
            } else {
                EndpointNext::Failed(e)
            }
        },
    }
}

/// How one attempt to send a reply went.
#[derive(Debug, PartialEq, Eq)]
pub enum Attempt {
    /// The platform could not be reached.
    Unreachable(Fault),
    Answered(Sent),
}

pub ghost enum AttemptV {
    Unreachable(FaultV),
    Answered(SentV),
}

impl View for Attempt {
    type V = AttemptV;

    open spec fn view(&self) -> AttemptV {
        match self {
            Attempt::Unreachable(e) => AttemptV::Unreachable(e@),
            Attempt::Answered(s) => AttemptV::Answered(s@),
        }
    }
}

/// What follows an attempt.
#[derive(Debug, PartialEq, Eq)]
pub enum SendNext {
    Done,
    Again {
        /// The token did not hold and is dropped first.
        drop_token: bool,
    },
    GiveUp {
        drop_token: bool,
        why: Fault,
    },
}

pub ghost enum SendNextV {
    Done,
    Again(bool),
    GiveUp(bool, FaultV),
}

impl View for SendNext {
    type V = SendNextV;

    open spec fn view(&self) -> SendNextV {
        match self {
            SendNext::Done => SendNextV::Done,
            SendNext::Again { drop_token } => SendNextV::Again(*drop_token),
            SendNext::GiveUp { drop_token, why } => SendNextV::GiveUp(*drop_token, why@),
        }
    }
}

/// What follows an attempt that is not the first where `second`: a reply is tried twice
/// at most, and only where the platform was not reached or the token did not hold.
pub open spec fn after_attempt(second: bool, a: AttemptV) -> SendNextV {
    match a {
        AttemptV::Answered(SentV::Done) => SendNextV::Done,
        AttemptV::Answered(SentV::Failed(e)) => SendNextV::GiveUp(false, e),
        AttemptV::Answered(SentV::Unauthorized(e)) => if second {
            SendNextV::GiveUp(true, e)
        } else {
            SendNextV::Again(true)
        },
        AttemptV::Unreachable(e) => if second {
            SendNextV::GiveUp(false, e)
        } else {
            SendNextV::Again(false)
        },
    }
}

/// What follows an attempt.
pub fn send_next(second: bool, a: Attempt) -> (r: SendNext)
    ensures
        r@ == after_attempt(second, a@),
{
    match a {
        Attempt::Answered(Sent::Done) => SendNext::Done,
        Attempt::Answered(Sent::Failed(why)) => SendNext::GiveUp { drop_token: false, why },
        Attempt::Answered(Sent::Unauthorized(why)) => {
            if second {
                SendNext::GiveUp { drop_token: true, why }
            } else {
                SendNext::Again { drop_token: true }
            }
        },
        Attempt::Unreachable(why) => {
            if second {
                SendNext::GiveUp { drop_token: false, why }
            } else {
                SendNext::Again { drop_token: false }
            }
        },
    }
}

// ---------------------------------------------------------------------------
// Laws
// ---------------------------------------------------------------------------

/// A reply goes back where the message came from: to the group for a group message,
/// else to the sender.
pub proof fn law_reply_goes_back(e: EndpointV, event: JsonV)
    requires
        payload_of_event(e, event) is Some,
    ensures
        ({
            let p = payload_of_event(e, event)->0;
            &&& p.group() ==> receiver_of(p, id_type_of(p)) == p.chat()
            &&& !p.group() ==> receiver_of(p, id_type_of(p)) == p.sender_id
            &&& p.sender_id.len() > 0
            &&& p.query() == p.text
        }),
{
    let p = payload_of_event(e, event)->0;
    let m = p.meta->Object_0;
    reveal_strlit("chat_id");
    reveal_strlit("is_group");
    reveal_strlit("message_id");
    reveal_strlit("receive_id_type");
    reveal_strlit("receive_id");
    reveal_strlit("is_mentioned");
    reveal_strlit("open_id");
    assert("chat_id"@.len() == 7 && "is_group"@.len() == 8 && "message_id"@.len() == 10
        && "receive_id_type"@.len() == 15 && "receive_id"@.len() == 10 && "is_mentioned"@.len()
        == 12 && "open_id"@.len() == 7);
    assert("message_id"@[0] == 'm' && "receive_id"@[0] == 'r');
    assert("chat_id"@[0] == 'c' && "open_id"@[0] == 'o');
    let parts = p.parts();
    assert(parts.drop_last() =~= Seq::empty());
    assert(crate::channel::envelope::text_lines(parts.drop_last()) =~= Seq::empty());
    assert(crate::channel::envelope::text_lines(parts) =~= p.text);
}

/// A ping is answered with a pong and takes nothing in, and what waits is left alone.
pub proof fn law_ping_only_pongs(e: EndpointV, fs: Seq<FragV>, f: FrameV)
    requires
        frame_kind_is(f, "ping"@),
    ensures
        frame_step(e, fs, f) == (
            StepV { send_binary: Some(frame_bytes(pong_of(f))), ..nothing() },
            fs,
        ),
{
}

/// Identifier and secret come under either of their names, the first before the second;
/// without one of them there is none.
pub proof fn law_where_the_credentials_stand(e: EndpointV)
    ensures
        ({
            let a = extra_of(e, "app_id"@);
            let b = extra_of(e, "client_id"@);
            let c = extra_of(e, "app_secret"@);
            let d = extra_of(e, "client_secret"@);
            let r = credentials_of(e);
            &&& a.len() > 0 && c.len() > 0 ==> r == Some((a, c))
            &&& a.len() == 0 && b.len() > 0 && c.len() > 0 ==> r == Some((b, c))
            &&& a.len() > 0 && c.len() == 0 && d.len() > 0 ==> r == Some((a, d))
            &&& a.len() == 0 && b.len() == 0 ==> r is None
            &&& c.len() == 0 && d.len() == 0 ==> r is None
        }),
{
}

/// The host is Lark's where the domain or the brand says so, and else Feishu's.
pub proof fn law_which_host_is_asked(e: EndpointV)
    ensures
        ({
            let lark = holds(lower(extra_of(e, "domain"@)), "lark"@) || lower(
                extra_of(e, "tenant_brand"@),
            ) == "lark"@;
            &&& lark ==> base_of(e) == "https://open.larksuite.com"@
            &&& !lark ==> base_of(e) == "https://open.feishu.cn"@
        }),
{
}

/// The number under a key in the query of an address.
pub proof fn law_a_number_in_the_query(a: Seq<char>, key: Seq<char>, n: nat)
    requires
        !a.contains('?'),
        !key.contains('=') && !key.contains('&'),
        n <= i32::MAX,
    ensures
        query_number(a.push('?') + (key.push('=') + crate::text::decimal(n)), key) == n,
        query_number(a, key) == 0,
{
    let q = key.push('=') + crate::text::decimal(n);
    let url = a.push('?') + q;
    let mark = seq!['?'];
    assert(url =~= a + (mark + q));
    crate::text::lemma_find_past(a, mark + q, mark, 0);
    crate::text::lemma_find_behind(a, mark + q, mark, 0);
    assert((mark + q).subrange(0, 1) =~= mark);
    assert(crate::text::at(mark + q, mark, 0));
    assert(find(url, mark) == Some(a.len() as int));
    assert(url.skip((a.len() + 1) as int) =~= q);
    crate::text::law_decimal_reads_back(n);
    assert(!q.contains('&')) by {
        assert forall|i: int| 0 <= i < q.len() implies q[i] != '&' by {
            if i < key.len() {
                assert(key.contains(key[i]));
            } else if i > key.len() {
                assert(crate::text::digit(crate::text::decimal(n)[i - key.len() - 1]));
            }
        }
    }
    crate::text::law_cut_at_a_character(q, '&', Seq::empty());
    let eq = seq!['='];
    let rest = eq + crate::text::decimal(n);
    assert(q =~= key + rest);
    crate::text::lemma_find_past(key, rest, eq, 0);
    crate::text::lemma_find_behind(key, rest, eq, 0);
    assert(rest.subrange(0, 1) =~= eq);
    assert(crate::text::at(rest, eq, 0));
    assert(find(q, eq) == Some(key.len() as int));
    assert(q.take(key.len() as int) =~= key);
    assert(q.skip((key.len() + 1) as int) =~= crate::text::decimal(n));
    assert(pair_of(q) == Some((key, crate::text::decimal(n))));
    reveal_with_fuel(pair_value, 2);
    let d = crate::text::decimal(n);
    assert(crate::text::digit(d[0]));
    crate::text::lemma_find_from(a, mark, 0);
    if let Some(i) = find(a, mark) {
        assert(a.subrange(i, i + 1)[0] == a[i]);
        assert(a.contains(a[i]));
    }
}

/// A message is found as it is, else under `event`, `data` or `payload`, in this order, at
/// any depth and in texts too.
pub proof fn law_where_a_message_is_found(v: JsonV, d: nat)
    requires
        d > 0,
    ensures
        ({
            let own = v.field("message"@) is Some && (v.field("sender"@) is Some || v.field(
                "sender_id"@,
            ) is Some);
            let a = v.field("event"@);
            let b = v.field("data"@);
            let c = v.field("payload"@);
            &&& own ==> event_in(v, d) == Some(v)
            &&& !own && a is Some && !(a->0 is Str) && event_in(a->0, d) is Some ==> event_in(v, d)
                == event_in(a->0, d)
            &&& !own && a is Some && a->0 is Str && parsed_json(a->0->Str_0) is Some && event_in(
                parsed_json(a->0->Str_0)->0,
                (d - 1) as nat,
            ) is Some ==> event_in(v, d) == event_in(parsed_json(a->0->Str_0)->0, (d - 1) as nat)
            &&& !own && a is None && b is Some && !(b->0 is Str) && event_in(b->0, d) is Some
                ==> event_in(v, d) == event_in(b->0, d)
            &&& !own && a is None && b is None && c is Some && !(c->0 is Str) ==> event_in(v, d)
                == event_in(c->0, d)
            &&& !own && a is None && b is None && c is None ==> event_in(v, d) is None
        }),
{
}

/// What a content says: what stands under `text`, in an object or in the text of one; a
/// plain text says itself.
pub proof fn law_what_a_content_says(content: JsonV, s: Seq<char>, t: Seq<char>)
    ensures
        content is Object && content.at("text"@) == JsonV::Str(t) ==> content_words(content) == t,
        parsed_json(s) is Some && parsed_json(s)->0.at("text"@) == JsonV::Str(t) && t.len() > 0
            ==> content_words(JsonV::Str(s)) == t,
        parsed_json(s) is None ==> content_words(JsonV::Str(s)) == trimmed(s),
        content_words(JsonV::Null).len() == 0,
{
}

/// Who sent a message: by the identifier that is open, else by that of the user, else by the
/// one beside them.
pub proof fn law_who_sent_a_message(event: JsonV, s: Seq<char>)
    requires
        s.len() > 0,
    ensures
        ({
            let who = event.at("sender"@);
            let ids = who.at("sender_id"@);
            &&& ids.at("open_id"@) == JsonV::Str(s) ==> sender_of(event) == s
            &&& ids.field("open_id"@) is None && ids.at("user_id"@) == JsonV::Str(s) ==> sender_of(
                event,
            ) == s
            &&& ids.field("open_id"@) is None && ids.field("user_id"@) is None && who.at("open_id"@)
                == JsonV::Str(s) ==> sender_of(event) == s
        }),
{
}

/// The payload of a message: who sent it, what it says, the chat, whether that is a group,
/// and whether the bot was named. What an application sent, what nobody sent and what says
/// nothing has none.
pub proof fn law_what_is_taken_of_a_message(e: EndpointV, event: JsonV)
    ensures
        ({
            let m = event.at("message"@);
            let who = js_text(event.at("sender"@).at("sender_type"@));
            let id = sender_of(event);
            let text = words_of(event);
            let group = lower(js_text(m.at("chat_type"@))) == "group"@;
            let p = payload_of_event(e, event);
            &&& who == "app"@ || who == "bot"@ || id.len() == 0 || text.len() == 0 || m is Null
                ==> p is None
            &&& who != "app"@ && who != "bot"@ && id.len() > 0 && text.len() > 0 && !(m is Null)
                ==> p is Some
            &&& p is Some ==> {
                &&& p->0.sender_id == id
                &&& p->0.text == text
                &&& p->0.meta.at("chat_id"@) == JsonV::Str(js_text(m.at("chat_id"@)))
                &&& p->0.meta.at("message_id"@) == JsonV::Str(js_text(m.at("message_id"@)))
                &&& p->0.meta.at("is_group"@) == JsonV::Bool(group)
                &&& !group ==> p->0.meta.at("is_mentioned"@) == JsonV::Bool(true)
                &&& group ==> p->0.meta.at("is_mentioned"@) == JsonV::Bool(
                    (m.at("mentions"@) is Array && m.at("mentions"@)->Array_0.len() > 0) || holds(
                        text,
                        "@_all"@,
                    ),
                )
                &&& group ==> p->0.meta.at("receive_id"@) == JsonV::Str(js_text(m.at("chat_id"@)))
                &&& !group ==> p->0.meta.at("receive_id"@) == JsonV::Str(id)
            }
        }),
{
    reveal_strlit("chat_id");
    reveal_strlit("is_group");
    reveal_strlit("message_id");
    reveal_strlit("receive_id_type");
    reveal_strlit("receive_id");
    reveal_strlit("is_mentioned");
    assert("chat_id"@.len() == 7 && "is_group"@.len() == 8 && "message_id"@.len() == 10 && "receive_id_type"@.len() == 15 && "receive_id"@.len() == 10 && "is_mentioned"@.len() == 12);
    assert("message_id"@[0] == 'm' && "receive_id"@[0] == 'r');
    reveal_strlit("group");
    assert(lower("group"@) =~= "group"@);
}

/// What is done with an envelope: a ping is answered and brings nothing; anything else is
/// acknowledged where it asks for that or names its message, and its message taken in, unless
/// it is a card.
pub proof fn law_what_is_done_with_an_envelope(e: EndpointV, v: JsonV)
    ensures
        ({
            let ping = lower(js_text(v.at("type"@))) == "ping"@ || v.field("ping"@) is Some;
            let asks = says_yes(v.at("need_ack"@)) || says_yes(v.at("headers"@).at("need_ack"@))
                || envelope_header(v, "message_id"@).len() > 0;
            let s = envelope_step(e, v);
            &&& ping ==> s.payload is None && s.send_text is Some
            &&& !ping && asks ==> s.send_text is Some
            &&& !ping && !asks ==> s.send_text is None
            &&& !ping && holds(lower(event_type(v)), "card"@) ==> s.payload is None
            &&& !ping && !holds(lower(event_type(v)), "card"@) && event_of(v) is Some ==> s.payload
                == payload_of_event(e, event_of(v)->0)
            &&& event_of(v) is None ==> s.payload is None
            &&& s.send_binary is None && !s.skipped
        }),
{
    reveal_strlit("ping");
    assert(lower("ping"@) =~= "ping"@);
}

/// What is done with a frame: an event is acknowledged, and its message taken in once all of
/// it is there; a control frame that is no ping is left alone.
pub proof fn law_what_is_done_with_a_frame(e: EndpointV, fs: Seq<FragV>, f: FrameV)
    requires
        lower(header_value(f, "type"@)) != "ping"@,
    ensures
        ({
            let (s, after) = frame_step(e, fs, f);
            &&& f.method == 0 ==> s.send_binary is None && s.payload is None && after == fs
            &&& f.method == 1 ==> s.send_binary == Some(frame_bytes(ack_of(f))) && after
                == assembled(fs, f).1
            &&& f.method == 1 && assembled(fs, f).0 is None ==> s.payload is None && !s.skipped
            &&& f.method == 1 && (assembled(fs, f).0 matches Some(b) && vstd::utf8::valid_utf8(b)
                && parsed_json(vstd::utf8::decode_utf8(b)) is Some) ==> s.payload
                == payload_of_envelope(
                e,
                parsed_json(vstd::utf8::decode_utf8(assembled(fs, f).0->0))->0,
            )
            &&& s.send_text is None
        }),
{
    reveal_strlit("ping");
    assert(lower("ping"@) =~= "ping"@);
}

/// The address of the socket is taken from an answer that went well, wherever it stands
/// there; any other answer is a failure.
pub proof fn law_where_the_socket_is(status: Seq<char>, data: JsonV, u: Seq<char>)
    requires
        u.len() > 0,
    ensures
        ws_answer(false, status, data) is Err,
        data.at("code"@) == JsonV::Int(0) && data.at("data"@).at("url"@) == JsonV::Str(u)
            ==> ws_answer(true, status, data) == Ok::<Seq<char>, FaultV>(u),
        data.at("code"@) == JsonV::Int(0) && data.at("data"@).field("url"@) is None && data.at(
            "data"@,
        ).at("URL"@) == JsonV::Str(u) ==> ws_answer(true, status, data) == Ok::<
            Seq<char>,
            FaultV,
        >(u),
        data.at("code"@) == JsonV::Int(7) ==> ws_answer(true, status, data) is Err,
        ws_url_of(data).len() == 0 ==> ws_answer(true, status, data) is Err,
{
}

/// A token is what the answer says, and nothing else is.
pub proof fn law_what_token_is_given(data: JsonV, t: Seq<char>)
    ensures
        data.at("tenant_access_token"@) == JsonV::Str(t) && t.len() > 0 ==> token_answer(data)
            == Ok::<Seq<char>, FaultV>(t),
        data.field("tenant_access_token"@) is None ==> token_answer(data) is Err,
{
}

/// What becomes of a reply: it is done where status and code say so; a token that does not
/// hold is told apart from other failures.
pub proof fn law_what_becomes_of_a_reply(number: u16, status: Seq<char>, data: JsonV)
    ensures
        data.at("code"@) == JsonV::Int(0) && 200 <= number < 300 ==> sent_answer(
            number,
            status,
            data,
        ) == SentV::Done,
        number == 401 ==> sent_answer(number, status, data) is Unauthorized,
        data.at("code"@) == JsonV::Int(99991663) ==> sent_answer(
            number,
            status,
            data,
        ) is Unauthorized,
        data.at("code"@) == JsonV::Int(1) && number != 401 ==> sent_answer(
            number,
            status,
            data,
        ) is Failed,
        data.at("code"@) == JsonV::Int(0) && (number < 200 || number >= 300) && number != 401
            ==> sent_answer(number, status, data) is Failed,
        data.field("code"@) is None && number != 401 ==> sent_answer(
            number,
            status,
            data,
        ) is Failed,
{
}

/// A reply is tried a second time where the platform was not reached or the token did not
/// hold, and never a third time.
pub proof fn law_a_reply_is_tried_twice_at_most(e: FaultV, second: bool)
    ensures
        after_attempt(second, AttemptV::Answered(SentV::Done)) == SendNextV::Done,
        after_attempt(second, AttemptV::Answered(SentV::Failed(e))) == SendNextV::GiveUp(false, e),
        after_attempt(false, AttemptV::Answered(SentV::Unauthorized(e))) == SendNextV::Again(true),
        after_attempt(true, AttemptV::Answered(SentV::Unauthorized(e))) == SendNextV::GiveUp(
            true,
            e,
        ),
        after_attempt(false, AttemptV::Unreachable(e)) == SendNextV::Again(false),
        after_attempt(true, AttemptV::Unreachable(e)) == SendNextV::GiveUp(false, e),
{
}

/// A reply is posted with its receiver, its text and its number.
pub proof fn law_what_is_posted(receiver: Seq<char>, text: Seq<char>, uuid: Seq<char>)
    ensures
        ({
            let b = message_body(receiver, text, uuid);
            &&& b.text_at("receive_id"@) == Some(receiver)
            &&& b.text_at("msg_type"@) == Some("text"@)
            &&& b.text_at("uuid"@) == Some(uuid)
            &&& b.text_at("content"@) == Some(
                json_text(settled_json(put(JsonV::Object(Map::empty()), "text"@, JsonV::Str(text)))),
            )
        }),
{
    reveal_strlit("receive_id");
    reveal_strlit("msg_type");
    reveal_strlit("content");
    reveal_strlit("uuid");
    assert("receive_id"@.len() == 10 && "msg_type"@.len() == 8 && "content"@.len() == 7 && "uuid"@.len() == 4);
}

/// What is done with a text and with bytes: JSON is an envelope, also in bytes that begin
/// like it; other bytes are a frame; and what can be read as neither is skipped.
pub proof fn law_what_is_done_with_what_comes(
    e: EndpointV,
    fs: Seq<FragV>,
    text: Seq<char>,
    bin: Seq<u8>,
)
    ensures
        parsed_json(text) matches Some(v) ==> text_step(e, text) == envelope_step(e, v),
        parsed_json(text) is None ==> text_step(e, text).skipped && text_step(e, text).payload
            is None && text_step(e, text).send_text is None,
        bin.len() > 0 && bin[0] == 0x7B && vstd::utf8::valid_utf8(bin) ==> binary_step(e, fs, bin)
            == (text_step(e, vstd::utf8::decode_utf8(bin)), fs),
        bin.len() > 0 && bin[0] != 0x7B && read_frame(bin, blank_frame()) is Some ==> binary_step(
            e,
            fs,
            bin,
        ) == frame_step(e, fs, read_frame(bin, blank_frame())->0),
        bin.len() > 0 && bin[0] != 0x7B && read_frame(bin, blank_frame()) is None ==> binary_step(
            e,
            fs,
            bin,
        ).0.skipped && binary_step(e, fs, bin).1 == fs,
{
}

/// The address of the socket is asked for three times: below the open interfaces and beside
/// them with the token, and then with identifier and secret.
pub proof fn law_how_the_socket_is_asked_for(base: Seq<char>, id: Seq<char>, secret: Seq<char>)
    ensures
        ({
            let qs = endpoint_requests(base, id, secret);
            &&& qs.len() == 3
            &&& qs[0].url == base + "/open-apis/callback/ws/endpoint"@ && qs[0].with_token
            &&& qs[1].url == base + "/callback/ws/endpoint"@ && qs[1].with_token
            &&& qs[2].url == base + "/callback/ws/endpoint"@ && !qs[2].with_token
            &&& qs[2].body.text_at("AppID"@) == Some(id)
            &&& qs[2].body.text_at("AppSecret"@) == Some(secret)
        }),
{
    reveal_strlit("AppID");
    reveal_strlit("AppSecret");
    assert("AppID"@.len() == 5 && "AppSecret"@.len() == 9);
}

/// What stands for a message that is no text: what it is, and its name where it is a file.
pub proof fn law_what_stands_for_a_message(kind: Seq<char>, content: JsonV, name: Seq<char>)
    ensures
        ({
            let k = lower(trimmed(kind));
            &&& k == "image"@ || k == "sticker"@ ==> caption_of(kind, content) == "[图片]"@
            &&& k == "audio"@ ==> caption_of(kind, content) == "[语音]"@
            &&& k == "media"@ || k == "video"@ ==> caption_of(kind, content) == "[视频]"@
            &&& k == "file"@ && content is Object && content.text_at("file_name"@) == Some(name)
                && name.len() > 0 ==> caption_of(kind, content) == "[文件] "@ + name
            &&& k == "file"@ && content is Null ==> caption_of(kind, content) == "[文件]"@
            &&& k == "text"@ ==> caption_of(kind, content).len() == 0
        }),
{
    reveal_strlit("image");
    reveal_strlit("sticker");
    reveal_strlit("audio");
    reveal_strlit("media");
    reveal_strlit("video");
    reveal_strlit("file");
    reveal_strlit("text");
    assert("image"@.len() == 5 && "sticker"@.len() == 7 && "audio"@.len() == 5 && "media"@.len() == 5 && "video"@.len() == 5 && "file"@.len() == 4 && "text"@.len() == 4);
    assert("image"@[0] == 'i' && "audio"@[0] == 'a');
    assert("image"@[0] == 'i' && "media"@[0] == 'm');
    assert("image"@[0] == 'i' && "video"@[0] == 'v');
    assert("audio"@[0] == 'a' && "media"@[0] == 'm');
    assert("audio"@[0] == 'a' && "video"@[0] == 'v');
    assert("media"@[0] == 'm' && "video"@[0] == 'v');
    assert("file"@[0] == 'f' && "text"@[0] == 't');
}

/// A message says its text, and what stands for it only where it has none.
pub proof fn law_text_before_caption(event: JsonV)
    ensures
        ({
            let m = event.at("message"@);
            let t = content_words(m.at("content"@));
            &&& t.len() > 0 ==> words_of(event) == t
            &&& t.len() == 0 ==> words_of(event) == caption_of(
                js_text(m.at("message_type"@)),
                m.at("content"@),
            )
        }),
{
}

/// What an envelope says that it holds, and a header of it, whether its headers are an object
/// or a list.
pub proof fn law_what_an_envelope_says(v: JsonV, key: Seq<char>, s: Seq<char>, item: JsonV)
    requires
        s.len() > 0,
    ensures
        v.at("header"@).at("event_type"@) == JsonV::Str(s) ==> event_type(v) == s,
        v.at("headers"@) is Object && v.at("headers"@).at(key) == JsonV::Str(s) ==> envelope_header(
            v,
            key,
        ) == s,
        v.at("headers"@) == JsonV::Array(seq![item]) && item.text_at("key"@) == Some(key) && key.len()
            > 0 && item.text_at("value"@) == Some(s) ==> envelope_header(v, key) == s,
        v.field("headers"@) is None ==> envelope_header(v, key).len() == 0,
{
    reveal_with_fuel(listed_header, 2);
}

/// An acknowledgement names the message that it is for.
pub proof fn law_what_an_acknowledgement_says(id: Seq<char>)
    ensures
        ack_value(id).text_at("type"@) == Some("ack"@),
        ack_value(id).at("code"@) == JsonV::Int(200),
        ack_value(id).text_at("message_id"@) == Some(id),
        pong_value().text_at("type"@) == Some("pong"@),
{
    reveal_strlit("type");
    reveal_strlit("code");
    reveal_strlit("message_id");
    assert("type"@.len() == 4 && "code"@.len() == 4 && "message_id"@.len() == 10);
    assert("type"@[0] == 't' && "code"@[0] == 'c');
}

} // verus!
