//! The frames of a long connection: a protobuf message with counters, headers and
//! a payload.

use vstd::prelude::*;
use vstd::utf8::{decode_utf8, encode_utf8, valid_utf8};
use crate::outside::{lossy_text, utf8_lossy};
use crate::text::{lower, same_ignoring_case};

verus! {

pub const PB_CONTROL: i32 = 0;

pub const PB_DATA: i32 = 1;

// ---------------------------------------------------------------------------
// Numbers
// ---------------------------------------------------------------------------

/// The bytes of a number, seven bits each, the least significant first; every byte
/// but the last has its top bit set.
pub open spec fn varint(n: nat) -> Seq<u8>
    decreases n,
{
    if n < 128 {
        seq![n as u8]
    } else {
        seq![(128 + n % 128) as u8] + varint(n / 128)
    }
}

pub open spec fn pow128(k: nat) -> nat
    decreases k,
{
    if k == 0 {
        1
    } else {
        128 * pow128((k - 1) as nat)
    }
}

/// The number at the front of `s`, whose byte `k` comes next, and what follows it.
/// A tenth byte has room for one bit and must be the last.
pub open spec fn read_varint(s: Seq<u8>, k: nat) -> Option<(nat, Seq<u8>)>
    decreases s.len(),
{
    if s.len() == 0 || k > 9 {
        None
    } else {
        let b = s[0] as nat;
        let part = if k < 9 {
            (b % 128) * pow128(k)
        } else {
            (b % 2) * pow128(9)
        };
        if b < 128 {
            Some((part, s.skip(1)))
        } else {
            match read_varint(s.skip(1), k + 1) {
                Some((n, rest)) => Some((part + n, rest)),
                None => None,
            }
        }
    }
}

pub proof fn lemma_pow128()
    ensures
        pow128(0) == 1,
        pow128(1) == 0x80,
        pow128(2) == 0x4000,
        pow128(3) == 0x20_0000,
        pow128(4) == 0x1000_0000,
        pow128(5) == 0x8_0000_0000,
        pow128(6) == 0x400_0000_0000,
        pow128(7) == 0x2_0000_0000_0000,
        pow128(8) == 0x100_0000_0000_0000,
        pow128(9) == 0x8000_0000_0000_0000,
{
    reveal_with_fuel(pow128, 10);
}

proof fn lemma_read_at(n: nat, k: nat, rest: Seq<u8>)
    requires
        k <= 9,
        n * pow128(k) < 0x1_0000_0000_0000_0000,
    ensures
        read_varint(varint(n) + rest, k) == Some((n * pow128(k), rest)),
    decreases n,
{
    let s = varint(n) + rest;
    let p = pow128(k);
    lemma_pow128();
    if k == 9 {
        assert(n < 2) by (nonlinear_arith)
            requires
                n * p < 0x1_0000_0000_0000_0000,
                p == 0x8000_0000_0000_0000,
        ;
    }
    if n < 128 {
        assert(s[0] == n as u8);
        assert(s.skip(1) =~= rest);
    } else {
        let low = n % 128;
        let high = n / 128;
        assert(s[0] == (128 + low) as u8);
        assert(s.skip(1) =~= varint(high) + rest);
        assert(pow128(k + 1) == 128 * p);
        assert(high * (128 * p) + low * p == n * p) by (nonlinear_arith)
            requires
                n == high * 128 + low,
        ;
        assert(high * (128 * p) <= n * p) by (nonlinear_arith)
            requires
                high * (128 * p) + low * p == n * p,
                low >= 0,
                p >= 0,
        ;
        if k == 8 {
            assert(n < 256) by (nonlinear_arith)
                requires
                    n * p < 0x1_0000_0000_0000_0000,
                    p == 0x100_0000_0000_0000,
            ;
        }
        lemma_read_at(high, k + 1, rest);
        assert(((128 + low) as u8 as nat) % 128 == low);
    }
}

/// A number that was written reads back, whatever follows it.
pub proof fn law_varint_reads_back(n: u64, rest: Seq<u8>)
    ensures
        read_varint(varint(n as nat) + rest, 0) == Some((n as nat, rest)),
{
    lemma_pow128();
    lemma_read_at(n as nat, 0, rest);
}

pub proof fn lemma_read_shorter(s: Seq<u8>, k: nat)
    ensures
        read_varint(s, k) matches Some((n, rest)) ==> rest.len() < s.len() && exists|j: int|
            0 < j <= s.len() && rest == s.skip(j),
    decreases s.len(),
{
    if s.len() > 0 && k <= 9 {
        if s[0] >= 128 {
            lemma_read_shorter(s.skip(1), k + 1);
            if let Some((n, rest)) = read_varint(s.skip(1), k + 1) {
                let j = choose|j: int| 0 < j <= s.skip(1).len() && rest == s.skip(1).skip(j);
                assert(s.skip(1).skip(j) =~= s.skip(j + 1));
            }
        } else {
            assert(s.skip(1) == s.skip(1));
        }
    }
}

/// Appends the bytes of a number.
pub fn pb_put_varint(n: u64, out: &mut Vec<u8>)
    ensures
        final(out)@ == old(out)@ + varint(n as nat),
{
    let ghost first = out@;
    let mut m: u64 = n;
    assert(first + varint(n as nat) =~= out@ + varint(m as nat));
    while m >= 128
        invariant
            first + varint(n as nat) == out@ + varint(m as nat),
        decreases m,
    {
        let ghost before = out@;
        let b: u8 = (128 + m % 128) as u8;
        out.push(b);
        proof {
            assert(before + (seq![b] + varint((m / 128) as nat)) =~= out@ + varint(
                (m / 128) as nat,
            ));
        }
        m = m / 128;
    }
    let ghost before = out@;
    out.push(m as u8);
    assert(before + seq![m as u8] =~= out@);
}

/// The number at `i`, and where it ends.
pub fn pb_varint(buf: &Vec<u8>, i: usize) -> (r: Option<(u64, usize)>)
    requires
        i <= buf@.len(),
    ensures
        r is Some <==> read_varint(buf@.skip(i as int), 0) is Some,
        r matches Some((n, j)) ==> i < j <= buf@.len() && read_varint(buf@.skip(i as int), 0)
            == Some((n as nat, buf@.skip(j as int))),
{
    let ghost s = buf@.skip(i as int);
    let mut acc: u64 = 0;
    let mut weight: u64 = 1;
    let mut k: u32 = 0;
    let mut j: usize = i;
    proof {
        lemma_pow128();
    }
    while j < buf.len()
        invariant
            i <= j <= buf@.len(),
            k <= 9,
            s == buf@.skip(i as int),
            weight == pow128(k as nat),
            acc < weight,
            match read_varint(buf@.skip(j as int), k as nat) {
                Some((n, rest)) => read_varint(s, 0) == Some((acc as nat + n, rest)),
                None => read_varint(s, 0) is None,
            },
        decreases buf.len() - j,
    {
        let ghost here = buf@.skip(j as int);
        proof {
            lemma_pow128();
            assert(here[0] == buf@[j as int]);
            assert(here.skip(1) =~= buf@.skip(j + 1));
        }
        let b: u8 = buf[j];
        let low: u64 = if k < 9 {
            (b % 128) as u64
        } else {
            (b % 2) as u64
        };
        assert(low * weight < 128 * weight && (k == 9 ==> low * weight <= weight)) by (
            nonlinear_arith)
            requires
                low < 128,
                k == 9 ==> low < 2,
                weight > 0,
        ;
        assert(k < 9 ==> weight <= 0x100_0000_0000_0000);
        let part: u64 = low * weight;
        assert(acc + part < 128 * weight) by (nonlinear_arith)
            requires
                acc < weight,
                part == low * weight,
                low <= 127,
                weight > 0,
        ;
        let sum: u64 = acc + part;
        if b < 128 {
            return Some((sum, j + 1));
        }
        if k == 9 {
            assert(read_varint(here.skip(1), 10) is None);
            return None;
        }
        acc = sum;
        j = j + 1;
        k = k + 1;
        weight = weight * 128;
    }
    None
}

// ---------------------------------------------------------------------------
// Fields
// ---------------------------------------------------------------------------

/// A field that holds a number.
pub open spec fn number_field(field: nat, n: nat) -> Seq<u8> {
    varint(field * 8) + varint(n)
}

/// A field that holds bytes.
pub open spec fn bytes_field(field: nat, b: Seq<u8>) -> Seq<u8> {
    varint(field * 8 + 2) + varint(b.len()) + b
}

/// The bytes at the front of `s`, after their length, and what follows them.
pub open spec fn read_bytes(s: Seq<u8>) -> Option<(Seq<u8>, Seq<u8>)> {
    match read_varint(s, 0) {
        Some((n, rest)) => if n > rest.len() {
            None
        } else {
            Some((rest.take(n as int), rest.skip(n as int)))
        },
        None => None,
    }
}

/// What follows a field of the wire type `wire` that nobody reads.
pub open spec fn skip_field(s: Seq<u8>, wire: nat) -> Option<Seq<u8>> {
    if wire == 0 {
        match read_varint(s, 0) {
            Some((_, rest)) => Some(rest),
            None => None,
        }
    } else if wire == 1 {
        if s.len() >= 8 {
            Some(s.skip(8))
        } else {
            None
        }
    } else if wire == 2 {
        match read_bytes(s) {
            Some((_, rest)) => Some(rest),
            None => None,
        }
    } else if wire == 5 {
        if s.len() >= 4 {
            Some(s.skip(4))
        } else {
            None
        }
    } else {
        None
    }
}

/// The number of the field that a key names, in thirty-two bits.
pub open spec fn key_field(key: nat) -> nat {
    (key / 8) % 0x1_0000_0000
}

/// What thirty-two bits stand for as a number with a sign.
pub open spec fn as_signed(n: nat) -> int {
    let m = n % 0x1_0000_0000;
    if m >= 0x8000_0000 {
        m - 0x1_0000_0000
    } else {
        m as int
    }
}

/// A number with a sign, in sixty-four bits.
pub open spec fn from_signed(v: int) -> nat {
    if v < 0 {
        (v + 0x1_0000_0000_0000_0000) as nat
    } else {
        v as nat
    }
}

/// The text that bytes stand for.
pub open spec fn text_of(b: Seq<u8>) -> Seq<char> {
    if valid_utf8(b) {
        decode_utf8(b)
    } else {
        lossy_text(b)
    }
}

/// A header: a key and a value.
pub ghost struct HeaderV {
    pub key: Seq<char>,
    pub value: Seq<char>,
}

/// The header that `s` writes, after `h`.
pub open spec fn read_header(s: Seq<u8>, h: HeaderV) -> Option<HeaderV>
    decreases s.len(),
{
    if s.len() == 0 {
        Some(h)
    } else {
        match read_varint(s, 0) {
            None => None,
            Some((key, after)) => {
                let field = key_field(key);
                let wire = key % 8;
                proof {
                    lemma_read_shorter(s, 0);
                    lemma_skips(after, wire);
                }
                if (field == 1 || field == 2) && wire == 2 {
                    match read_bytes(after) {
                        None => None,
                        Some((b, rest)) => read_header(
                            rest,
                            if field == 1 {
                                HeaderV { key: text_of(b), ..h }
                            } else {
                                HeaderV { value: text_of(b), ..h }
                            },
                        ),
                    }
                } else {
                    match skip_field(after, wire) {
                        None => None,
                        Some(rest) => read_header(rest, h),
                    }
                }
            },
        }
    }
}

pub open spec fn blank_header() -> HeaderV {
    HeaderV { key: Seq::empty(), value: Seq::empty() }
}

pub proof fn lemma_skips(s: Seq<u8>, wire: nat)
    ensures
        skip_field(s, wire) matches Some(rest) ==> rest.len() <= s.len(),
        read_bytes(s) matches Some((b, rest)) ==> rest.len() <= s.len() && b.len() <= s.len(),
{
    lemma_read_shorter(s, 0);
}

pub open spec fn header_bytes(h: HeaderV) -> Seq<u8> {
    bytes_field(1, encode_utf8(h.key)) + bytes_field(2, encode_utf8(h.value))
}

/// A frame.
pub ghost struct FrameV {
    pub seq_id: nat,
    pub log_id: nat,
    pub service: int,
    pub method: int,
    pub headers: Seq<HeaderV>,
    pub payload_encoding: Seq<char>,
    pub payload_type: Seq<char>,
    pub payload: Seq<u8>,
    pub log_id_new: Seq<char>,
}

pub open spec fn blank_frame() -> FrameV {
    FrameV {
        seq_id: 0,
        log_id: 0,
        service: 0,
        method: 0,
        headers: Seq::empty(),
        payload_encoding: Seq::empty(),
        payload_type: Seq::empty(),
        payload: Seq::empty(),
        log_id_new: Seq::empty(),
    }
}

pub open spec fn with_number(f: FrameV, field: nat, n: nat) -> FrameV {
    if field == 1 {
        FrameV { seq_id: n, ..f }
    } else if field == 2 {
        FrameV { log_id: n, ..f }
    } else if field == 3 {
        FrameV { service: as_signed(n), ..f }
    } else {
        FrameV { method: as_signed(n), ..f }
    }
}

pub open spec fn with_bytes(f: FrameV, field: nat, b: Seq<u8>) -> Option<FrameV> {
    if field == 5 {
        match read_header(b, blank_header()) {
            Some(h) => Some(FrameV { headers: f.headers.push(h), ..f }),
            None => None,
        }
    } else if field == 6 {
        Some(FrameV { payload_encoding: text_of(b), ..f })
    } else if field == 7 {
        Some(FrameV { payload_type: text_of(b), ..f })
    } else if field == 8 {
        Some(FrameV { payload: b, ..f })
    } else {
        Some(FrameV { log_id_new: text_of(b), ..f })
    }
}

/// The frame that `s` writes, after `f`. Fields that nobody reads are passed over.
#[verifier::opaque]
pub open spec fn read_frame(s: Seq<u8>, f: FrameV) -> Option<FrameV>
    decreases s.len(),
{
    if s.len() == 0 {
        Some(f)
    } else {
        match read_varint(s, 0) {
            None => None,
            Some((key, after)) => {
                let field = key_field(key);
                let wire = key % 8;
                proof {
                    lemma_read_shorter(s, 0);
                    lemma_read_shorter(after, 0);
                    lemma_skips(after, wire);
                }
                if 1 <= field <= 4 && wire == 0 {
                    match read_varint(after, 0) {
                        None => None,
                        Some((n, rest)) => read_frame(rest, with_number(f, field, n)),
                    }
                } else if 5 <= field <= 9 && wire == 2 {
                    match read_bytes(after) {
                        None => None,
                        Some((b, rest)) => match with_bytes(f, field, b) {
                            None => None,
                            Some(g) => read_frame(rest, g),
                        },
                    }
                } else {
                    match skip_field(after, wire) {
                        None => None,
                        Some(rest) => read_frame(rest, f),
                    }
                }
            },
        }
    }
}

/// The headers, one field each.
pub open spec fn headers_bytes(hs: Seq<HeaderV>) -> Seq<u8>
    decreases hs.len(),
{
    if hs.len() == 0 {
        Seq::empty()
    } else {
        headers_bytes(hs.drop_last()) + bytes_field(5, header_bytes(hs.last()))
    }
}

/// A field of bytes that is left out where there are none.
pub open spec fn optional_field(field: nat, b: Seq<u8>) -> Seq<u8> {
    if b.len() == 0 {
        Seq::empty()
    } else {
        bytes_field(field, b)
    }
}

/// The bytes of a frame.
pub open spec fn frame_bytes(f: FrameV) -> Seq<u8> {
    number_field(1, f.seq_id) + number_field(2, f.log_id) + number_field(
        3,
        from_signed(f.service),
    ) + number_field(4, from_signed(f.method)) + headers_bytes(f.headers) + optional_field(
        6,
        encode_utf8(f.payload_encoding),
    ) + optional_field(7, encode_utf8(f.payload_type)) + optional_field(8, f.payload)
        + optional_field(9, encode_utf8(f.log_id_new))
}

// ---------------------------------------------------------------------------
// Frames
// ---------------------------------------------------------------------------

#[derive(Debug, PartialEq, Eq)]
pub struct PbHeader {
    pub key: String,
    pub value: String,
}

impl View for PbHeader {
    type V = HeaderV;

    open spec fn view(&self) -> HeaderV {
        HeaderV { key: self.key@, value: self.value@ }
    }
}

#[derive(Debug, PartialEq, Eq)]
pub struct PbFrame {
    pub seq_id: u64,
    pub log_id: u64,
    pub service: i32,
    pub method: i32,
    pub headers: Vec<PbHeader>,
    pub payload_encoding: String,
    pub payload_type: String,
    pub payload: Vec<u8>,
    pub log_id_new: String,
}

pub open spec fn headers_view(v: Seq<PbHeader>) -> Seq<HeaderV> {
    v.map_values(|h: PbHeader| h@)
}

impl View for PbFrame {
    type V = FrameV;

    open spec fn view(&self) -> FrameV {
        FrameV {
            seq_id: self.seq_id as nat,
            log_id: self.log_id as nat,
            service: self.service as int,
            method: self.method as int,
            headers: headers_view(self.headers@),
            payload_encoding: self.payload_encoding@,
            payload_type: self.payload_type@,
            payload: self.payload@,
            log_id_new: self.log_id_new@,
        }
    }
}

fn pb_u64(field: u32, v: u64, out: &mut Vec<u8>)
    ensures
        final(out)@ == old(out)@ + number_field(field as nat, v as nat),
{
    let ghost first = out@;
    pb_put_varint(field as u64 * 8, out);
    pb_put_varint(v, out);
    assert(out@ =~= first + number_field(field as nat, v as nat));
}

fn pb_i32(field: u32, v: i32, out: &mut Vec<u8>)
    ensures
        final(out)@ == old(out)@ + number_field(field as nat, from_signed(v as int)),
{
    let n: u64 = if v < 0 {
        u64::MAX - ((-(v as i64) - 1) as u64)
    } else {
        v as u64
    };
    pb_u64(field, n, out);
}

fn pb_bytes(field: u32, b: &[u8], out: &mut Vec<u8>)
    ensures
        final(out)@ == old(out)@ + bytes_field(field as nat, b@),
{
    let ghost first = out@;
    pb_put_varint(field as u64 * 8 + 2, out);
    pb_put_varint(b.len() as u64, out);
    out.extend_from_slice(b);
    assert(out@ =~= first + bytes_field(field as nat, b@));
}

fn pb_optional(field: u32, b: &[u8], out: &mut Vec<u8>)
    ensures
        final(out)@ == old(out)@ + optional_field(field as nat, b@),
{
    if b.len() > 0 {
        pb_bytes(field, b, out);
    } else {
        assert(out@ + Seq::<u8>::empty() =~= out@);
    }
}

fn part_of(buf: &Vec<u8>, from: usize, to: usize) -> (r: Vec<u8>)
    requires
        from <= to <= buf@.len(),
    ensures
        r@ == buf@.subrange(from as int, to as int),
{
    let mut out: Vec<u8> = Vec::new();
    let mut i: usize = from;
    while i < to
        invariant
            from <= i <= to <= buf@.len(),
            out@ =~= buf@.subrange(from as int, i as int),
        decreases to - i,
    {
        out.push(buf[i]);
        i = i + 1;
    }
    out
}

/// The bytes at `i`, after their length, and where they end.
pub fn pb_len(buf: &Vec<u8>, i: usize) -> (r: Option<(Vec<u8>, usize)>)
    requires
        i <= buf@.len(),
    ensures
        r is Some <==> read_bytes(buf@.skip(i as int)) is Some,
        r matches Some((b, j)) ==> i < j <= buf@.len() && read_bytes(buf@.skip(i as int)) == Some(
            (b@, buf@.skip(j as int)),
        ),
{
    match pb_varint(buf, i) {
        None => None,
        Some((n, at)) => {
            let left: usize = buf.len() - at;
            if n > left as u64 {
                return None;
            }
            let end: usize = at + n as usize;
            let b = part_of(buf, at, end);
            proof {
                assert(buf@.skip(at as int).take(n as int) =~= b@);
                assert(buf@.skip(at as int).skip(n as int) =~= buf@.skip(end as int));
            }
            Some((b, end))
        },
    }
}

/// Where a field that nobody reads ends.
pub fn pb_skip(buf: &Vec<u8>, i: usize, wire: u64) -> (r: Option<usize>)
    requires
        i <= buf@.len(),
    ensures
        r is Some <==> skip_field(buf@.skip(i as int), wire as nat) is Some,
        r matches Some(j) ==> i <= j <= buf@.len() && skip_field(buf@.skip(i as int), wire as nat)
            == Some(buf@.skip(j as int)),
{
    if wire == 0 {
        match pb_varint(buf, i) {
            Some((_, j)) => Some(j),
            None => None,
        }
    } else if wire == 1 {
        if buf.len() - i >= 8 {
            assert(buf@.skip(i as int).skip(8) =~= buf@.skip(i + 8));
            Some(i + 8)
        } else {
            None
        }
    } else if wire == 2 {
        match pb_len(buf, i) {
            Some((_, j)) => Some(j),
            None => None,
        }
    } else if wire == 5 {
        if buf.len() - i >= 4 {
            assert(buf@.skip(i as int).skip(4) =~= buf@.skip(i + 4));
            Some(i + 4)
        } else {
            None
        }
    } else {
        None
    }
}

/// The header that `buf` writes.
pub fn decode_header(buf: &Vec<u8>) -> (r: Option<PbHeader>)
    ensures
        r is Some <==> read_header(buf@, blank_header()) is Some,
        r matches Some(h) ==> read_header(buf@, blank_header()) == Some(h@),
{
    let mut h = PbHeader { key: String::new(), value: String::new() };
    let mut i: usize = 0;
    assert(buf@.skip(0) =~= buf@);
    while i < buf.len()
        invariant
            i <= buf@.len(),
            read_header(buf@, blank_header()) == read_header(buf@.skip(i as int), h@),
        decreases buf.len() - i,
    {
        let (key, at) = match pb_varint(buf, i) {
            Some(x) => x,
            None => {
                return None;
            },
        };
        let field: u64 = (key / 8) % 0x1_0000_0000;
        let wire: u64 = key % 8;
        if (field == 1 || field == 2) && wire == 2 {
            match pb_len(buf, at) {
                None => {
                    return None;
                },
                Some((b, j)) => {
                    let s = utf8_lossy(b.as_slice());
                    if field == 1 {
                        h.key = s;
                    } else {
                        h.value = s;
                    }
                    i = j;
                },
            }
        } else {
            match pb_skip(buf, at, wire) {
                None => {
                    return None;
                },
                Some(j) => {
                    i = j;
                },
            }
        }
    }
    assert(buf@.skip(i as int) =~= Seq::empty());
    Some(h)
}

fn signed_of(n: u64) -> (r: i32)
    ensures
        r == as_signed(n as nat),
{
    let m: u64 = n % 0x1_0000_0000;
    if m >= 0x8000_0000 {
        (m as i64 - 0x1_0000_0000) as i32
    } else {
        m as i32
    }
}

/// The first header, from `i` on, whose key is `key` but for capitals.
pub open spec fn header_index(hs: Seq<HeaderV>, key: Seq<char>, i: int) -> Option<int>
    decreases hs.len() - i,
{
    if i < 0 || i >= hs.len() {
        None
    } else if lower(hs[i].key) == lower(key) {
        Some(i)
    } else {
        header_index(hs, key, i + 1)
    }
}

/// The value under a key, nothing where there is none.
pub open spec fn header_value(f: FrameV, key: Seq<char>) -> Seq<char> {
    match header_index(f.headers, key, 0) {
        Some(i) => f.headers[i].value,
        None => Seq::empty(),
    }
}

/// The answer to a ping: the same frame as a control frame of type `pong`.
pub open spec fn pong_of(f: FrameV) -> FrameV {
    FrameV {
        method: 0,
        headers: match header_index(f.headers, "type"@, 0) {
            Some(i) => f.headers.update(i, HeaderV { value: "pong"@, ..f.headers[i] }),
            None => f.headers.push(HeaderV { key: "type"@, value: "pong"@ }),
        },
        ..f
    }
}

/// The answer to an event: the same frame with a payload that says it arrived.
pub open spec fn ack_of(f: FrameV) -> FrameV {
    FrameV {
        payload: encode_utf8("{\"code\":200}"@),
        headers: match header_index(f.headers, "biz_rt"@, 0) {
            Some(i) => f.headers,
            None => f.headers.push(HeaderV { key: "biz_rt"@, value: "0"@ }),
        },
        ..f
    }
}

pub open spec fn ping_of(service: int) -> FrameV {
    FrameV {
        service,
        headers: seq![HeaderV { key: "type"@, value: "ping"@ }],
        ..blank_frame()
    }
}

impl PbFrame {
    fn blank() -> (r: PbFrame)
        ensures
            r@ == blank_frame(),
    {
        let headers: Vec<PbHeader> = Vec::new();
        assert(headers_view(headers@) =~= Seq::empty());
        PbFrame {
            seq_id: 0,
            log_id: 0,
            service: 0,
            method: 0,
            headers,
            payload_encoding: String::new(),
            payload_type: String::new(),
            payload: Vec::new(),
            log_id_new: String::new(),
        }
    }

    /// The same frame again.
    pub fn copy(&self) -> (r: PbFrame)
        ensures
            r@ == self@,
    {
        let mut headers: Vec<PbHeader> = Vec::new();
        let mut i: usize = 0;
        while i < self.headers.len()
            invariant
                i <= self.headers@.len(),
                headers_view(headers@) =~= headers_view(self.headers@).take(i as int),
            decreases self.headers.len() - i,
        {
            let h = &self.headers[i];
            let ghost before = headers@;
            headers.push(PbHeader { key: h.key.clone(), value: h.value.clone() });
            assert(headers_view(headers@) =~= headers_view(before).push(h@));
            assert(headers_view(self.headers@)[i as int] == h@);
            i = i + 1;
        }
        assert(headers_view(headers@) =~= headers_view(self.headers@));
        let payload = part_of(&self.payload, 0, self.payload.len());
        assert(payload@ =~= self.payload@);
        PbFrame {
            seq_id: self.seq_id,
            log_id: self.log_id,
            service: self.service,
            method: self.method,
            headers,
            payload_encoding: self.payload_encoding.clone(),
            payload_type: self.payload_type.clone(),
            payload,
            log_id_new: self.log_id_new.clone(),
        }
    }

    fn find_header(&self, key: &str) -> (r: Option<usize>)
        ensures
            r is Some <==> header_index(self@.headers, key@, 0) is Some,
            r matches Some(i) ==> header_index(self@.headers, key@, 0) == Some(i as int) && i
                < self.headers@.len(),
    {
        let mut i: usize = 0;
        while i < self.headers.len()
            invariant
                i <= self.headers@.len(),
                header_index(self@.headers, key@, 0) == header_index(
                    self@.headers,
                    key@,
                    i as int,
                ),
            decreases self.headers.len() - i,
        {
            assert(self@.headers[i as int] == self.headers@[i as int]@);
            if same_ignoring_case(self.headers[i].key.as_str(), key) {
                return Some(i);
            }
            i = i + 1;
        }
        None
    }

    /// The value under a key, nothing where there is none.
    pub fn header(&self, key: &str) -> (r: String)
        ensures
            r@ == header_value(self@, key@),
    {
        match self.find_header(key) {
            Some(i) => {
                assert(self@.headers[i as int] == self.headers@[i as int]@);
                self.headers[i].value.clone()
            },
            None => String::new(),
        }
    }

    pub fn ping(service: i32) -> (r: PbFrame)
        ensures
            r@ == ping_of(service as int),
    {
        let mut f = PbFrame::blank();
        f.service = service;
        let ghost before = f.headers@;
        f.headers.push(PbHeader { key: "type".to_owned(), value: "ping".to_owned() });
        assert(headers_view(f.headers@) =~= ping_of(service as int).headers) by {
            assert(headers_view(before) =~= Seq::empty());
            assert(before.len() == 0) by {
                assert(headers_view(before).len() == before.len());
            }
        }
        f
    }

    /// The answer to a ping.
    pub fn to_pong(&self) -> (r: PbFrame)
        ensures
            r@ == pong_of(self@),
    {
        let mut f = self.copy();
        f.method = PB_CONTROL;
        let ghost hs = f.headers@;
        match self.find_header("type") {
            Some(i) => {
                let key = self.headers[i].key.clone();
                assert(self@.headers[i as int] == self.headers@[i as int]@);
                assert(headers_view(hs).len() == self@.headers.len());
                f.headers.set(i, PbHeader { key, value: "pong".to_owned() });
                assert(headers_view(f.headers@) =~= pong_of(self@).headers);
            },
            None => {
                f.headers.push(PbHeader { key: "type".to_owned(), value: "pong".to_owned() });
                assert(headers_view(f.headers@) =~= pong_of(self@).headers);
            },
        }
        f
    }

    /// The answer to an event.
    pub fn to_ack(&self) -> (r: PbFrame)
        ensures
            r@ == ack_of(self@),
    {
        let mut f = self.copy();
        let ok = "{\"code\":200}";
        let mut payload: Vec<u8> = Vec::new();
        payload.extend_from_slice(ok.as_bytes());
        assert(payload@ =~= encode_utf8(ok@));
        f.payload = payload;
        let ghost hs = f.headers@;
        if self.find_header("biz_rt").is_none() {
            f.headers.push(PbHeader { key: "biz_rt".to_owned(), value: "0".to_owned() });
            assert(headers_view(f.headers@) =~= headers_view(hs).push(
                HeaderV { key: "biz_rt"@, value: "0"@ },
            ));
        }
        f
    }

    /// The bytes of the frame.
    pub fn encode(&self) -> (r: Vec<u8>)
        ensures
            r@ == frame_bytes(self@),
    {
        let mut out: Vec<u8> = Vec::new();
        pb_u64(1, self.seq_id, &mut out);
        pb_u64(2, self.log_id, &mut out);
        pb_i32(3, self.service, &mut out);
        pb_i32(4, self.method, &mut out);
        let ghost head = out@;
        let ghost hs = headers_view(self.headers@);
        proof {
            let a = number_field(1, self@.seq_id);
            assert(Seq::<u8>::empty() + a =~= a);
            assert(hs.take(0) =~= Seq::empty());
            assert(head + headers_bytes(hs.take(0)) =~= head);
        }
        let mut i: usize = 0;
        while i < self.headers.len()
            invariant
                i <= self.headers@.len(),
                hs == headers_view(self.headers@),
                out@ == head + headers_bytes(hs.take(i as int)),
            decreases self.headers.len() - i,
        {
            let h = &self.headers[i];
            let mut inner: Vec<u8> = Vec::new();
            pb_bytes(1, h.key.as_str().as_bytes(), &mut inner);
            pb_bytes(2, h.value.as_str().as_bytes(), &mut inner);
            assert(inner@ =~= header_bytes(h@));
            pb_bytes(5, inner.as_slice(), &mut out);
            proof {
                assert(hs.take(i + 1).drop_last() =~= hs.take(i as int));
                assert(hs.take(i + 1).last() == h@);
                let x = bytes_field(5, header_bytes(h@));
                assert(head + headers_bytes(hs.take(i as int)) + x =~= head + (headers_bytes(
                    hs.take(i as int),
                ) + x));
            }
            i = i + 1;
        }
        assert(hs.take(i as int) =~= hs);
        pb_optional(6, self.payload_encoding.as_str().as_bytes(), &mut out);
        pb_optional(7, self.payload_type.as_str().as_bytes(), &mut out);
        pb_optional(8, self.payload.as_slice(), &mut out);
        pb_optional(9, self.log_id_new.as_str().as_bytes(), &mut out);
        out
    }

    fn put_number(&mut self, field: u64, n: u64)
        requires
            1 <= field <= 4,
        ensures
            final(self)@ == with_number(old(self)@, field as nat, n as nat),
    {
        if field == 1 {
            self.seq_id = n;
        } else if field == 2 {
            self.log_id = n;
        } else if field == 3 {
            self.service = signed_of(n);
        } else {
            self.method = signed_of(n);
        }
    }

    fn put_bytes(&mut self, field: u64, b: Vec<u8>) -> (r: bool)
        requires
            5 <= field <= 9,
        ensures
            r == (with_bytes(old(self)@, field as nat, b@) is Some),
            r ==> with_bytes(old(self)@, field as nat, b@) == Some(final(self)@),
    {
        if field == 5 {
            match decode_header(&b) {
                Some(h) => {
                    let ghost hs = self.headers@;
                    self.headers.push(h);
                    assert(headers_view(self.headers@) =~= headers_view(hs).push(h@));
                },
                None => {
                    return false;
                },
            }
        } else if field == 6 {
            self.payload_encoding = utf8_lossy(b.as_slice());
        } else if field == 7 {
            self.payload_type = utf8_lossy(b.as_slice());
        } else if field == 8 {
            self.payload = b;
        } else {
            self.log_id_new = utf8_lossy(b.as_slice());
        }
        true
    }

    /// The frame that `buf` writes, `None` where it writes none.
    pub fn decode(buf: &Vec<u8>) -> (r: Option<PbFrame>)
        ensures
            r is Some <==> read_frame(buf@, blank_frame()) is Some,
            r matches Some(f) ==> read_frame(buf@, blank_frame()) == Some(f@),
    {
        let mut f = PbFrame::blank();
        let mut i: usize = 0;
        assert(buf@.skip(0) =~= buf@);
        while i < buf.len()
            invariant
                i <= buf@.len(),
                read_frame(buf@, blank_frame()) == read_frame(buf@.skip(i as int), f@),
            decreases buf.len() - i,
        {
            proof {
                reveal(read_frame);
            }
            let (key, at) = match pb_varint(buf, i) {
                Some(x) => x,
                None => {
                    return None;
                },
            };
            let field: u64 = (key / 8) % 0x1_0000_0000;
            let wire: u64 = key % 8;
            if 1 <= field && field <= 4 && wire == 0 {
                match pb_varint(buf, at) {
                    None => {
                        return None;
                    },
                    Some((n, j)) => {
                        f.put_number(field, n);
                        i = j;
                    },
                }
            } else if 5 <= field && field <= 9 && wire == 2 {
                match pb_len(buf, at) {
                    None => {
                        return None;
                    },
                    Some((b, j)) => {
                        if !f.put_bytes(field, b) {
                            return None;
                        }
                        i = j;
                    },
                }
            } else {
                match pb_skip(buf, at, wire) {
                    None => {
                        return None;
                    },
                    Some(j) => {
                        i = j;
                    },
                }
            }
        }
        proof {
            reveal(read_frame);
            assert(buf@.skip(i as int) =~= Seq::empty());
        }
        Some(f)
    }
}

// ---------------------------------------------------------------------------
// Laws
// ---------------------------------------------------------------------------

/// A frame whose numbers and lengths fit in their fields.
pub open spec fn frame_fits(f: FrameV) -> bool {
    &&& f.seq_id <= u64::MAX
    &&& f.log_id <= u64::MAX
    &&& i32::MIN <= f.service <= i32::MAX
    &&& i32::MIN <= f.method <= i32::MAX
    &&& forall|i: int| 0 <= i < f.headers.len() ==> header_fits(#[trigger] f.headers[i])
    &&& encode_utf8(f.payload_encoding).len() <= u64::MAX
    &&& encode_utf8(f.payload_type).len() <= u64::MAX
    &&& f.payload.len() <= u64::MAX
    &&& encode_utf8(f.log_id_new).len() <= u64::MAX
}

pub open spec fn header_fits(h: HeaderV) -> bool {
    &&& encode_utf8(h.key).len() <= u64::MAX
    &&& encode_utf8(h.value).len() <= u64::MAX
    &&& header_bytes(h).len() <= u64::MAX
}

proof fn lemma_text_back(s: Seq<char>)
    ensures
        text_of(encode_utf8(s)) == s,
{
    vstd::utf8::encode_utf8_valid_utf8(s);
    vstd::utf8::encode_utf8_decode_utf8(s);
}

proof fn lemma_key(field: nat, wire: nat, rest: Seq<u8>)
    requires
        1 <= field <= 9,
        wire < 8,
    ensures
        read_varint(varint(field * 8 + wire) + rest, 0) == Some((field * 8 + wire, rest)),
        key_field(field * 8 + wire) == field,
        (field * 8 + wire) % 8 == wire,
        (varint(field * 8 + wire) + rest).len() > 0,
{
    law_varint_reads_back((field * 8 + wire) as u64, rest);
    assert(varint(field * 8 + wire).len() > 0);
}

proof fn lemma_bytes_back(b: Seq<u8>, rest: Seq<u8>)
    requires
        b.len() <= u64::MAX,
    ensures
        read_bytes(varint(b.len()) + (b + rest)) == Some((b, rest)),
{
    law_varint_reads_back(b.len() as u64, b + rest);
    assert((b + rest).take(b.len() as int) =~= b);
    assert((b + rest).skip(b.len() as int) =~= rest);
}

proof fn lemma_number_step(field: nat, n: nat, rest: Seq<u8>, f: FrameV)
    requires
        1 <= field <= 4,
        n <= u64::MAX,
    ensures
        read_frame(number_field(field, n) + rest, f) == read_frame(
            rest,
            with_number(f, field, n),
        ),
{
    reveal(read_frame);
    let s = number_field(field, n) + rest;
    assert(s =~= varint(field * 8 + 0) + (varint(n) + rest));
    lemma_key(field, 0, varint(n) + rest);
    law_varint_reads_back(n as u64, rest);
}

proof fn lemma_bytes_step(field: nat, b: Seq<u8>, rest: Seq<u8>, f: FrameV)
    requires
        5 <= field <= 9,
        b.len() <= u64::MAX,
        with_bytes(f, field, b) is Some,
    ensures
        read_frame(bytes_field(field, b) + rest, f) == read_frame(
            rest,
            with_bytes(f, field, b)->0,
        ),
{
    reveal(read_frame);
    let s = bytes_field(field, b) + rest;
    assert(s =~= varint(field * 8 + 2) + (varint(b.len()) + (b + rest)));
    lemma_key(field, 2, varint(b.len()) + (b + rest));
    lemma_bytes_back(b, rest);
}

proof fn lemma_header_step(field: nat, b: Seq<u8>, rest: Seq<u8>, h: HeaderV)
    requires
        field == 1 || field == 2,
        b.len() <= u64::MAX,
    ensures
        read_header(bytes_field(field, b) + rest, h) == read_header(
            rest,
            if field == 1 {
                HeaderV { key: text_of(b), ..h }
            } else {
                HeaderV { value: text_of(b), ..h }
            },
        ),
{
    let s = bytes_field(field, b) + rest;
    assert(s =~= varint(field * 8 + 2) + (varint(b.len()) + (b + rest)));
    lemma_key(field, 2, varint(b.len()) + (b + rest));
    lemma_bytes_back(b, rest);
}

proof fn lemma_header_back(h: HeaderV)
    requires
        header_fits(h),
    ensures
        read_header(header_bytes(h), blank_header()) == Some(h),
{
    let a = bytes_field(1, encode_utf8(h.key));
    let b = bytes_field(2, encode_utf8(h.value));
    let none = Seq::<u8>::empty();
    lemma_text_back(h.key);
    lemma_text_back(h.value);
    lemma_header_step(1, encode_utf8(h.key), b, blank_header());
    let h1 = HeaderV { key: h.key, ..blank_header() };
    assert(b + none =~= b);
    lemma_header_step(2, encode_utf8(h.value), none, h1);
    assert(read_header(none, h) == Some(h));
}

proof fn lemma_headers_step(hs: Seq<HeaderV>, rest: Seq<u8>, f: FrameV)
    requires
        forall|i: int| 0 <= i < hs.len() ==> header_fits(#[trigger] hs[i]),
    ensures
        read_frame(headers_bytes(hs) + rest, f) == read_frame(
            rest,
            FrameV { headers: f.headers + hs, ..f },
        ),
    decreases hs.len(),
{
    if hs.len() == 0 {
        assert(headers_bytes(hs) + rest =~= rest);
        assert(f.headers + hs =~= f.headers);
    } else {
        let w = hs.drop_last();
        let x = bytes_field(5, header_bytes(hs.last()));
        assert(headers_bytes(hs) + rest =~= headers_bytes(w) + (x + rest));
        assert forall|i: int| 0 <= i < w.len() implies header_fits(#[trigger] w[i]) by {
            assert(w[i] == hs[i]);
        }
        lemma_headers_step(w, x + rest, f);
        let g = FrameV { headers: f.headers + w, ..f };
        assert(hs[hs.len() - 1] == hs.last());
        lemma_header_back(hs.last());
        lemma_bytes_step(5, header_bytes(hs.last()), rest, g);
        assert((f.headers + w).push(hs.last()) =~= f.headers + hs);
    }
}

proof fn lemma_optional_step(field: nat, b: Seq<u8>, rest: Seq<u8>, f: FrameV, g: FrameV)
    requires
        6 <= field <= 9,
        b.len() <= u64::MAX,
        with_bytes(f, field, b) == Some(g),
        b.len() == 0 ==> f == g,
    ensures
        read_frame(optional_field(field, b) + rest, f) == read_frame(rest, g),
{
    if b.len() == 0 {
        assert(optional_field(field, b) + rest =~= rest);
    } else {
        lemma_bytes_step(field, b, rest, f);
    }
}

proof fn lemma_empty_text(s: Seq<char>)
    ensures
        encode_utf8(s).len() == 0 ==> s == Seq::<char>::empty(),
{
    if s.len() > 0 {
        vstd::utf8::encode_utf8_first_scalar(s);
    } else {
        assert(s =~= Seq::<char>::empty());
    }
}

proof fn lemma_assoc(a: Seq<u8>, b: Seq<u8>, c: Seq<u8>)
    ensures
        (a + b) + c == a + (b + c),
{
    assert((a + b) + c =~= a + (b + c));
}

proof fn lemma_nest(
    n1: Seq<u8>,
    n2: Seq<u8>,
    n3: Seq<u8>,
    n4: Seq<u8>,
    hs: Seq<u8>,
    o6: Seq<u8>,
    o7: Seq<u8>,
    o8: Seq<u8>,
    o9: Seq<u8>,
)
    ensures
        n1 + n2 + n3 + n4 + hs + o6 + o7 + o8 + o9 == n1 + (n2 + (n3 + (n4 + (hs + (o6 + (o7 + (o8
            + (o9 + Seq::<u8>::empty())))))))),
{
    let r9 = o9 + Seq::<u8>::empty();
    assert(r9 =~= o9);
    let r8 = o8 + r9;
    lemma_assoc(n1 + n2 + n3 + n4 + hs + o6 + o7, o8, r9);
    let r7 = o7 + r8;
    lemma_assoc(n1 + n2 + n3 + n4 + hs + o6, o7, r8);
    let r6 = o6 + r7;
    lemma_assoc(n1 + n2 + n3 + n4 + hs, o6, r7);
    let rh = hs + r6;
    lemma_assoc(n1 + n2 + n3 + n4, hs, r6);
    let r4 = n4 + rh;
    lemma_assoc(n1 + n2 + n3, n4, rh);
    let r3 = n3 + r4;
    lemma_assoc(n1 + n2, n3, r4);
    lemma_assoc(n1, n2, r3);
}

/// A frame that was written reads back.
pub proof fn law_frame_reads_back(f: FrameV)
    requires
        frame_fits(f),
    ensures
        read_frame(frame_bytes(f), blank_frame()) == Some(f),
{
    let n1 = number_field(1, f.seq_id);
    let n2 = number_field(2, f.log_id);
    let n3 = number_field(3, from_signed(f.service));
    let n4 = number_field(4, from_signed(f.method));
    let hs = headers_bytes(f.headers);
    let e6 = encode_utf8(f.payload_encoding);
    let e7 = encode_utf8(f.payload_type);
    let e9 = encode_utf8(f.log_id_new);
    let o6 = optional_field(6, e6);
    let o7 = optional_field(7, e7);
    let o8 = optional_field(8, f.payload);
    let o9 = optional_field(9, e9);
    let none = Seq::<u8>::empty();
    let r9 = o9 + none;
    let r8 = o8 + r9;
    let r7 = o7 + r8;
    let r6 = o6 + r7;
    let rh = hs + r6;
    let r4 = n4 + rh;
    let r3 = n3 + r4;
    let r2 = n2 + r3;
    let r1 = n1 + r2;
    lemma_nest(n1, n2, n3, n4, hs, o6, o7, o8, o9);
    assert(frame_bytes(f) == r1);
    let f0 = blank_frame();
    let f1 = with_number(f0, 1, f.seq_id);
    lemma_number_step(1, f.seq_id, r2, f0);
    let f2 = with_number(f1, 2, f.log_id);
    lemma_number_step(2, f.log_id, r3, f1);
    let f3 = with_number(f2, 3, from_signed(f.service));
    lemma_number_step(3, from_signed(f.service), r4, f2);
    assert(as_signed(from_signed(f.service)) == f.service);
    let f4 = with_number(f3, 4, from_signed(f.method));
    lemma_number_step(4, from_signed(f.method), rh, f3);
    assert(as_signed(from_signed(f.method)) == f.method);
    let f5 = FrameV { headers: f.headers, ..f4 };
    lemma_headers_step(f.headers, r6, f4);
    assert(f4.headers + f.headers =~= f.headers);
    let f6 = FrameV { payload_encoding: f.payload_encoding, ..f5 };
    lemma_text_back(f.payload_encoding);
    lemma_empty_text(f.payload_encoding);
    lemma_optional_step(6, e6, r7, f5, f6);
    let f7 = FrameV { payload_type: f.payload_type, ..f6 };
    lemma_text_back(f.payload_type);
    lemma_empty_text(f.payload_type);
    lemma_optional_step(7, e7, r8, f6, f7);
    let f8 = FrameV { payload: f.payload, ..f7 };
    if f.payload.len() == 0 {
        assert(f.payload =~= Seq::<u8>::empty());
    }
    lemma_optional_step(8, f.payload, r9, f7, f8);
    lemma_text_back(f.log_id_new);
    lemma_empty_text(f.log_id_new);
    lemma_optional_step(9, e9, none, f8, f);
    assert(read_frame(none, f) == Some(f)) by {
        reveal(read_frame);
    }
}

proof fn lemma_header_index(hs: Seq<HeaderV>, key: Seq<char>, i: int)
    requires
        0 <= i,
    ensures
        header_index(hs, key, i) matches Some(j) ==> i <= j < hs.len() && lower(hs[j].key)
            == lower(key) && forall|q: int| i <= q < j ==> lower((#[trigger] hs[q]).key) != lower(
            key,
        ),
        header_index(hs, key, i) is None ==> forall|q: int|
            i <= q < hs.len() ==> lower((#[trigger] hs[q]).key) != lower(key),
    decreases hs.len() - i,
{
    if i < hs.len() && lower(hs[i].key) != lower(key) {
        lemma_header_index(hs, key, i + 1);
    }
}

proof fn lemma_header_found(hs: Seq<HeaderV>, key: Seq<char>, i: int, j: int)
    requires
        0 <= i <= j < hs.len(),
        lower(hs[j].key) == lower(key),
        forall|q: int| i <= q < j ==> lower((#[trigger] hs[q]).key) != lower(key),
    ensures
        header_index(hs, key, i) == Some(j),
    decreases j - i,
{
    if i < j {
        lemma_header_found(hs, key, i + 1, j);
    }
}

/// A pong is a control frame of type `pong` and keeps everything else; an
/// acknowledgement keeps everything but its payload.
pub proof fn law_answers_keep_the_frame(f: FrameV)
    ensures
        header_value(pong_of(f), "type"@) == "pong"@,
        pong_of(f).seq_id == f.seq_id && pong_of(f).log_id == f.log_id && pong_of(f).service
            == f.service && pong_of(f).payload == f.payload,
        pong_of(f).method == PB_CONTROL,
        ack_of(f).seq_id == f.seq_id && ack_of(f).log_id == f.log_id && ack_of(f).service
            == f.service && ack_of(f).method == f.method,
        header_index(ack_of(f).headers, "biz_rt"@, 0) is Some,
        header_index(f.headers, "biz_rt"@, 0) is Some ==> ack_of(f).headers == f.headers,
{
    lemma_header_index(f.headers, "type"@, 0);
    let p = pong_of(f).headers;
    match header_index(f.headers, "type"@, 0) {
        Some(i) => {
            assert forall|q: int| 0 <= q < i implies lower((#[trigger] p[q]).key) != lower(
                "type"@,
            ) by {
                assert(p[q] == f.headers[q]);
            }
            lemma_header_found(p, "type"@, 0, i);
        },
        None => {
            assert forall|q: int| 0 <= q < f.headers.len() implies lower((#[trigger] p[q]).key)
                != lower("type"@) by {
                assert(p[q] == f.headers[q]);
            }
            lemma_header_found(p, "type"@, 0, f.headers.len() as int);
        },
    }
    lemma_header_index(f.headers, "biz_rt"@, 0);
    if header_index(f.headers, "biz_rt"@, 0) is None {
        let a = ack_of(f).headers;
        assert forall|q: int| 0 <= q < f.headers.len() implies lower((#[trigger] a[q]).key)
            != lower("biz_rt"@) by {
            assert(a[q] == f.headers[q]);
        }
        lemma_header_found(a, "biz_rt"@, 0, f.headers.len() as int);
    }
}

/// How a number is written: seven bits in a byte, the lowest first, and the top bit of each
/// but the last.
pub proof fn law_how_a_number_is_written(n: nat)
    ensures
        n < 128 ==> varint(n) == seq![n as u8],
        128 <= n < 16384 ==> varint(n) == seq![(n % 128 + 128) as u8, (n / 128) as u8],
        n >= 128 ==> varint(n).skip(1) == varint(n / 128) && varint(n)[0] == 128 + n % 128,
{
    if n >= 128 {
        assert(varint(n).skip(1) =~= varint(n / 128));
        if n < 16384 {
            assert(varint(n / 128) =~= seq![(n / 128) as u8]);
            assert(varint(n) =~= seq![(n % 128 + 128) as u8, (n / 128) as u8]);
        }
    }
}

/// How a frame is written: its numbers under the first four tags, each header under the
/// fifth, and its encoding, its type, its payload and its newer number under those that
/// follow, where there are any.
pub proof fn law_how_a_frame_is_written(f: FrameV)
    requires
        f.headers.len() == 0,
        f.payload.len() > 0,
        f.payload_encoding.len() == 0 && f.payload_type.len() == 0 && f.log_id_new.len() == 0,
        0 <= f.service && 0 <= f.method,
    ensures
        frame_bytes(f) == seq![0x08u8] + varint(f.seq_id) + seq![0x10u8] + varint(f.log_id) + seq![
            0x18u8,
        ] + varint(f.service as nat) + seq![0x20u8] + varint(f.method as nat) + seq![0x42u8]
            + varint(f.payload.len()) + f.payload,
{
    let e = Seq::<char>::empty();
    assert(f.payload_encoding =~= e && f.payload_type =~= e && f.log_id_new =~= e);
    assert(encode_utf8(e).len() == 0);
    assert(varint(8) =~= seq![0x08u8]);
    assert(varint(16) =~= seq![0x10u8]);
    assert(varint(24) =~= seq![0x18u8]);
    assert(varint(32) =~= seq![0x20u8]);
    assert(varint(66) =~= seq![0x42u8]);
    assert(frame_bytes(f) =~= seq![0x08u8] + varint(f.seq_id) + seq![0x10u8] + varint(f.log_id)
        + seq![0x18u8] + varint(f.service as nat) + seq![0x20u8] + varint(f.method as nat) + seq![
        0x42u8,
    ] + varint(f.payload.len()) + f.payload);
}

/// Each header is written under its own tag, key before value, in their order.
pub proof fn law_how_headers_are_written(hs: Seq<HeaderV>, h: HeaderV)
    ensures
        headers_bytes(Seq::empty()).len() == 0,
        headers_bytes(hs.push(h)) == headers_bytes(hs) + (seq![0x2Au8] + varint(
            header_bytes(h).len(),
        ) + header_bytes(h)),
        header_bytes(h) == seq![0x0Au8] + varint(encode_utf8(h.key).len()) + encode_utf8(h.key)
            + seq![0x12u8] + varint(encode_utf8(h.value).len()) + encode_utf8(h.value),
{
    assert(hs.push(h).drop_last() =~= hs);
    assert(varint(42) =~= seq![0x2Au8]);
    assert(varint(10) =~= seq![0x0Au8]);
    assert(varint(18) =~= seq![0x12u8]);
    assert(header_bytes(h) =~= seq![0x0Au8] + varint(encode_utf8(h.key).len()) + encode_utf8(h.key)
        + seq![0x12u8] + varint(encode_utf8(h.value).len()) + encode_utf8(h.value));
}

/// A header is found by its key in letters of any case, the first of several.
pub proof fn law_the_first_header_counts(f: FrameV, key: Seq<char>, i: int)
    requires
        0 <= i < f.headers.len(),
        lower(f.headers[i].key) == lower(key),
        forall|j: int| 0 <= j < i ==> lower((#[trigger] f.headers[j]).key) != lower(key),
    ensures
        header_value(f, key) == f.headers[i].value,
{
    lemma_header_found(f.headers, key, 0, i);
}

/// A ping says what it is and for which service; the answer to it says that it is one.
pub proof fn law_what_a_ping_says(service: int, f: FrameV)
    ensures
        ping_of(service).service == service,
        ping_of(service).method == 0,
        header_value(ping_of(service), "type"@) == "ping"@,
        ack_of(f).payload == encode_utf8("{\"code\":200}"@),
{
    let p = ping_of(service);
    assert(p.headers[0].key == "type"@);
    lemma_header_found(p.headers, "type"@, 0, 0);
}

} // verus!
