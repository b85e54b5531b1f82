//! Key/value record codec: compact-size integers, key/value pairs and maps
//! closed by a zero byte, as partially signed transactions lay them out.

use vstd::arithmetic::div_mod::{lemma_div_denominator, lemma_mod_breakdown};
use vstd::prelude::*;

verus! {

/// 256 to the power `k`.
pub open spec fn pow256(k: nat) -> nat
    decreases k,
{
    if k == 0 {
        1
    } else {
        pow256((k - 1) as nat) * 256
    }
}

/// The `k` low bytes of `n`, least significant first.
pub open spec fn le_bytes(n: nat, k: nat) -> Seq<u8>
    decreases k,
{
    if k == 0 {
        Seq::empty()
    } else {
        le_bytes(n, (k - 1) as nat).push(((n / pow256((k - 1) as nat)) % 256) as u8)
    }
}

/// The number whose bytes, least significant first, are `s`.
pub open spec fn le_value(s: Seq<u8>) -> nat
    decreases s.len(),
{
    if s.len() == 0 {
        0
    } else {
        le_value(s.drop_last()) + (s.last() as nat) * pow256((s.len() - 1) as nat)
    }
}

/// Compact-size encoding of `n`: one byte below 0xfd, else a marker byte
/// followed by two, four or eight little-endian bytes.
pub open spec fn varint_bytes(n: nat) -> Seq<u8> {
    if n < 0xfd {
        seq![n as u8]
    } else if n <= 0xffff {
        seq![0xfdu8] + le_bytes(n, 2)
    } else if n <= 0xffff_ffff {
        seq![0xfeu8] + le_bytes(n, 4)
    } else {
        seq![0xffu8] + le_bytes(n, 8)
    }
}

/// Number of bytes that follow a compact-size marker byte.
pub open spec fn varint_width(marker: u8) -> nat {
    if marker == 0xfd {
        2
    } else if marker == 0xfe {
        4
    } else {
        8
    }
}

/// Smallest value that a compact-size integer of that width may hold.
pub open spec fn varint_min(width: nat) -> nat {
    if width == 2 {
        0xfd
    } else if width == 4 {
        0x1_0000
    } else {
        0x1_0000_0000
    }
}

/// Reads a minimally encoded compact-size integer at the start of `d`:
/// its value and the number of bytes it takes.
pub open spec fn parse_varint(d: Seq<u8>) -> Option<(nat, nat)> {
    if d.len() == 0 {
        None
    } else if d[0] < 0xfd {
        Some((d[0] as nat, 1))
    } else {
        let w = varint_width(d[0]);
        if d.len() < 1 + w {
            None
        } else {
            let v = le_value(d.subrange(1, 1 + w as int));
            if v < varint_min(w) {
                None
            } else {
                Some((v, 1 + w))
            }
        }
    }
}

pub proof fn lemma_pow256_small()
    ensures
        pow256(0) == 1,
        pow256(1) == 256,
        pow256(2) == 0x1_0000,
        pow256(3) == 0x100_0000,
        pow256(4) == 0x1_0000_0000,
        pow256(5) == 0x100_0000_0000,
        pow256(6) == 0x1_0000_0000_0000,
        pow256(7) == 0x100_0000_0000_0000,
        pow256(8) == 0x1_0000_0000_0000_0000,
{
    reveal_with_fuel(pow256, 9);
}

pub proof fn lemma_pow256_positive(k: nat)
    ensures
        pow256(k) > 0,
    decreases k,
{
    if k > 0 {
        lemma_pow256_positive((k - 1) as nat);
    }
}

/// The low bytes of `n`, read back, give `n` modulo 256 to their count.
pub proof fn lemma_le_round_trip(n: nat, k: nat)
    ensures
        le_bytes(n, k).len() == k,
        le_value(le_bytes(n, k)) == n % pow256(k),
    decreases k,
{
    if k > 0 {
        let p = pow256((k - 1) as nat);
        lemma_pow256_positive((k - 1) as nat);
        lemma_le_round_trip(n, (k - 1) as nat);
        let s = le_bytes(n, k);
        assert(s.drop_last() =~= le_bytes(n, (k - 1) as nat));
        lemma_mod_breakdown(n as int, p as int, 256);
        assert(((n / p) % 256) as u8 as nat == (n / p) % 256);
        assert(((n / p) % 256) * p == p * ((n / p) % 256)) by (nonlinear_arith);
    } else {
        assert(n % 1 == 0);
    }
}

/// A number read from `s` is below 256 to the length of `s`.
pub proof fn lemma_le_value_bound(s: Seq<u8>)
    ensures
        le_value(s) < pow256(s.len()),
    decreases s.len(),
{
    if s.len() > 0 {
        let t = s.drop_last();
        lemma_le_value_bound(t);
        let p = pow256(t.len());
        let b = s.last() as nat;
        assert(b <= 255);
        assert(le_value(t) + b * p < p * 256) by (nonlinear_arith)
            requires
                le_value(t) < p,
                b <= 255,
        ;
    }
}

/// Appends the `k` low bytes of `n`, least significant first.
pub(crate) fn write_le(buf: &mut Vec<u8>, n: u64, k: usize)
    ensures
        final(buf)@ == old(buf)@ + le_bytes(n as nat, k as nat),
{
    let ghost start = old(buf)@;
    let mut v: u64 = n;
    let mut i: usize = 0;
    assert(pow256(0) == 1) by {
        reveal_with_fuel(pow256, 1);
    }
    assert(n as nat / 1 == n as nat);
    assert(le_bytes(n as nat, 0) =~= Seq::<u8>::empty());
    assert(buf@ =~= start + le_bytes(n as nat, 0));
    while i < k
        invariant
            i <= k,
            v == n as nat / pow256(i as nat),
            buf@ == start + le_bytes(n as nat, i as nat),
        decreases k - i,
    {
        proof {
            lemma_pow256_positive(i as nat);
            lemma_div_denominator(n as int, pow256(i as nat) as int, 256);
        }
        buf.push((v % 256) as u8);
        v = v / 256;
        i = i + 1;
        assert(buf@ =~= start + le_bytes(n as nat, i as nat));
    }
}

/// Appends the compact-size encoding of `n`.
pub fn write_varint(buf: &mut Vec<u8>, n: u64)
    ensures
        final(buf)@ == old(buf)@ + varint_bytes(n as nat),
{
    if n < 0xfd {
        buf.push(n as u8);
        assert(buf@ =~= old(buf)@ + varint_bytes(n as nat));
    } else {
        let ghost start = buf@;
        let k: usize;
        if n <= 0xffff {
            buf.push(0xfd);
            k = 2;
        } else if n <= 0xffff_ffff {
            buf.push(0xfe);
            k = 4;
        } else {
            buf.push(0xff);
            k = 8;
        }
        write_le(buf, n, k);
        assert(buf@ =~= old(buf)@ + varint_bytes(n as nat));
    }
}

/// Reads `k` little-endian bytes of `data` from `pos`.
pub(crate) fn read_le(data: &Vec<u8>, pos: usize, k: usize) -> (r: u64)
    requires
        pos + k <= data@.len(),
        k <= 8,
    ensures
        r as nat == le_value(data@.subrange(pos as int, pos + k)),
{
    proof {
        lemma_pow256_small();
    }
    let len = data.len();
    let mut acc: u128 = 0;
    let mut m: u128 = 1;
    let mut i: usize = 0;
    while i < k
        invariant
            i <= k,
            k <= 8,
            pos + k <= len,
            len == data@.len(),
            m == pow256(i as nat),
            acc == le_value(data@.subrange(pos as int, pos + i)),
            acc < m,
            pow256(0) == 1,
            pow256(1) == 256,
            pow256(2) == 0x1_0000,
            pow256(3) == 0x100_0000,
            pow256(4) == 0x1_0000_0000,
            pow256(5) == 0x100_0000_0000,
            pow256(6) == 0x1_0000_0000_0000,
            pow256(7) == 0x100_0000_0000_0000,
            pow256(8) == 0x1_0000_0000_0000_0000,
        decreases k - i,
    {
        let b = data[pos + i];
        let ghost s = data@.subrange(pos as int, pos + i + 1);
        assert(s.drop_last() =~= data@.subrange(pos as int, pos + i));
        assert(m <= 0x100_0000_0000_0000);
        assert((b as u128) * m <= 255 * 0x100_0000_0000_0000) by (nonlinear_arith)
            requires
                b <= 255,
                m <= 0x100_0000_0000_0000,
        ;
        acc = acc + (b as u128) * m;
        m = m * 256;
        i = i + 1;
        proof {
            lemma_le_value_bound(s);
        }
    }
    acc as u64
}

/// Reads a compact-size integer at `pos`: its value and the number of bytes
/// it takes, or `None` where the bytes do not hold a minimal one.
pub fn read_varint(data: &Vec<u8>, pos: usize) -> (r: Option<(u64, usize)>)
    requires
        pos <= data@.len(),
    ensures
        match parse_varint(data@.subrange(pos as int, data@.len() as int)) {
            Some((v, u)) => r == Some((v as u64, u as usize)) && v < 0x1_0000_0000_0000_0000,
            None => r is None,
        },
{
    let ghost d = data@.subrange(pos as int, data@.len() as int);
    if pos >= data.len() {
        return None;
    }
    let b = data[pos];
    if b < 0xfd {
        return Some((b as u64, 1));
    }
    let w: usize = if b == 0xfd {
        2
    } else if b == 0xfe {
        4
    } else {
        8
    };
    if data.len() - pos < 1 + w {
        return None;
    }
    let v = read_le(data, pos + 1, w);
    assert(d.subrange(1, 1 + w as int) =~= data@.subrange(pos + 1, pos + 1 + w));
    let min: u64 = if w == 2 {
        0xfd
    } else if w == 4 {
        0x1_0000
    } else {
        0x1_0000_0000
    };
    if v < min {
        None
    } else {
        Some((v, 1 + w))
    }
}

/// A compact-size integer reads back as itself, whatever follows it.
pub proof fn lemma_varint_round_trip(n: nat, rest: Seq<u8>)
    requires
        n < 0x1_0000_0000_0000_0000,
    ensures
        parse_varint(varint_bytes(n) + rest) == Some((n, varint_bytes(n).len())),
{
    let d = varint_bytes(n) + rest;
    lemma_pow256_small();
    if n >= 0xfd {
        let w: nat = if n <= 0xffff {
            2
        } else if n <= 0xffff_ffff {
            4
        } else {
            8
        };
        lemma_le_round_trip(n, w);
        assert(d.subrange(1, 1 + w as int) =~= le_bytes(n, w));
        assert(n % pow256(w) == n) by {
            vstd::arithmetic::div_mod::lemma_small_mod(n, pow256(w));
        }
    }
}

/// Key of a record: its type byte and the key data that follows it.
#[derive(Clone, Debug, PartialEq, Eq)]
pub struct Key {
    pub type_value: u8,
    pub key: Vec<u8>,
}

/// One key/value record.
#[derive(Clone, Debug, PartialEq, Eq)]
pub struct Pair {
    pub key: Key,
    pub value: Vec<u8>,
}

/// A record as plain values: type byte, key data, value data.
pub type Record = (u8, Seq<u8>, Seq<u8>);

impl Pair {
    pub open spec fn record(&self) -> Record {
        (self.key.type_value, self.key.key@, self.value@)
    }
}

pub open spec fn records(ps: Seq<Pair>) -> Seq<Record> {
    ps.map_values(|p: Pair| p.record())
}

/// The lengths of a record can be written as compact-size integers.
pub open spec fn record_fits(r: Record) -> bool {
    &&& r.1.len() + 1 < 0x1_0000_0000_0000_0000
    &&& r.2.len() < 0x1_0000_0000_0000_0000
}

pub open spec fn all_fit(rs: Seq<Record>) -> bool {
    forall|i: int| 0 <= i < rs.len() ==> record_fits(#[trigger] rs[i])
}

/// `<keylen> <type> <keydata>`, where the length counts the type byte.
pub open spec fn key_bytes(type_value: u8, key: Seq<u8>) -> Seq<u8> {
    varint_bytes(key.len() + 1) + seq![type_value] + key
}

/// A key followed by `<valuelen> <valuedata>`.
pub open spec fn pair_bytes(r: Record) -> Seq<u8> {
    key_bytes(r.0, r.1) + varint_bytes(r.2.len()) + r.2
}

/// The records one after the other.
pub open spec fn body_bytes(rs: Seq<Record>) -> Seq<u8>
    decreases rs.len(),
{
    if rs.len() == 0 {
        Seq::empty()
    } else {
        pair_bytes(rs[0]) + body_bytes(rs.drop_first())
    }
}

/// The records followed by the zero byte that ends a map.
pub open spec fn map_bytes(rs: Seq<Record>) -> Seq<u8> {
    body_bytes(rs) + seq![0u8]
}

/// Reads one record at the start of `d`, and the number of bytes it takes.
pub open spec fn parse_pair(d: Seq<u8>) -> Option<(Record, nat)> {
    match parse_varint(d) {
        None => None,
        Some((kl, u1)) => {
            if kl == 0 || d.len() < u1 + kl {
                None
            } else {
                let t = d[u1 as int];
                let k = d.subrange((u1 + 1) as int, (u1 + kl) as int);
                match parse_varint(d.subrange((u1 + kl) as int, d.len() as int)) {
                    None => None,
                    Some((vl, u2)) => {
                        let end = u1 + kl + u2 + vl;
                        if d.len() < end {
                            None
                        } else {
                            Some(((t, k, d.subrange((u1 + kl + u2) as int, end as int)), end))
                        }
                    },
                }
            }
        },
    }
}

/// Reads a map at the start of `d`: its records, in order, and the number of
/// bytes it takes with its closing zero byte.
pub open spec fn parse_map(d: Seq<u8>) -> Option<(Seq<Record>, nat)>
    decreases d.len(),
{
    match parse_varint(d) {
        None => None,
        Some((n, u)) => {
            if n == 0 {
                Some((Seq::empty(), u))
            } else {
                match parse_pair(d) {
                    None => None,
                    Some((r, u)) => {
                        if 0 < u <= d.len() {
                            match parse_map(d.subrange(u as int, d.len() as int)) {
                                None => None,
                                Some((rs, u2)) => Some((seq![r] + rs, u + u2)),
                            }
                        } else {
                            None
                        }
                    },
                }
            }
        },
    }
}

pub proof fn lemma_body_push(rs: Seq<Record>, r: Record)
    ensures
        body_bytes(rs.push(r)) == body_bytes(rs) + pair_bytes(r),
    decreases rs.len(),
{
    if rs.len() == 0 {
        let e = Seq::<Record>::empty();
        assert(rs.push(r).drop_first() =~= e);
        assert(body_bytes(e) == Seq::<u8>::empty());
        assert(rs =~= e);
        assert(rs.push(r)[0] == r);
        assert(body_bytes(rs.push(r)) =~= body_bytes(rs) + pair_bytes(r));
    } else {
        lemma_body_push(rs.drop_first(), r);
        assert(rs.push(r).drop_first() =~= rs.drop_first().push(r));
        assert(body_bytes(rs.push(r)) =~= body_bytes(rs) + pair_bytes(r));
    }
}

/// A record reads back as itself, whatever follows it.
pub proof fn lemma_pair_round_trip(r: Record, rest: Seq<u8>)
    requires
        record_fits(r),
    ensures
        parse_pair(pair_bytes(r) + rest) == Some((r, pair_bytes(r).len())),
{
    let (t, k, v) = r;
    let kl = k.len() + 1;
    let vk = varint_bytes(kl);
    let ikl = kl as int;
    let vv = varint_bytes(v.len());
    let d = pair_bytes(r) + rest;
    let after_key = seq![t] + k + vv + v + rest;
    assert(d =~= vk + after_key);
    lemma_varint_round_trip(kl, after_key);
    let u1 = vk.len() as int;
    assert(d[u1] == t);
    assert(d.subrange(u1 + 1, u1 + ikl) =~= k);
    assert(d.subrange(u1 + ikl, d.len() as int) =~= vv + (v + rest));
    lemma_varint_round_trip(v.len(), v + rest);
    let u2 = vv.len() as int;
    assert(d.subrange(u1 + ikl + u2, u1 + ikl + u2 + v.len()) =~= v);
}

/// A map reads back as its records, in order, whatever follows it.
#[verifier::rlimit(30)]
pub proof fn lemma_map_round_trip(rs: Seq<Record>, rest: Seq<u8>)
    requires
        all_fit(rs),
    ensures
        parse_map(map_bytes(rs) + rest) == Some((rs, map_bytes(rs).len())),
    decreases rs.len(),
{
    let d = map_bytes(rs) + rest;
    if rs.len() == 0 {
        assert(d =~= seq![0u8] + rest);
        assert(parse_varint(d) == Some((0nat, 1nat)));
        assert(rs =~= Seq::<Record>::empty());
    } else {
        let r = rs[0];
        let tail = rs.drop_first();
        assert(record_fits(r));
        assert(all_fit(tail)) by {
            assert forall|i: int| 0 <= i < tail.len() implies record_fits(#[trigger] tail[i]) by {
                assert(tail[i] == rs[i + 1]);
            }
        }
        let later = map_bytes(tail) + rest;
        assert(d =~= pair_bytes(r) + later);
        lemma_pair_round_trip(r, later);
        let u = pair_bytes(r).len();
        assert(d.subrange(u as int, d.len() as int) =~= later);
        lemma_map_round_trip(tail, rest);
        assert(seq![r] + tail =~= rs);
    }
}

/// Appends the bytes of `src`.
pub fn append_bytes(buf: &mut Vec<u8>, src: &Vec<u8>)
    ensures
        final(buf)@ == old(buf)@ + src@,
{
    let ghost start = old(buf)@;
    let mut i: usize = 0;
    while i < src.len()
        invariant
            i <= src@.len(),
            buf@ == start + src@.subrange(0, i as int),
        decreases src@.len() - i,
    {
        buf.push(src[i]);
        i = i + 1;
        assert(buf@ =~= start + src@.subrange(0, i as int));
    }
    assert(src@.subrange(0, src@.len() as int) =~= src@);
}

/// The bytes of `data` from `from` up to `to`.
fn copy_range(data: &Vec<u8>, from: usize, to: usize) -> (r: Vec<u8>)
    requires
        from <= to <= data@.len(),
    ensures
        r@ == data@.subrange(from as int, to as int),
{
    let mut r: Vec<u8> = Vec::new();
    let mut i: usize = from;
    while i < to
        invariant
            from <= i <= to,
            to <= data@.len(),
            r@ == data@.subrange(from as int, i as int),
        decreases to - i,
    {
        r.push(data[i]);
        i = i + 1;
        assert(r@ =~= data@.subrange(from as int, i as int));
    }
    r
}

impl Key {
    /// `<keylen> <type> <keydata>`.
    pub fn serialize(&self) -> (r: Vec<u8>)
        requires
            self.key@.len() + 1 < 0x1_0000_0000_0000_0000,
        ensures
            r@ == key_bytes(self.type_value, self.key@),
    {
        let mut buf: Vec<u8> = Vec::new();
        write_varint(&mut buf, self.key.len() as u64 + 1);
        buf.push(self.type_value);
        append_bytes(&mut buf, &self.key);
        assert(buf@ =~= key_bytes(self.type_value, self.key@));
        buf
    }
}

impl Pair {
    /// The key, then `<valuelen> <valuedata>`.
    pub fn serialize(&self) -> (r: Vec<u8>)
        requires
            record_fits(self.record()),
        ensures
            r@ == pair_bytes(self.record()),
    {
        let mut buf = self.key.serialize();
        write_varint(&mut buf, self.value.len() as u64);
        append_bytes(&mut buf, &self.value);
        assert(buf@ =~= pair_bytes(self.record()));
        buf
    }
}

/// Encodes the records one after the other and closes the map with a zero
/// byte.
pub fn serialize_map(pairs: &Vec<Pair>) -> (r: Vec<u8>)
    requires
        all_fit(records(pairs@)),
    ensures
        r@ == map_bytes(records(pairs@)),
{
    let mut out: Vec<u8> = Vec::new();
    let mut i: usize = 0;
    while i < pairs.len()
        invariant
            i <= pairs@.len(),
            all_fit(records(pairs@)),
            out@ == body_bytes(records(pairs@.subrange(0, i as int))),
        decreases pairs@.len() - i,
    {
        let p = &pairs[i];
        assert(records(pairs@)[i as int] == p.record());
        let bytes = p.serialize();
        proof {
            lemma_body_push(records(pairs@.subrange(0, i as int)), p.record());
            assert(records(pairs@.subrange(0, i + 1)) =~= records(pairs@.subrange(0, i as int)).push(
                p.record(),
            ));
        }
        append_bytes(&mut out, &bytes);
        i = i + 1;
    }
    assert(pairs@.subrange(0, pairs@.len() as int) =~= pairs@);
    out.push(0);
    out
}

/// Reads one record at `pos`, and the number of bytes it takes.
pub fn read_pair(data: &Vec<u8>, pos: usize) -> (r: Option<(Pair, usize)>)
    requires
        pos <= data@.len(),
    ensures
        match parse_pair(data@.subrange(pos as int, data@.len() as int)) {
            Some((rec, u)) => r matches Some((p, n)) && p.record() == rec && n == u,
            None => r is None,
        },
{
    let ghost d = data@.subrange(pos as int, data@.len() as int);
    let len = data.len();
    let (kl, u1) = match read_varint(data, pos) {
        Some(x) => x,
        None => return None,
    };
    if kl == 0 || ((len - pos) as u64) < u1 as u64 || (((len - pos) - u1) as u64) < kl {
        return None;
    }
    let kl = kl as usize;
    let t = data[pos + u1];
    let key = copy_range(data, pos + u1 + 1, pos + u1 + kl);
    assert(key@ =~= d.subrange(u1 + 1, u1 + kl));
    assert(d.subrange(u1 + kl, d.len() as int) =~= data@.subrange(
        pos + u1 + kl,
        data@.len() as int,
    ));
    let (vl, u2) = match read_varint(data, pos + u1 + kl) {
        Some(x) => x,
        None => return None,
    };
    if (((len - pos) - u1 - kl - u2) as u64) < vl {
        return None;
    }
    let vl = vl as usize;
    let start = pos + u1 + kl + u2;
    let value = copy_range(data, start, start + vl);
    assert(value@ =~= d.subrange(u1 + kl + u2, u1 + kl + u2 + vl));
    Some((Pair { key: Key { type_value: t, key }, value }, u1 + kl + u2 + vl))
}

/// Reads a map at `pos`: its records, in order, and the number of bytes it
/// takes with its closing zero byte; `None` where the bytes do not hold one.
pub fn decode_map(data: &Vec<u8>, pos: usize) -> (r: Option<(Vec<Pair>, usize)>)
    requires
        pos <= data@.len(),
    ensures
        match parse_map(data@.subrange(pos as int, data@.len() as int)) {
            Some((rs, u)) => r matches Some((ps, n)) && records(ps@) == rs && n == u,
            None => r is None,
        },
{
    let len = data.len();
    let mut out: Vec<Pair> = Vec::new();
    let mut cur: usize = pos;
    assert(records(out@) + Seq::<Record>::empty() =~= Seq::<Record>::empty());
    while cur < len
        invariant
            pos <= cur <= len,
            len == data@.len(),
            parse_map(data@.subrange(pos as int, len as int)) == match parse_map(
                data@.subrange(cur as int, len as int),
            ) {
                Some((rs, u)) => Some((records(out@) + rs, ((cur - pos) + u) as nat)),
                None => None,
            },
        decreases len - cur,
    {
        let ghost d = data@.subrange(cur as int, len as int);
        match read_varint(data, cur) {
            None => {
                return None;
            },
            Some((n, u)) => {
                if n == 0 {
                    assert(records(out@) + Seq::<Record>::empty() =~= records(out@));
                    return Some((out, (cur - pos) + u));
                }
            },
        }
        match read_pair(data, cur) {
            None => {
                return None;
            },
            Some((p, u)) => {
                if u == 0 || u > len - cur {
                    return None;
                }
                assert(d.subrange(u as int, d.len() as int) =~= data@.subrange(
                    cur + u,
                    len as int,
                ));
                let ghost before = records(out@);
                out.push(p);
                proof {
                    assert(records(out@) =~= before.push(p.record()));
                    match parse_map(data@.subrange(cur + u, len as int)) {
                        Some((rs, u2)) => {
                            assert(before + (seq![p.record()] + rs) =~= records(out@) + rs);
                        },
                        None => {},
                    }
                }
                cur = cur + u;
            },
        }
    }
    assert(data@.subrange(cur as int, len as int).len() == 0);
    None
}

} // verus!
