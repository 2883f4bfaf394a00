//! Byte-level encodings: fixed-width unsigned integers in either byte order,
//! and the 7-bits-per-byte variable-length integer (varint).
use vstd::prelude::*;

verus! {

/// 256 to the power `n`: one more than the largest value of `n` bytes.
pub open spec fn pow256(n: nat) -> nat
    decreases n,
{
    if n == 0 {
        1
    } else {
        256 * pow256((n - 1) as nat)
    }
}

/// 128 to the power `n`: the weight of the `n`-th seven-bit group of a varint.
pub open spec fn pow128(n: nat) -> nat
    decreases n,
{
    if n == 0 {
        1
    } else {
        128 * pow128((n - 1) as nat)
    }
}

/// The `n` low-order bytes of `v`, least significant first.
pub open spec fn le_bytes(v: nat, n: nat) -> Seq<u8>
    decreases n,
{
    if n == 0 {
        seq![]
    } else {
        seq![(v % 256) as u8] + le_bytes(v / 256, (n - 1) as nat)
    }
}

/// The number whose little-endian bytes are `s`.
pub open spec fn le_value(s: Seq<u8>) -> nat
    decreases s.len(),
{
    if s.len() == 0 {
        0
    } else {
        s[0] as nat + 256 * le_value(s.drop_first())
    }
}

pub open spec fn reversed(s: Seq<u8>) -> Seq<u8> {
    Seq::new(s.len(), |i: int| s[s.len() - 1 - i])
}

/// `v` as `n` bytes, least significant first when `little` holds, most
/// significant first otherwise.
pub open spec fn encode_fixed(v: nat, n: nat, little: bool) -> Seq<u8> {
    if little {
        le_bytes(v, n)
    } else {
        reversed(le_bytes(v, n))
    }
}

/// The number that the bytes `s` hold in the given byte order.
pub open spec fn decode_fixed(s: Seq<u8>, little: bool) -> nat {
    if little {
        le_value(s)
    } else {
        le_value(reversed(s))
    }
}

pub proof fn lemma_pow256_mono(a: nat, b: nat)
    requires
        a <= b,
    ensures
        1 <= pow256(a) <= pow256(b),
    decreases b,
{
    if b > a {
        lemma_pow256_mono(a, (b - 1) as nat);
    } else if b > 0 {
        lemma_pow256_mono(0, (b - 1) as nat);
    }
}

pub proof fn lemma_pow128_mono(a: nat, b: nat)
    requires
        a <= b,
    ensures
        1 <= pow128(a) <= pow128(b),
    decreases b,
{
    if b > a {
        lemma_pow128_mono(a, (b - 1) as nat);
    } else if b > 0 {
        lemma_pow128_mono(0, (b - 1) as nat);
    }
}

pub proof fn lemma_pow256_8()
    ensures
        pow256(8) == 0x1_0000_0000_0000_0000,
{
    reveal_with_fuel(pow256, 9);
}

pub proof fn lemma_pow256_values()
    ensures
        pow256(1) == 0x100,
        pow256(2) == 0x1_0000,
        pow256(4) == 0x1_0000_0000,
        pow256(8) == 0x1_0000_0000_0000_0000,
{
    reveal_with_fuel(pow256, 9);
}

pub proof fn lemma_pow128_values()
    ensures
        pow128(8) == 0x100_0000_0000_0000,
        pow128(9) == 0x8000_0000_0000_0000,
        pow128(10) == 0x40_0000_0000_0000_0000,
{
    reveal_with_fuel(pow128, 11);
}

pub proof fn lemma_le_bytes_len(v: nat, n: nat)
    ensures
        le_bytes(v, n).len() == n,
    decreases n,
{
    if n > 0 {
        lemma_le_bytes_len(v / 256, (n - 1) as nat);
    }
}

pub proof fn lemma_le_value_bound(s: Seq<u8>)
    ensures
        le_value(s) < pow256(s.len()),
    decreases s.len(),
{
    if s.len() > 0 {
        let t = s.drop_first();
        lemma_le_value_bound(t);
        let x = le_value(t);
        let p = pow256(t.len());
        assert(s[0] as nat + 256 * x < 256 * p) by (nonlinear_arith)
            requires
                x < p,
                s[0] < 256,
        ;
    }
}

pub proof fn lemma_le_round_trip(v: nat, n: nat)
    requires
        v < pow256(n),
    ensures
        le_value(le_bytes(v, n)) == v,
    decreases n,
{
    if n > 0 {
        let p = pow256((n - 1) as nat);
        assert(v / 256 < p) by (nonlinear_arith)
            requires
                v < 256 * p,
        ;
        lemma_le_round_trip(v / 256, (n - 1) as nat);
        assert(le_bytes(v, n).drop_first() =~= le_bytes(v / 256, (n - 1) as nat));
    } else {
        assert(v == 0);
    }
}

pub proof fn lemma_reversed_twice(s: Seq<u8>)
    ensures
        reversed(reversed(s)) == s,
{
    assert(reversed(reversed(s)) =~= s);
}

/// Encoding `v` in `n` bytes and decoding the result gives `v` back.
pub proof fn lemma_fixed_round_trip(v: nat, n: nat, little: bool)
    requires
        v < pow256(n),
    ensures
        encode_fixed(v, n, little).len() == n,
        decode_fixed(encode_fixed(v, n, little), little) == v,
{
    lemma_le_bytes_len(v, n);
    lemma_le_round_trip(v, n);
    lemma_reversed_twice(le_bytes(v, n));
}

/// The `n` bytes of `v` in the given byte order.
pub fn encode_fixed_exec(v: u64, n: usize, little: bool) -> (out: Vec<u8>)
    requires
        n <= 8,
        v < pow256(n as nat),
    ensures
        out@ == encode_fixed(v as nat, n as nat, little),
{
    let mut out: Vec<u8> = Vec::new();
    let mut x: u64 = v;
    let mut i: usize = 0;
    assert(out@ + le_bytes(x as nat, n as nat) =~= le_bytes(v as nat, n as nat));
    while i < n
        invariant
            i <= n,
            out@.len() == i,
            out@ + le_bytes(x as nat, (n - i) as nat) == le_bytes(v as nat, n as nat),
        decreases n - i,
    {
        let b = (x % 256) as u8;
        let ghost rest = le_bytes((x / 256) as nat, (n - i - 1) as nat);
        assert(le_bytes(x as nat, (n - i) as nat) == seq![b] + rest);
        assert(out@.push(b) + rest =~= out@ + (seq![b] + rest));
        out.push(b);
        x = x / 256;
        i = i + 1;
    }
    assert(out@ =~= le_bytes(v as nat, n as nat));
    if little {
        out
    } else {
        let mut r: Vec<u8> = Vec::new();
        let mut j: usize = n;
        while j > 0
            invariant
                j <= n,
                out@.len() == n,
                r@.len() == n - j,
                forall|k: int| 0 <= k < r@.len() ==> r@[k] == out@[n - 1 - k],
            decreases j,
        {
            j = j - 1;
            r.push(out[j]);
        }
        assert(r@ =~= reversed(out@));
        r
    }
}

/// The number that the bytes of `s` hold in the given byte order.
pub fn decode_fixed_exec(s: &[u8], little: bool) -> (r: u64)
    requires
        s@.len() <= 8,
    ensures
        r == decode_fixed(s@, little),
{
    let len = s.len();
    let ghost t = if little {
        s@
    } else {
        reversed(s@)
    };
    let mut acc: u64 = 0;
    let mut k: usize = 0;
    assert(t.subrange(len as int, len as int).len() == 0);
    while k < len
        invariant
            len == s@.len() <= 8,
            t.len() == len,
            t == (if little {
                s@
            } else {
                reversed(s@)
            }),
            k <= len,
            acc == le_value(t.subrange(len - k, len as int)),
        decreases len - k,
    {
        let idx = if little {
            len - 1 - k
        } else {
            k
        };
        let b = s[idx];
        let ghost tail = t.subrange(len - k, len as int);
        let ghost next = t.subrange(len - k - 1, len as int);
        assert(next.drop_first() =~= tail);
        assert(next[0] == b);
        proof {
            lemma_le_value_bound(next);
            lemma_pow256_mono(next.len(), 8);
            lemma_pow256_8();
        }
        acc = acc * 256 + b as u64;
        k = k + 1;
    }
    assert(t.subrange(0, len as int) =~= t);
    proof {
        if !little {
            lemma_reversed_twice(s@);
        }
    }
    acc
}

/// The varint encoding of `v`: seven bits per byte, least significant group
/// first, the high bit set on every byte but the last.
pub open spec fn varint_bytes(v: nat) -> Seq<u8>
    decreases v,
{
    if v < 128 {
        seq![v as u8]
    } else {
        seq![(v % 128 + 128) as u8] + varint_bytes(v / 128)
    }
}

/// The sum of the seven-bit groups of `p`, the first group least significant.
pub open spec fn varint_value(p: Seq<u8>) -> nat
    decreases p.len(),
{
    if p.len() == 0 {
        0
    } else {
        (p[0] % 128) as nat + 128 * varint_value(p.drop_first())
    }
}

/// The number of bytes of the varint at the start of `s` (up to and
/// including the first byte whose high bit is clear), if one ends in `s`.
pub open spec fn varint_size(s: Seq<u8>) -> Option<nat>
    decreases s.len(),
{
    if s.len() == 0 {
        None
    } else if s[0] < 128 {
        Some(1)
    } else {
        match varint_size(s.drop_first()) {
            Some(n) => Some(n + 1),
            None => None,
        }
    }
}

/// The longest varint that the decoder accepts: enough for any 64-bit value.
pub const VARINT_MAX_LEN: usize = 10;

/// `s` starts with a varint of at most ten bytes whose value fits in 64 bits.
pub open spec fn varint_decodes(s: Seq<u8>) -> bool {
    match varint_size(s) {
        Some(n) => n <= VARINT_MAX_LEN && varint_value(s.take(n as int)) < pow256(8),
        None => false,
    }
}

/// The value of the varint at the start of `s` (meaningful where it decodes).
pub open spec fn varint_decoded(s: Seq<u8>) -> nat {
    match varint_size(s) {
        Some(n) => varint_value(s.take(n as int)),
        None => 0,
    }
}

/// The length of the varint at the start of `s` (meaningful where it decodes).
pub open spec fn varint_decoded_len(s: Seq<u8>) -> nat {
    match varint_size(s) {
        Some(n) => n,
        None => 0,
    }
}

pub proof fn lemma_varint_size_bounds(s: Seq<u8>)
    ensures
        varint_size(s) matches Some(n) ==> 1 <= n <= s.len() && s[n - 1] < 128,
    decreases s.len(),
{
    if s.len() > 0 && s[0] >= 128 {
        lemma_varint_size_bounds(s.drop_first());
    }
}

/// Where the first `k` bytes all carry the high bit, any varint at the start
/// of `s` is longer than `k`.
pub proof fn lemma_varint_size_past(s: Seq<u8>, k: nat)
    requires
        k <= s.len(),
        forall|j: int| 0 <= j < k ==> s[j] >= 128,
    ensures
        varint_size(s) matches Some(n) ==> n > k,
    decreases k,
{
    if k > 0 {
        lemma_varint_size_past(s.drop_first(), (k - 1) as nat);
    }
}

/// The varint at the start of `s` ends at the first byte with the high bit clear.
pub proof fn lemma_varint_size_stop(s: Seq<u8>, n: nat)
    requires
        1 <= n <= s.len(),
        s[n - 1] < 128,
        forall|j: int| 0 <= j < n - 1 ==> s[j] >= 128,
    ensures
        varint_size(s) == Some(n),
    decreases n,
{
    if n > 1 {
        lemma_varint_size_stop(s.drop_first(), (n - 1) as nat);
    }
}

pub proof fn lemma_varint_value_push(p: Seq<u8>, b: u8)
    ensures
        varint_value(p.push(b)) == varint_value(p) + (b % 128) as nat * pow128(p.len()),
    decreases p.len(),
{
    if p.len() > 0 {
        let t = p.drop_first();
        assert(p.push(b).drop_first() =~= t.push(b));
        lemma_varint_value_push(t, b);
        assert(p.push(b)[0] == p[0]);
        assert(pow128(p.len()) == 128 * pow128(t.len()));
        let g = (b % 128) as nat;
        let q = pow128(t.len());
        assert(128 * (varint_value(t) + g * q) == 128 * varint_value(t) + g * (128 * q))
            by (nonlinear_arith);
        assert(varint_value(p) == (p[0] % 128) as nat + 128 * varint_value(t));
        assert(varint_value(p.push(b)) == (p[0] % 128) as nat + 128 * varint_value(t.push(b)));
    } else {
        assert(p.push(b).drop_first().len() == 0);
        assert(varint_value(p.push(b).drop_first()) == 0);
        assert(pow128(0) == 1);
        assert(p.push(b)[0] == b);
        assert(varint_value(p) == 0);
    }
}

/// The bytes of `varint_bytes(v)`: all but the last carry the high bit, and
/// their groups sum to `v`.
pub proof fn lemma_varint_bytes_shape(v: nat)
    ensures
        varint_bytes(v).len() >= 1,
        varint_bytes(v)[varint_bytes(v).len() - 1] < 128,
        forall|j: int| 0 <= j < varint_bytes(v).len() - 1 ==> varint_bytes(v)[j] >= 128,
        varint_value(varint_bytes(v)) == v,
    decreases v,
{
    let e = varint_bytes(v);
    if v < 128 {
        assert(e.drop_first().len() == 0);
        assert(varint_value(e.drop_first()) == 0);
        assert(e[0] == v);
        assert(varint_value(e) == (e[0] % 128) as nat + 128 * varint_value(e.drop_first()));
    } else {
        let t = varint_bytes(v / 128);
        lemma_varint_bytes_shape(v / 128);
        assert(e.drop_first() =~= t);
        assert(e[0] % 128 == v % 128);
        assert(v == 128 * (v / 128) + v % 128);
        assert(varint_value(e) == (e[0] % 128) as nat + 128 * varint_value(e.drop_first()));
        assert forall|j: int| 0 <= j < e.len() - 1 implies e[j] >= 128 by {
            if j > 0 {
                assert(e[j] == t[j - 1]);
            }
        }
    }
}

/// A value below 128 to the power `k` takes at most `k` bytes.
pub proof fn lemma_varint_bytes_len(v: nat, k: nat)
    requires
        k >= 1,
        v < pow128(k),
    ensures
        varint_bytes(v).len() <= k,
    decreases v,
{
    if v >= 128 {
        let p = pow128((k - 1) as nat);
        if k == 1 {
            reveal_with_fuel(pow128, 2);
        } else {
            assert(v / 128 < p) by (nonlinear_arith)
                requires
                    v < 128 * p,
            ;
            lemma_varint_bytes_len(v / 128, (k - 1) as nat);
        }
    }
}

/// What the decoder finds at the start of `varint_bytes(v) + rest`: `v`,
/// in exactly the bytes of its encoding.
pub proof fn lemma_varint_round_trip(v: u64, rest: Seq<u8>)
    ensures
        varint_bytes(v as nat).len() <= VARINT_MAX_LEN,
        varint_decodes(varint_bytes(v as nat) + rest),
        varint_decoded(varint_bytes(v as nat) + rest) == v,
        varint_decoded_len(varint_bytes(v as nat) + rest) == varint_bytes(v as nat).len(),
{
    let e = varint_bytes(v as nat);
    let s = e + rest;
    lemma_varint_bytes_shape(v as nat);
    lemma_pow128_values();
    lemma_varint_bytes_len(v as nat, 10);
    lemma_varint_size_stop(s, e.len());
    assert(s.take(e.len() as int) =~= e);
    lemma_pow256_8();
}

/// The number of bytes that the varint encoding of `data` occupies.
pub fn varint_len(data: u64) -> (r: usize)
    ensures
        r == varint_bytes(data as nat).len(),
        1 <= r <= VARINT_MAX_LEN,
{
    proof {
        lemma_varint_round_trip(data, seq![]);
        lemma_varint_bytes_shape(data as nat);
    }
    let mut x: u64 = data;
    let mut n: usize = 0;
    while x > 127
        invariant
            n + varint_bytes(x as nat).len() == varint_bytes(data as nat).len(),
            varint_bytes(data as nat).len() <= VARINT_MAX_LEN,
            varint_bytes(x as nat).len() >= 1,
        decreases x,
    {
        proof {
            lemma_varint_bytes_shape((x / 128) as nat);
        }
        x = x / 128;
        n = n + 1;
    }
    n + 1
}

/// The varint encoding of `data`.
pub fn varint_encode(data: u64) -> (out: Vec<u8>)
    ensures
        out@ == varint_bytes(data as nat),
{
    let mut out: Vec<u8> = Vec::new();
    let mut x: u64 = data;
    assert(out@ + varint_bytes(x as nat) =~= varint_bytes(data as nat));
    while x > 127
        invariant
            out@ + varint_bytes(x as nat) == varint_bytes(data as nat),
        decreases x,
    {
        let b = (x % 128 + 128) as u8;
        let ghost rest = varint_bytes((x / 128) as nat);
        assert(out@.push(b) + rest =~= out@ + (seq![b] + rest));
        out.push(b);
        x = x / 128;
    }
    let last = x as u8;
    assert(out@.push(last) =~= out@ + seq![last]);
    out.push(last);
    out
}

/// The varint at the start of `s` and the number of its bytes, or `None`
/// where no varint of at most ten bytes with a 64-bit value ends in `s`.
pub fn varint_decode(s: &[u8]) -> (r: Option<(u64, usize)>)
    ensures
        r is Some <==> varint_decodes(s@),
        r matches Some((v, n)) ==> v == varint_decoded(s@) && n == varint_decoded_len(s@),
{
    let mut i: usize = 0;
    let mut acc: u64 = 0;
    let mut mult: u64 = 1;
    proof {
        lemma_pow128_values();
        lemma_pow256_8();
        lemma_varint_size_bounds(s@);
        assert(s@.take(0) =~= Seq::<u8>::empty());
    }
    loop
        invariant
            i <= 9,
            i <= s@.len(),
            acc == varint_value(s@.take(i as int)),
            mult == pow128(i as nat),
            acc < mult,
            forall|j: int| 0 <= j < i ==> s@[j] >= 128,
            pow128(9) == 0x8000_0000_0000_0000,
            pow256(8) == 0x1_0000_0000_0000_0000,
            varint_size(s@) matches Some(n) ==> 1 <= n <= s@.len() && s@[n - 1] < 128,
        decreases 9 - i,
    {
        if i >= s.len() {
            proof {
                lemma_varint_size_past(s@, i as nat);
            }
            return None;
        }
        let b = s[i];
        let g = (b % 128) as u64;
        proof {
            assert(s@.take(i + 1) =~= s@.take(i as int).push(b));
            lemma_varint_value_push(s@.take(i as int), b);
            lemma_pow128_mono(i as nat, 9);
        }
        if b >= 128 {
            if i == 9 {
                proof {
                    lemma_varint_size_past(s@, 10);
                }
                return None;
            }
        } else {
            proof {
                lemma_varint_size_stop(s@, (i + 1) as nat);
            }
            if i == 9 && g > 1 {
                assert(g * mult >= 2 * mult) by (nonlinear_arith)
                    requires
                        g > 1,
                ;
                return None;
            }
        }
        assert(acc + g * mult < 128 * mult) by (nonlinear_arith)
            requires
                acc < mult,
                g < 128,
        ;
        if i < 9 {
            proof {
                lemma_pow128_mono((i + 1) as nat, 9);
            }
            assert(pow128((i + 1) as nat) == 128 * mult);
        } else {
            assert(g * mult <= mult) by (nonlinear_arith)
                requires
                    g <= 1,
            ;
        }
        acc = acc + g * mult;
        if b < 128 {
            return Some((acc, i + 1));
        }
        mult = mult * 128;
        i = i + 1;
    }
}

} // verus!
