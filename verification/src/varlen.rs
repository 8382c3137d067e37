//! MIDI's variable-length quantity: an unsigned integer stored big-endian in
//! groups of seven bits, one group per byte, with the high bit of every byte
//! except the last set as a continuation flag.

use vstd::arithmetic::div_mod::{
    lemma_add_mod_noop, lemma_fundamental_div_mod, lemma_fundamental_div_mod_converse,
    lemma_mul_mod_noop_left, lemma_small_mod,
};
use vstd::prelude::*;

verus! {

/// Continuation bytes of the encoding of `n`: every byte carries the flag.
pub open spec fn varlen_tail(n: nat) -> Seq<u8>
    decreases n,
{
    if n < 0x80 {
        seq![(n + 0x80) as u8]
    } else {
        varlen_tail(n / 0x80) + seq![((n % 0x80) + 0x80) as u8]
    }
}

/// The minimal variable-length encoding of `n`; zero encodes as one zero byte.
pub open spec fn varlen_bytes(n: nat) -> Seq<u8> {
    if n < 0x80 {
        seq![n as u8]
    } else {
        varlen_tail(n / 0x80) + seq![(n % 0x80) as u8]
    }
}

/// The value read from the byte groups `s`, seven bits per byte, high bit
/// ignored, most significant group first.
pub open spec fn varlen_value(s: Seq<u8>) -> nat
    decreases s.len(),
{
    if s.len() == 0 {
        0
    } else {
        (varlen_value(s.drop_last()) * 0x80 + (s.last() & 0x7f)) as nat
    }
}

/// How many bytes a variable-length quantity starting at the head of `s`
/// spans: everything up to and including the first byte whose high bit is
/// clear, or -1 if every byte of `s` has its high bit set.
pub open spec fn varlen_span(s: Seq<u8>) -> int
    decreases s.len(),
{
    if s.len() == 0 {
        -1
    } else if s[0] < 0x80 {
        1
    } else if varlen_span(s.drop_first()) < 0 {
        -1
    } else {
        1 + varlen_span(s.drop_first())
    }
}

fn push_varlen_tail(n: u64, out: &mut Vec<u8>)
    ensures
        final(out)@ == old(out)@ + varlen_tail(n as nat),
    decreases n,
{
    if n < 0x80 {
        out.push((n + 0x80) as u8);
        assert(final(out)@ =~= old(out)@ + varlen_tail(n as nat));
    } else {
        push_varlen_tail(n / 0x80, out);
        out.push(((n % 0x80) + 0x80) as u8);
        assert(final(out)@ =~= old(out)@ + varlen_tail(n as nat));
    }
}

/// Encode `number` as a variable-length quantity.
pub fn to_variable_length_bytes(number: usize) -> (r: Vec<u8>)
    ensures
        r@ == varlen_bytes(number as nat),
{
    let n: u64 = number as u64;
    let mut out: Vec<u8> = Vec::new();
    if n < 0x80 {
        out.push(n as u8);
        assert(out@ =~= varlen_bytes(number as nat));
    } else {
        push_varlen_tail(n / 0x80, &mut out);
        out.push((n % 0x80) as u8);
        assert(out@ =~= varlen_bytes(number as nat));
    }
    out
}

/// The low seven bits of a byte are the byte minus its high bit.
pub proof fn lemma_low_seven(b: u8)
    ensures
        (b & 0x7f) == b % 0x80,
        (b & 0x80 == 0) <==> b < 0x80,
{
    assert(b & 0x7f == b % 0x80) by (bit_vector);
    assert((b & 0x80 == 0) <==> b < 0x80) by (bit_vector);
}

proof fn lemma_varlen_tail_form(n: nat)
    ensures
        varlen_tail(n).len() >= 1,
        forall|i: int| 0 <= i < varlen_tail(n).len() ==> #[trigger] varlen_tail(n)[i] >= 0x80,
        varlen_value(varlen_tail(n)) == n,
    decreases n,
{
    if n < 0x80 {
        let b = (n + 0x80) as u8;
        assert(b == n + 0x80);
        lemma_low_seven(b);
        lemma_fundamental_div_mod_converse(b as int, 0x80, 1, n as int);
        assert((b & 0x7f) == n);
        assert(varlen_tail(n).last() == b);
        assert(varlen_tail(n).drop_last() =~= Seq::<u8>::empty());
        assert(varlen_value(Seq::<u8>::empty()) == 0);
        assert(varlen_value(varlen_tail(n)) == n);
    } else {
        lemma_varlen_tail_form(n / 0x80);
        let b = ((n % 0x80) + 0x80) as u8;
        assert(b == (n % 0x80) + 0x80);
        lemma_low_seven(b);
        lemma_fundamental_div_mod_converse(b as int, 0x80, 1, (n % 0x80) as int);
        assert((b & 0x7f) == n % 0x80);
        assert(varlen_tail(n).last() == b);
        assert(varlen_tail(n).drop_last() =~= varlen_tail(n / 0x80));
        assert(varlen_value(varlen_tail(n)) == (n / 0x80) * 0x80 + n % 0x80);
        lemma_fundamental_div_mod(n as int, 0x80);
        assert(varlen_value(varlen_tail(n)) == n);
    }
}

/// The minimal encoding ends in its only byte with a clear high bit and
/// decodes back to the encoded value.
pub proof fn lemma_varlen_bytes_form(n: nat)
    ensures
        varlen_bytes(n).len() >= 1,
        forall|i: int| 0 <= i < varlen_bytes(n).len() - 1 ==> #[trigger] varlen_bytes(n)[i]
            >= 0x80,
        varlen_bytes(n).last() < 0x80,
        varlen_value(varlen_bytes(n)) == n,
{
    if n < 0x80 {
        let b = n as u8;
        lemma_low_seven(b);
        lemma_small_mod(n, 0x80);
        assert(varlen_bytes(n).last() == b);
        assert(varlen_bytes(n).drop_last() =~= Seq::<u8>::empty());
        assert(varlen_value(Seq::<u8>::empty()) == 0);
    } else {
        lemma_varlen_tail_form(n / 0x80);
        let b = (n % 0x80) as u8;
        lemma_low_seven(b);
        lemma_small_mod((n % 0x80) as nat, 0x80);
        assert(varlen_bytes(n).drop_last() =~= varlen_tail(n / 0x80));
        lemma_fundamental_div_mod(n as int, 0x80);
    }
}

/// If the first clear-high-bit byte of `s` stands at index `k - 1`, a
/// variable-length quantity at the head of `s` spans exactly `k` bytes.
pub proof fn lemma_varlen_span_at(s: Seq<u8>, k: int)
    requires
        1 <= k <= s.len(),
        forall|i: int| 0 <= i < k - 1 ==> #[trigger] s[i] >= 0x80,
        s[k - 1] < 0x80,
    ensures
        varlen_span(s) == k,
    decreases s.len(),
{
    if k == 1 {
    } else {
        assert(s[0] >= 0x80);
        let t = s.drop_first();
        assert forall|i: int| 0 <= i < k - 2 implies #[trigger] t[i] >= 0x80 by {
            assert(t[i] == s[i + 1]);
        }
        assert(t[k - 2] == s[k - 1]);
        lemma_varlen_span_at(t, k - 1);
    }
}

/// A run of bytes that all carry the continuation flag holds no complete
/// variable-length quantity.
pub proof fn lemma_varlen_span_none(s: Seq<u8>)
    requires
        forall|i: int| 0 <= i < s.len() ==> #[trigger] s[i] >= 0x80,
    ensures
        varlen_span(s) < 0,
    decreases s.len(),
{
    if s.len() > 0 {
        let t = s.drop_first();
        assert forall|i: int| 0 <= i < t.len() implies #[trigger] t[i] >= 0x80 by {
            assert(t[i] == s[i + 1]);
        }
        lemma_varlen_span_none(t);
    }
}

/// Law: decoding the variable-length encoding of any 64-bit value yields that
/// value back, and the encoding terminates exactly at its own last byte.
pub proof fn lemma_varlen_round_trip(n: u64)
    ensures
        varlen_value(varlen_bytes(n as nat)) == n,
        varlen_span(varlen_bytes(n as nat)) == varlen_bytes(n as nat).len(),
{
    lemma_varlen_bytes_form(n as nat);
    lemma_varlen_span_at(varlen_bytes(n as nat), varlen_bytes(n as nat).len() as int);
}

/// Read one variable-length quantity from the front of `bytes`, removing the
/// bytes read. Reading stops with the first byte whose high bit is clear; if
/// every byte carries the continuation flag the whole buffer is consumed.
/// The accumulator is 64 bits wide and wraps.
pub fn get_variable_length_number(bytes: &mut Vec<u8>) -> (r: u64)
    ensures
        ({
            let used = if varlen_span(old(bytes)@) < 0 {
                old(bytes)@.len() as int
            } else {
                varlen_span(old(bytes)@)
            };
            &&& final(bytes)@ == old(bytes)@.skip(used)
            &&& r as nat == varlen_value(old(bytes)@.take(used)) % 0x10000000000000000
        }),
{
    let ghost s = bytes@;
    let mut i: usize = 0;
    let mut acc: u64 = 0;
    let mut terminated = false;
    proof {
        assert(s.take(0) =~= Seq::<u8>::empty());
    }
    while i < bytes.len() && !terminated
        invariant
            bytes@ == s,
            0 <= i <= s.len(),
            acc as nat == varlen_value(s.take(i as int)) % 0x10000000000000000,
            terminated ==> i >= 1 && s[i - 1] < 0x80,
            forall|j: int| 0 <= j < i - 1 ==> #[trigger] s[j] >= 0x80,
            !terminated ==> forall|j: int| 0 <= j < i ==> #[trigger] s[j] >= 0x80,
        decreases s.len() - i,
    {
        let b = bytes[i];
        let step = acc.wrapping_mul(0x80).wrapping_add((b & 0x7f) as u64);
        proof {
            let m: int = 0x10000000000000000;
            let v: int = varlen_value(s.take(i as int)) as int;
            let low: int = (b & 0x7f) as int;
            assert(s.take(i + 1).drop_last() =~= s.take(i as int));
            assert(s.take(i + 1).last() == s[i as int]);
            assert(varlen_value(s.take(i + 1)) == v * 0x80 + low);
            let t: int = acc.wrapping_mul(0x80) as int;
            lemma_mul_mod_noop_left(v, 0x80, m);
            assert(t == (v * 0x80) % m) by {
                assert(acc as int == v % m);
            }
            lemma_small_mod(low as nat, m as nat);
            lemma_add_mod_noop(v * 0x80, low, m);
            if t + low > u64::MAX {
                lemma_fundamental_div_mod_converse(t + low, m, 1, t + low - m);
            } else {
                lemma_small_mod((t + low) as nat, m as nat);
            }
            assert(step as int == (t + low) % m);
            assert(step as nat == varlen_value(s.take(i + 1)) % 0x10000000000000000);
        }
        acc = step;
        i = i + 1;
        if b < 0x80 {
            terminated = true;
        }
    }
    proof {
        if terminated {
            lemma_varlen_span_at(s, i as int);
        } else {
            lemma_varlen_span_none(s);
        }
    }
    let rest = bytes.split_off(i);
    *bytes = rest;
    proof {
        assert(bytes@ =~= s.skip(i as int));
    }
    acc
}

/// Read one variable-length quantity starting at `start` without consuming
/// anything: the value (64 bits, wrapping) and the bytes it spans, or `None`
/// if the buffer ends before a terminating byte.
pub fn read_varlen_at(bytes: &Vec<u8>, start: usize) -> (r: Option<(u64, usize)>)
    requires
        start <= bytes@.len(),
    ensures
        ({
            let tail = bytes@.skip(start as int);
            match r {
                Some(p) => {
                    &&& varlen_span(tail) == p.1
                    &&& 1 <= p.1 <= tail.len()
                    &&& p.0 as nat == varlen_value(tail.take(p.1 as int)) % 0x10000000000000000
                },
                None => varlen_span(tail) < 0,
            }
        }),
{
    let ghost tail = bytes@.skip(start as int);
    let total = bytes.len();
    let mut i: usize = start;
    let mut acc: u64 = 0;
    proof {
        assert(tail.take(0) =~= Seq::<u8>::empty());
    }
    while i < total
        invariant
            start <= i <= total,
            total == bytes@.len(),
            tail == bytes@.skip(start as int),
            acc as nat == varlen_value(tail.take(i - start)) % 0x10000000000000000,
            forall|j: int| 0 <= j < i - start ==> #[trigger] tail[j] >= 0x80,
        decreases total - i,
    {
        let b = bytes[i];
        let step = acc.wrapping_mul(0x80).wrapping_add((b & 0x7f) as u64);
        proof {
            let m: int = 0x10000000000000000;
            let j: int = i - start;
            assert(tail[j] == bytes@[i as int]);
            let v: int = varlen_value(tail.take(j)) as int;
            let low: int = (b & 0x7f) as int;
            assert(tail.take(j + 1).drop_last() =~= tail.take(j));
            assert(tail.take(j + 1).last() == tail[j]);
            assert(varlen_value(tail.take(j + 1)) == v * 0x80 + low);
            let t: int = acc.wrapping_mul(0x80) as int;
            lemma_mul_mod_noop_left(v, 0x80, m);
            assert(t == (v * 0x80) % m) by {
                assert(acc as int == v % m);
            }
            lemma_small_mod(low as nat, m as nat);
            lemma_add_mod_noop(v * 0x80, low, m);
            if t + low > u64::MAX {
                lemma_fundamental_div_mod_converse(t + low, m, 1, t + low - m);
            } else {
                lemma_small_mod((t + low) as nat, m as nat);
            }
            assert(step as int == (t + low) % m);
        }
        acc = step;
        i = i + 1;
        if b < 0x80 {
            proof {
                lemma_varlen_span_at(tail, i - start);
            }
            return Some((acc, i - start));
        }
    }
    proof {
        lemma_varlen_span_none(tail);
    }
    None
}

/// The value of a byte string is bounded by 256 to its length.
pub proof fn lemma_be_value_bound(s: Seq<u8>)
    ensures
        be_value(s) < pow256(s.len()),
    decreases s.len(),
{
    if s.len() > 0 {
        lemma_be_value_bound(s.drop_last());
    }
}

/// The big-endian value of the byte string `s`.
pub open spec fn be_value(s: Seq<u8>) -> nat
    decreases s.len(),
{
    if s.len() == 0 {
        0
    } else {
        (be_value(s.drop_last()) * 0x100 + s.last()) as nat
    }
}

/// 256 raised to `n`.
pub open spec fn pow256(n: nat) -> nat
    decreases n,
{
    if n == 0 {
        1
    } else {
        0x100 * pow256((n - 1) as nat)
    }
}

proof fn lemma_pow256_le_8(n: nat)
    requires
        n <= 8,
    ensures
        pow256(n) <= 0x10000000000000000,
{
    assert(pow256(0) == 1);
    assert(pow256(1) == 0x100);
    assert(pow256(2) == 0x10000);
    assert(pow256(3) == 0x1000000);
    assert(pow256(4) == 0x100000000);
    assert(pow256(5) == 0x10000000000);
    assert(pow256(6) == 0x1000000000000);
    assert(pow256(7) == 0x100000000000000);
    assert(pow256(8) == 0x10000000000000000);
}

/// For widths up to four, 256 to the width stays within 32-bit range.
pub proof fn lemma_pow256_le_4(n: nat)
    requires
        n <= 4,
    ensures
        pow256(n) <= 0x100000000,
{
    assert(pow256(0) == 1);
    assert(pow256(1) == 0x100);
    assert(pow256(2) == 0x10000);
    assert(pow256(3) == 0x1000000);
    assert(pow256(4) == 0x100000000);
}

/// Read an `n`-byte big-endian unsigned integer from `bytes` at `start`.
pub fn read_fixed_width(bytes: &Vec<u8>, start: usize, n: usize) -> (r: u64)
    requires
        n <= 8,
        start + n <= bytes@.len(),
    ensures
        r as nat == be_value(bytes@.subrange(start as int, start + n)),
{
    let total = bytes.len();
    let mut i: usize = 0;
    let mut acc: u64 = 0;
    proof {
        assert(bytes@.subrange(start as int, start as int) =~= Seq::<u8>::empty());
    }
    while i < n
        invariant
            i <= n,
            n <= 8,
            total == bytes@.len(),
            start + n <= total,
            acc as nat == be_value(bytes@.subrange(start as int, start + i)),
            pow256(i as nat) > acc as nat,
        decreases n - i,
    {
        proof {
            lemma_pow256_le_8((i + 1) as nat);
            assert(pow256((i + 1) as nat) == 0x100 * pow256(i as nat));
        }
        let b = bytes[start + i];
        proof {
            assert(bytes@.subrange(start as int, start + i + 1).drop_last() =~= bytes@.subrange(
                start as int,
                start + i,
            ));
            assert(bytes@.subrange(start as int, start + i + 1).last() == bytes@[start + i]);
        }
        acc = acc * 0x100 + (b as u64);
        i = i + 1;
    }
    acc
}

} // verus!
