//! Helpers for byte buffers held in reversed order, as a live-input session
//! keeps them: the next wire byte is popped off the buffer's tail.

use vstd::arithmetic::power2::pow2;
use vstd::prelude::*;

verus! {

/// The accumulator after `n` shift-and-pop rounds against the tail of `s`;
/// rounds past the end of the buffer only shift.
pub open spec fn popn_accum(s: Seq<u8>, n: nat, acc: nat) -> nat
    decreases n,
{
    if n == 0 {
        acc
    } else if s.len() == 0 {
        popn_accum(s, (n - 1) as nat, acc * 0x100)
    } else {
        popn_accum(s.drop_last(), (n - 1) as nat, (acc * 0x100 + s.last()) as nat)
    }
}

/// Pop `n` bytes off the tail of `bytes` and accumulate them big-endian,
/// first byte popped most significant; a starved buffer contributes shifts
/// only.
pub fn pop_n(bytes: &mut Vec<u8>, n: usize) -> (r: u32)
    requires
        n <= 4,
    ensures
        r == popn_accum(old(bytes)@, n as nat, 0),
        final(bytes)@ == old(bytes)@.take(
            old(bytes)@.len() - (if n <= old(bytes)@.len() {
                n as int
            } else {
                old(bytes)@.len() as int
            }),
        ),
{
    let ghost s0 = bytes@;
    let mut tn: u32 = 0;
    let mut i: usize = 0;
    while i < n
        invariant
            i <= n,
            n <= 4,
            crate::varlen::pow256(i as nat) > tn as nat,
            popn_accum(s0, n as nat, 0) == popn_accum(bytes@, (n - i) as nat, tn as nat),
            bytes@ == s0.take(
                s0.len() - (if i <= s0.len() {
                    i as int
                } else {
                    s0.len() as int
                }),
            ),
        decreases n - i,
    {
        proof {
            crate::varlen::lemma_pow256_le_4((i + 1) as nat);
            assert(crate::varlen::pow256((i + 1) as nat) == 0x100 * crate::varlen::pow256(
                i as nat,
            ));
        }
        tn = tn * 0x100;
        let popped = bytes.pop();
        match popped {
            Some(x) => {
                tn = tn + (x as u32);
            },
            None => {
            },
        }
        i = i + 1;
        proof {
            assert(bytes@ =~= s0.take(
                s0.len() - (if i <= s0.len() {
                    i as int
                } else {
                    s0.len() as int
                }),
            ));
        }
    }
    tn
}

/// The all-ones mask of width `bits`, built one shifted-in bit per round;
/// thirty-two or more rounds saturate the accumulator.
pub open spec fn ones_mask(bits: nat) -> u32
    decreases bits,
{
    if bits == 0 {
        0
    } else {
        (ones_mask((bits - 1) as nat) << 1) | 1
    }
}

/// Below the accumulator width the mask is exactly 2^bits - 1.
pub proof fn lemma_ones_mask(bits: nat)
    requires
        bits <= 31,
    ensures
        ones_mask(bits) == (pow2(bits) - 1) as u32,
    decreases bits,
{
    vstd::arithmetic::power2::lemma2_to64();
    if bits > 0 {
        lemma_ones_mask((bits - 1) as nat);
        vstd::arithmetic::power2::lemma_pow2_unfold(bits);
        vstd::arithmetic::power2::lemma_pow2_strictly_increases((bits - 1) as nat, 31);
        let prev = ones_mask((bits - 1) as nat);
        assert((prev << 1) | 1 == 2 * prev + 1) by (bit_vector)
            requires
                prev <= 0x7ffffffe,
        ;
    }
}

/// The magnitude of the `bits`-wide two's-complement reading of a negative
/// field: bias `value` down by one and flip its low `bits` bits
/// (`(value - 1) XOR (2^bits - 1)`).
pub fn from_twos_complement(value: u32, bits: u8) -> (r: u32)
    requires
        value >= 1,
    ensures
        r == ((value - 1) as u32) ^ ones_mask(bits as nat),
        bits <= 31 ==> ones_mask(bits as nat) == (pow2(bits as nat) - 1) as u32,
{
    proof {
        if bits <= 31 {
            lemma_ones_mask(bits as nat);
        }
    }
    let mut complement: u32 = 0;
    let mut i: u8 = 0;
    while i < bits
        invariant
            i <= bits,
            complement == ones_mask(i as nat),
        decreases bits - i,
    {
        let shifted = complement << 1;
        complement = shifted | 1;
        i = i + 1;
    }
    (value - 1) ^ complement
}

/// The value a tail-order variable-length read yields: bytes are popped and
/// shifted in until one with a clear high bit arrives; a starved buffer ends
/// the read after one last shift. The accumulator is 64 bits and wraps.
pub open spec fn stream_varlen_value(s: Seq<u8>, acc: nat) -> nat
    decreases s.len(),
{
    if s.len() == 0 {
        (acc * 0x80) % 0x10000000000000000
    } else {
        let a2 = ((acc * 0x80 + (s.last() & 0x7f)) % 0x10000000000000000) as nat;
        if s.last() < 0x80 {
            a2
        } else {
            stream_varlen_value(s.drop_last(), a2)
        }
    }
}

/// How many bytes a tail-order variable-length read consumes.
pub open spec fn stream_varlen_used(s: Seq<u8>) -> int
    decreases s.len(),
{
    if s.len() == 0 {
        0
    } else if s.last() < 0x80 {
        1
    } else {
        1 + stream_varlen_used(s.drop_last())
    }
}

/// Read one variable-length quantity off the tail of `bytes`, for a buffer
/// that holds its wire bytes in reversed order.
pub fn get_variable_length_number(bytes: &mut Vec<u8>) -> (r: u64)
    ensures
        r as nat == stream_varlen_value(old(bytes)@, 0),
        final(bytes)@ == old(bytes)@.take(old(bytes)@.len() - stream_varlen_used(old(bytes)@)),
{
    let ghost s0 = bytes@;
    let mut n: u64 = 0;
    loop
        invariant_except_break
            bytes@.len() <= s0.len(),
            stream_varlen_value(s0, 0) == stream_varlen_value(bytes@, n as nat),
            stream_varlen_used(s0) - (s0.len() - bytes@.len()) == stream_varlen_used(bytes@),
            bytes@ == s0.take(bytes@.len() as int),
        ensures
            n as nat == stream_varlen_value(s0, 0),
            bytes@ == s0.take(s0.len() - stream_varlen_used(s0)),
        decreases bytes@.len(),
    {
        let shifted = n.wrapping_mul(0x80);
        proof {
            let m: int = 0x10000000000000000;
            vstd::arithmetic::div_mod::lemma_truncate_middle(n as int, 0x80, 0x200000000000000);
            assert(shifted as int == 0x80 * ((n as int) % 0x200000000000000));
            assert(shifted as int <= m - 0x80);
        }
        let ghost before = bytes@;
        let ghost acc0 = n;
        let popped = bytes.pop();
        match popped {
            Some(x) => {
                let low = x & 0x7f;
                proof {
                    let m: int = 0x10000000000000000;
                    crate::varlen::lemma_low_seven(x);
                    vstd::arithmetic::div_mod::lemma_small_mod(low as nat, m as nat);
                    vstd::arithmetic::div_mod::lemma_add_mod_noop(
                        (acc0 as int) * 0x80,
                        low as int,
                        m,
                    );
                    vstd::arithmetic::div_mod::lemma_small_mod(
                        (shifted + low) as nat,
                        m as nat,
                    );
                    assert(((acc0 as int) * 0x80 + low) % m == shifted + low);
                    assert(before.last() == x);
                    assert(bytes@ == before.drop_last());
                }
                n = shifted + (low as u64);
                if x & 0x80 == 0 {
                    proof {
                        assert(stream_varlen_used(before) == 1);
                        assert(before.drop_last() =~= s0.take(before.len() - 1));
                        assert(bytes@ =~= s0.take(s0.len() - stream_varlen_used(s0)));
                    }
                    break ;
                }
                proof {
                    assert(stream_varlen_value(before, acc0 as nat) == stream_varlen_value(
                        bytes@,
                        n as nat,
                    ));
                    assert(before.drop_last() =~= s0.take(before.len() - 1));
                    assert(bytes@ =~= s0.take(bytes@.len() as int));
                }
            },
            None => {
                n = shifted;
                proof {
                    assert(before.len() == 0);
                    assert(stream_varlen_used(s0) == s0.len() - bytes@.len());
                    assert(bytes@ =~= s0.take(s0.len() - stream_varlen_used(s0)));
                }
                break ;
            },
        }
    }
    n
}

} // verus!
