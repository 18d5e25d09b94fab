//! Variable-length integer encoding.
//!
//! Unsigned 32-bit fields of a message are carried as little-endian
//! base-128 varints: each byte holds seven payload bits, and the high
//! bit marks a continuation. A 32-bit value takes at most five bytes.

use vstd::prelude::*;

verus! {

/// Longest varint a 32-bit value may occupy, in bytes.
pub const MAX_VARINT_LEN: usize = 5;

/// `128^k`, the number of values that fit in `k` varint payload groups.
pub open spec fn pow128(k: nat) -> nat
    decreases k,
{
    if k == 0 {
        1
    } else {
        128 * pow128((k - 1) as nat)
    }
}

proof fn lemma_pow128_pos(k: nat)
    ensures
        pow128(k) >= 1,
    decreases k,
{
    if k > 0 {
        lemma_pow128_pos((k - 1) as nat);
    }
}

proof fn lemma_pow128_mono(a: nat, b: nat)
    requires
        a <= b,
    ensures
        1 <= pow128(a) <= pow128(b),
    decreases b,
{
    lemma_pow128_pos(a);
    if a < b {
        lemma_pow128_mono(a, (b - 1) as nat);
    }
}

/// The varint encoding of `n`: seven bits per byte, least significant
/// group first, high bit set on every byte but the last.
pub open spec fn varint_encode(n: nat) -> Seq<u8>
    decreases n,
{
    if n < 128 {
        seq![n as u8]
    } else {
        seq![(n % 128 + 128) as u8] + varint_encode(n / 128)
    }
}

/// Reads one varint from the front of `s`, following at most `fuel`
/// bytes; yields the decoded value and what remains of `s`.
pub open spec fn varint_decode_fuel(s: Seq<u8>, fuel: nat) -> Option<(nat, Seq<u8>)>
    decreases fuel,
{
    if fuel == 0 || s.len() == 0 {
        None
    } else if s[0] < 128 {
        Some((s[0] as nat, s.skip(1)))
    } else {
        match varint_decode_fuel(s.skip(1), (fuel - 1) as nat) {
            Some((v, rest)) => Some(((s[0] - 128) as nat + 128 * v, rest)),
            None => None,
        }
    }
}

/// Reads one 32-bit varint from the front of `s`: at most five bytes,
/// and the decoded value must fit in 32 bits.
pub open spec fn varint_u32_decode(s: Seq<u8>) -> Option<(u32, Seq<u8>)> {
    match varint_decode_fuel(s, MAX_VARINT_LEN as nat) {
        Some((v, rest)) => if v <= u32::MAX as nat {
            Some((v as u32, rest))
        } else {
            None
        },
        None => None,
    }
}

/// The encoding of `n` is at most `k` bytes long whenever `n < 128^k`.
proof fn lemma_varint_encode_len(n: nat, k: nat)
    requires
        1 <= k,
        n < pow128(k),
    ensures
        1 <= varint_encode(n).len() <= k,
    decreases n,
{
    if n < 128 {
        if k == 0 {
        } else {
            lemma_pow128_mono(1, k);
        }
    } else {
        assert(pow128(1) == 128) by {
            reveal_with_fuel(pow128, 2);
        }
        lemma_pow128_mono(1, k);
        assert(k >= 2) by {
            if k < 2 {
                lemma_pow128_mono(k, 1);
            }
        }
        assert(n / 128 < pow128((k - 1) as nat)) by (nonlinear_arith)
            requires
                n < pow128(k),
                pow128(k) == 128 * pow128((k - 1) as nat),
                n >= 128,
        ;
        lemma_varint_encode_len(n / 128, (k - 1) as nat);
    }
}

/// A 32-bit value encodes into at most five bytes.
pub proof fn lemma_varint_u32_encode_len(n: nat)
    requires
        n <= u32::MAX as nat,
    ensures
        1 <= varint_encode(n).len() <= MAX_VARINT_LEN,
{
    assert(pow128(5) == 0x8_0000_0000) by {
        reveal_with_fuel(pow128, 6);
    }
    lemma_varint_encode_len(n, 5);
}

/// Any value read with `fuel` bytes of budget is below `128^fuel`.
proof fn lemma_varint_decode_bound(s: Seq<u8>, fuel: nat)
    ensures
        match varint_decode_fuel(s, fuel) {
            Some(p) => p.0 < pow128(fuel),
            None => true,
        },
    decreases fuel,
{
    if fuel == 0 || s.len() == 0 {
    } else if s[0] < 128 {
        lemma_pow128_mono(1, fuel);
    } else {
        lemma_varint_decode_bound(s.skip(1), (fuel - 1) as nat);
        match varint_decode_fuel(s.skip(1), (fuel - 1) as nat) {
            Some(p) => {
                assert((s[0] - 128) as nat + 128 * p.0 < pow128(fuel)) by (nonlinear_arith)
                    requires
                        p.0 < pow128((fuel - 1) as nat),
                        pow128(fuel) == 128 * pow128((fuel - 1) as nat),
                        128 <= s[0] < 256,
                ;
            },
            None => {},
        }
    }
}

/// Decoding undoes encoding: reading a varint from `varint_encode(n)`
/// followed by anything yields `n` and leaves exactly that remainder,
/// provided the fuel covers the encoding's length.
proof fn lemma_varint_round_trip_fuel(n: nat, rest: Seq<u8>, fuel: nat)
    requires
        varint_encode(n).len() <= fuel,
    ensures
        varint_decode_fuel(varint_encode(n) + rest, fuel) == Some((n, rest)),
    decreases n,
{
    let s = varint_encode(n) + rest;
    if n < 128 {
        assert(s.skip(1) =~= rest);
    } else {
        assert(s.skip(1) =~= varint_encode(n / 128) + rest);
        lemma_varint_round_trip_fuel(n / 128, rest, (fuel - 1) as nat);
        assert((s[0] - 128) as nat + 128 * (n / 128) == n);
    }
}

/// Round trip for 32-bit varints: whatever follows the encoding is
/// handed back untouched.
pub proof fn lemma_varint_u32_round_trip(n: u32, rest: Seq<u8>)
    ensures
        varint_u32_decode(varint_encode(n as nat) + rest) == Some((n, rest)),
{
    lemma_varint_u32_encode_len(n as nat);
    lemma_varint_round_trip_fuel(n as nat, rest, MAX_VARINT_LEN as nat);
}

/// Appends the varint encoding of `n` to `out`.
pub fn encode_varint_u32(n: u32, out: &mut Vec<u8>)
    ensures
        final(out)@ == old(out)@ + varint_encode(n as nat),
    decreases n,
{
    if n < 128 {
        out.push(n as u8);
        assert(out@ =~= old(out)@ + varint_encode(n as nat));
    } else {
        out.push((n % 128 + 128) as u8);
        encode_varint_u32(n / 128, out);
        assert(out@ =~= old(out)@ + varint_encode(n as nat));
    }
}

/// Reads one varint from `bytes` starting at `start`, spending at most
/// `fuel` bytes; mirrors `varint_decode_fuel` on the tail of `bytes`.
fn parse_varint_fuel(bytes: &Vec<u8>, start: usize, fuel: u8) -> (r: Option<(u64, usize)>)
    requires
        start <= bytes@.len(),
        fuel <= MAX_VARINT_LEN,
    ensures
        match varint_decode_fuel(bytes@.skip(start as int), fuel as nat) {
            Some(p) => {
                &&& r is Some
                &&& r->Some_0.0 == p.0
                &&& start <= r->Some_0.1 <= bytes@.len()
                &&& p.1 == bytes@.skip(r->Some_0.1 as int)
            },
            None => r is None,
        },
    decreases fuel,
{
    if fuel == 0 || start == bytes.len() {
        None
    } else {
        let b = bytes[start];
        if b < 128 {
            proof {
                assert(bytes@.skip(start as int).skip(1) =~= bytes@.skip(start as int + 1));
            }
            Some((b as u64, start + 1))
        } else {
            proof {
                assert(bytes@.skip(start as int).skip(1) =~= bytes@.skip(start as int + 1));
            }
            match parse_varint_fuel(bytes, start + 1, fuel - 1) {
                Some((v, next)) => {
                    proof {
                        lemma_varint_decode_bound(bytes@.skip(start as int + 1), (fuel - 1) as nat);
                        lemma_pow128_mono((fuel - 1) as nat, 4);
                        assert(pow128(4) == 0x1000_0000) by {
                            reveal_with_fuel(pow128, 5);
                        }
                    }
                    Some(((b - 128) as u64 + 128 * v, next))
                },
                None => None,
            }
        }
    }
}

/// Reads one 32-bit varint from `bytes` starting at `start`; mirrors
/// `varint_u32_decode` on the tail of `bytes`.
pub fn parse_varint_u32(bytes: &Vec<u8>, start: usize) -> (r: Option<(u32, usize)>)
    requires
        start <= bytes@.len(),
    ensures
        match varint_u32_decode(bytes@.skip(start as int)) {
            Some(p) => {
                &&& r is Some
                &&& r->Some_0.0 == p.0
                &&& start <= r->Some_0.1 <= bytes@.len()
                &&& p.1 == bytes@.skip(r->Some_0.1 as int)
            },
            None => r is None,
        },
{
    match parse_varint_fuel(bytes, start, 5) {
        Some((v, next)) => {
            if v <= u32::MAX as u64 {
                Some((v as u32, next))
            } else {
                None
            }
        },
        None => None,
    }
}

} // verus!
