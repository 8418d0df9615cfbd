//! LEB128-style unsigned varint decoding and encoding.
//!
//! A value is stored little-endian in base 128, one byte per group of
//! seven bits; the top bit of a byte signals that another group
//! follows.  Decoding a `u32` reads at most five groups: a sixth group
//! overflows, as does a terminated fifth group carrying more than four
//! bits; a buffer that ends before a terminating byte is truncated.

use vstd::prelude::*;

use crate::error::DecodeError;

verus! {

/// 128 raised to `g`: the place value of the `g`-th varint group.
pub open spec fn pow128(g: nat) -> nat
    decreases g,
{
    if g == 0 {
        1
    } else {
        128 * pow128((g - 1) as nat)
    }
}

/// Decoding state after `g` groups have contributed `acc`: reads the
/// remaining groups of the varint that starts at index 0 of `t`, and
/// returns the decoded value and the total number of bytes consumed.
pub open spec fn spec_varint_rec(t: Seq<u8>, g: nat, acc: nat) -> Result<(u32, int), DecodeError>
    decreases 5 - g,
{
    if g >= 5 {
        Err(DecodeError::Overflow)
    } else if t.len() <= g {
        Err(DecodeError::Truncated)
    } else {
        let b = t[g as int];
        let low = (b % 0x80) as nat;
        let cont = b >= 0x80;
        if g == 4 && cont {
            if t.len() > 5 {
                Err(DecodeError::Overflow)
            } else {
                Err(DecodeError::Truncated)
            }
        } else if g == 4 && low >= 0x10 {
            Err(DecodeError::Overflow)
        } else {
            let acc2 = acc + low * pow128(g);
            if cont {
                spec_varint_rec(t, g + 1, acc2)
            } else {
                Ok((acc2 as u32, g as int + 1))
            }
        }
    }
}

/// The varint at the front of `t`: its `u32` value and the number of
/// bytes it occupies, or the error that decoding it reports.
pub open spec fn spec_varint(t: Seq<u8>) -> Result<(u32, int), DecodeError> {
    spec_varint_rec(t, 0, 0)
}

/// A successfully decoded varint occupies between one and five bytes,
/// all of them present in the buffer.
pub proof fn lemma_varint_consumed(t: Seq<u8>, g: nat, acc: nat)
    ensures
        spec_varint_rec(t, g, acc) matches Ok(p) ==> g < p.1 <= t.len() && p.1 <= 5,
    decreases 5 - g,
{
    if g < 5 && t.len() > g {
        let b = t[g as int];
        let low = (b % 0x80) as nat;
        let cont = b >= 0x80;
        if cont && g < 4 {
            lemma_varint_consumed(t, g + 1, acc + low * pow128(g));
        }
    }
}

/// Reads one LEB128 unsigned 32-bit integer from the front of `input`,
/// returning the value and the rest of the buffer.
pub fn read_u32<'a>(input: &'a [u8]) -> (r: Result<(u32, &'a [u8]), DecodeError>)
    ensures
        match r {
            Ok(p) => {
                &&& spec_varint(input@) == Ok::<(u32, int), DecodeError>(
                    (p.0, input@.len() - p.1@.len()),
                )
                &&& p.1@ == input@.skip(input@.len() - p.1@.len())
                &&& p.1@.len() < input@.len()
            },
            Err(e) => spec_varint(input@) == Err::<(u32, int), DecodeError>(e),
        },
{
    let ghost t = input@;
    let mut g: usize = 0;
    let mut acc: u32 = 0;
    let mut mult: u32 = 1;
    loop
        invariant
            g <= 4,
            t == input@,
            mult == pow128(g as nat),
            (acc as nat) < pow128(g as nat),
            spec_varint(t) == spec_varint_rec(t, g as nat, acc as nat),
        decreases 5 - g,
    {
        proof {
            reveal_with_fuel(pow128, 6);
        }
        if g >= input.len() {
            return Err(DecodeError::Truncated);
        }
        let b = input[g];
        let low: u32 = (b % 0x80) as u32;
        let cont: bool = b >= 0x80;
        if g == 4 {
            if cont {
                if input.len() > 5 {
                    return Err(DecodeError::Overflow);
                }
                return Err(DecodeError::Truncated);
            }
            if low >= 0x10 {
                return Err(DecodeError::Overflow);
            }
        }
        proof {
            if g == 0 {
                assert(mult == 1);
            } else if g == 1 {
                assert(mult == 128);
            } else if g == 2 {
                assert(mult == 16384);
            } else if g == 3 {
                assert(mult == 2097152);
            } else {
                assert(mult == 268435456);
            }
            if g == 4 {
                assert(low < 0x10);
                assert((low as nat) * (mult as nat) <= 15 * 268435456)
                    by (nonlinear_arith)
                    requires
                        low <= 15,
                        mult == 268435456,
                ;
                assert(acc + low * mult <= u32::MAX);
            } else {
                assert(low <= 127);
                assert((low as nat) * (mult as nat) <= 127 * (mult as nat))
                    by (nonlinear_arith)
                    requires
                        low <= 127,
                        mult >= 0,
                ;
                assert(acc + low * mult < 128 * mult);
            }
        }
        acc = acc + low * mult;
        if !cont {
            let rest = crate::varint::tail_from(input, g + 1);
            proof {
                assert(rest@ =~= t.skip(t.len() - rest@.len()));
            }
            return Ok((acc, rest));
        }
        g = g + 1;
        mult = mult * 128;
    }
}

/// The suffix of `input` that starts at `start`.
pub fn tail_from<'a>(input: &'a [u8], start: usize) -> (r: &'a [u8])
    requires
        start <= input@.len(),
    ensures
        r@ == input@.skip(start as int),
{
    let r = vstd::slice::slice_subrange(input, start, input.len());
    proof {
        assert(r@ =~= input@.skip(start as int));
    }
    r
}

/// The LEB128 encoding of `v`: base-128 digits, least significant
/// first, every byte but the last carrying the continuation bit.
pub open spec fn spec_encode_varint(v: nat) -> Seq<u8>
    decreases v,
{
    if v < 0x80 {
        seq![v as u8]
    } else {
        seq![(0x80 + v % 0x80) as u8] + spec_encode_varint(v / 0x80)
    }
}

/// Encodes `v` as a LEB128 unsigned varint.
pub fn encode_varint(v: u32) -> (r: Vec<u8>)
    ensures
        r@ == spec_encode_varint(v as nat),
{
    let mut out: Vec<u8> = Vec::new();
    let mut x: u32 = v;
    proof {
        assert(Seq::<u8>::empty() + spec_encode_varint(v as nat) =~= spec_encode_varint(
            v as nat,
        ));
    }
    loop
        invariant
            spec_encode_varint(v as nat) == out@ + spec_encode_varint(x as nat),
        decreases x,
    {
        if x < 0x80 {
            out.push(x as u8);
            proof {
                assert(out@ =~= spec_encode_varint(v as nat));
            }
            return out;
        }
        out.push((0x80 + (x % 0x80)) as u8);
        proof {
            assert(out@ + spec_encode_varint((x as nat) / 0x80) =~= spec_encode_varint(
                v as nat,
            ));
        }
        x = x / 0x80;
    }
}

/// Every varint place value is positive.
proof fn lemma_pow128_pos(g: nat)
    ensures
        pow128(g) >= 1,
    decreases g,
{
    if g > 0 {
        lemma_pow128_pos((g - 1) as nat);
    }
}

/// An encoding is never empty, and a value below `pow128(k)` needs at
/// most `k` bytes.
proof fn lemma_encode_len_bound(w: nat, k: nat)
    requires
        k >= 1,
        w < pow128(k),
    ensures
        1 <= spec_encode_varint(w).len() <= k,
    decreases k,
{
    if w >= 0x80 {
        assert(pow128(k) == 128 * pow128((k - 1) as nat));
        assert(w / 0x80 < pow128((k - 1) as nat)) by (nonlinear_arith)
            requires
                w < 128 * pow128((k - 1) as nat),
        ;
        lemma_encode_len_bound(w / 0x80, (k - 1) as nat);
    }
}

/// Decoding picks up exactly where an encoding of `w` was laid down at
/// index `g` of `t`, with `acc` already contributed by earlier groups.
proof fn lemma_round_trip_rec(t: Seq<u8>, g: nat, acc: nat, w: nat)
    requires
        g + spec_encode_varint(w).len() <= 5,
        acc < pow128(g),
        acc + w * pow128(g) < 0x1_0000_0000,
        t.len() >= g + spec_encode_varint(w).len(),
        t.subrange(g as int, (g + spec_encode_varint(w).len()) as int) == spec_encode_varint(w),
    ensures
        spec_varint_rec(t, g, acc) == Ok::<(u32, int), DecodeError>(
            ((acc + w * pow128(g)) as u32, (g + spec_encode_varint(w).len()) as int),
        ),
    decreases w,
{
    let enc = spec_encode_varint(w);
    let b = t[g as int];
    assert(b == t.subrange(g as int, (g + enc.len()) as int)[0]);
    if w < 0x80 {
        assert(b == w as u8);
        if g == 4 {
            assert(pow128(4) == 268435456) by {
                reveal_with_fuel(pow128, 6);
            }
            assert(w < 0x10);
        }
    } else {
        let q = w / 0x80;
        let r0 = w % 0x80;
        let encq = spec_encode_varint(q);
        assert(enc == seq![(0x80 + r0) as u8] + encq);
        assert(enc.len() == 1 + encq.len());
        assert(1 <= encq.len()) by {
            assert(pow128(4) == 268435456) by {
                reveal_with_fuel(pow128, 6);
            }
            lemma_pow128_pos(g);
            assert(w < 0x1_0000_0000) by (nonlinear_arith)
                requires
                    acc + w * pow128(g) < 0x1_0000_0000,
                    pow128(g) >= 1,
            ;
            assert(q < pow128(4));
            lemma_encode_len_bound(q, 4);
        }
        assert(g <= 3);
        assert(b == (0x80 + r0) as u8);
        assert(b >= 0x80);
        let low = (b % 0x80) as nat;
        assert(low == r0);
        let p = pow128(g);
        let acc2 = acc + low * p;
        assert(pow128(g + 1) == 128 * p);
        assert(acc2 < pow128(g + 1)) by (nonlinear_arith)
            requires
                acc < p,
                low <= 127,
                acc2 == acc + low * p,
                pow128(g + 1) == 128 * p,
        ;
        assert(w == 128 * q + r0);
        assert(acc2 + q * pow128(g + 1) == acc + w * p) by (nonlinear_arith)
            requires
                acc2 == acc + r0 * p,
                pow128(g + 1) == 128 * p,
                w == 128 * q + r0,
        ;
        assert(t.subrange(g + 1 as int, (g + 1 + encq.len()) as int) =~= encq) by {
            let sub = t.subrange(g as int, (g + enc.len()) as int);
            assert(forall|i: int|
                0 <= i < encq.len() ==> #[trigger] encq[i] == sub[i + 1]);
        }
        lemma_round_trip_rec(t, g + 1, acc2, q);
    }
}

/// Round trip: a varint encoding of any `u32`, followed by anything,
/// decodes to the same value, consuming exactly the encoding.
pub proof fn lemma_varint_round_trip(v: u32, rest: Seq<u8>)
    ensures
        spec_varint(spec_encode_varint(v as nat) + rest) == Ok::<(u32, int), DecodeError>(
            (v, spec_encode_varint(v as nat).len() as int),
        ),
{
    let enc = spec_encode_varint(v as nat);
    let t = enc + rest;
    assert(pow128(5) == 34359738368 && pow128(0) == 1) by {
        reveal_with_fuel(pow128, 6);
    }
    lemma_encode_len_bound(v as nat, 5);
    assert(t.subrange(0, enc.len() as int) =~= enc);
    lemma_round_trip_rec(t, 0, 0, v as nat);
}

proof fn lemma_all_cont_rec(t: Seq<u8>, g: nat, acc: nat)
    requires
        g <= 4,
        forall|i: int| 0 <= i < t.len() ==> t[i] >= 0x80,
    ensures
        t.len() <= 5 ==> spec_varint_rec(t, g, acc) == Err::<(u32, int), DecodeError>(
            DecodeError::Truncated,
        ),
        t.len() >= 6 ==> spec_varint_rec(t, g, acc) == Err::<(u32, int), DecodeError>(
            DecodeError::Overflow,
        ),
    decreases 5 - g,
{
    if t.len() > g && g < 4 {
        let b = t[g as int];
        lemma_all_cont_rec(t, g + 1, acc + ((b % 0x80) as nat) * pow128(g));
    }
}

/// A buffer made only of continuation bytes never terminates a varint:
/// while at most five bytes exist the cursor is exhausted first and
/// decoding reports `Truncated`; a sixth byte carries the run past
/// five groups and decoding reports `Overflow`.
pub proof fn lemma_varint_all_continuation(t: Seq<u8>)
    requires
        forall|i: int| 0 <= i < t.len() ==> t[i] >= 0x80,
    ensures
        t.len() <= 5 ==> spec_varint(t) == Err::<(u32, int), DecodeError>(DecodeError::Truncated),
        t.len() >= 6 ==> spec_varint(t) == Err::<(u32, int), DecodeError>(DecodeError::Overflow),
{
    lemma_all_cont_rec(t, 0, 0);
}

} // verus!
