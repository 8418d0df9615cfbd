//! Framing of a code section's payload into function bodies.
//!
//! The payload begins with a varint count; each body is a varint
//! byte-size followed by exactly that many opaque bytes.  Bytes left
//! over after the last counted body are ignored at this layer, since
//! the enclosing framer already cut the payload to its declared length.

use vstd::prelude::*;

use crate::error::DecodeError;
use crate::varint::{read_u32, spec_varint, tail_from};

verus! {

/// `n` more length-prefixed bodies read from the front of `t`, in
/// declaration order.
pub open spec fn spec_bodies_rec(t: Seq<u8>, n: nat) -> Result<Seq<Seq<u8>>, DecodeError>
    decreases n,
{
    if n == 0 {
        Ok(Seq::empty())
    } else {
        match spec_varint(t) {
            Err(e) => Err(e),
            Ok((size, c)) => {
                let after = t.skip(c);
                if after.len() < size {
                    Err(DecodeError::BodyTooShort(after.len() as usize, size))
                } else {
                    match spec_bodies_rec(after.skip(size as int), (n - 1) as nat) {
                        Err(e) => Err(e),
                        Ok(rest) => Ok(seq![after.take(size as int)] + rest),
                    }
                }
            },
        }
    }
}

/// The function bodies framed by a code-section payload: a varint
/// count, then that many length-prefixed body slices.
pub open spec fn spec_bodies(t: Seq<u8>) -> Result<Seq<Seq<u8>>, DecodeError> {
    match spec_varint(t) {
        Err(e) => Err(e),
        Ok((n, c)) => spec_bodies_rec(t.skip(c), n as nat),
    }
}

/// The byte sequences held by a vector of bodies.
pub open spec fn bodies_view(v: Seq<Vec<u8>>) -> Seq<Seq<u8>> {
    v.map_values(|b: Vec<u8>| b@)
}

/// A body-decode result, abstracted to the byte sequences it holds.
pub open spec fn bodies_result_view(r: Result<Vec<Vec<u8>>, DecodeError>) -> Result<
    Seq<Seq<u8>>,
    DecodeError,
> {
    match r {
        Ok(v) => Ok(bodies_view(v@)),
        Err(e) => Err(e),
    }
}

/// Decodes a code-section payload into its function bodies, each an
/// exact copy of the payload bytes it was framed from.
pub fn parse_code_section(input: &[u8]) -> (r: Result<Vec<Vec<u8>>, DecodeError>)
    ensures
        bodies_result_view(r) == spec_bodies(input@),
{
    let ghost t = input@;
    let (count, start) = match read_u32(input) {
        Ok(p) => p,
        Err(e) => return Err(e),
    };
    let mut cur: &[u8] = start;
    let mut out: Vec<Vec<u8>> = Vec::new();
    let mut i: u32 = 0;
    proof {
        assert(bodies_view(out@) =~= Seq::<Seq<u8>>::empty());
        if spec_bodies_rec(cur@, (count - i) as nat) is Ok {
            assert(bodies_view(out@) + spec_bodies_rec(cur@, (count - i) as nat)->Ok_0
                =~= spec_bodies_rec(cur@, (count - i) as nat)->Ok_0);
        }
    }
    while i < count
        invariant
            i <= count,
            t == input@,
            match spec_bodies_rec(cur@, (count - i) as nat) {
                Ok(rest) => spec_bodies(t) == Ok::<Seq<Seq<u8>>, DecodeError>(
                    bodies_view(out@) + rest,
                ),
                Err(e) => spec_bodies(t) == Err::<Seq<Seq<u8>>, DecodeError>(e),
            },
        decreases count - i,
    {
        let ghost cur0 = cur@;
        let ghost out0 = out@;
        let ghost n0 = (count - i) as nat;
        let (size, rest) = match read_u32(cur) {
            Ok(p) => p,
            Err(e) => return Err(e),
        };
        let ghost c = cur0.len() - rest@.len();
        if rest.len() < size as usize {
            return Err(DecodeError::BodyTooShort(rest.len(), size));
        }
        let body = vstd::slice::slice_to_vec(vstd::slice::slice_subrange(rest, 0, size as usize));
        out.push(body);
        cur = tail_from(rest, size as usize);
        i = i + 1;
        proof {
            assert(body@ =~= cur0.skip(c).take(size as int));
            assert(cur@ =~= cur0.skip(c).skip(size as int));
            assert(bodies_view(out@) =~= bodies_view(out0).push(body@));
            let tail = spec_bodies_rec(cur@, (count - i) as nat);
            if tail is Ok {
                assert(spec_bodies_rec(cur0, n0) == Ok::<Seq<Seq<u8>>, DecodeError>(
                    seq![body@] + tail->Ok_0,
                ));
                assert(bodies_view(out0) + (seq![body@] + tail->Ok_0) =~= bodies_view(out@)
                    + tail->Ok_0);
            }
        }
    }
    proof {
        assert(bodies_view(out@) + Seq::<Seq<u8>>::empty() =~= bodies_view(out@));
    }
    Ok(out)
}

} // verus!
