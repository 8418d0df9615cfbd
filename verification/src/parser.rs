//! The module framer: preamble check, then a stream of sections.

use vstd::prelude::*;

use crate::error::DecodeError;
use crate::section::{sections_view, spec_classify, Section, SectionModel};
use crate::varint::{
    lemma_varint_consumed, lemma_varint_round_trip, read_u32, spec_encode_varint, spec_varint,
    tail_from,
};

verus! {

/// The fixed preamble every module starts with: four magic bytes, then
/// four version bytes.
pub open spec fn spec_preamble_bytes() -> Seq<u8> {
    seq![0x00, 0x61, 0x73, 0x6d, 0x01, 0x00, 0x00, 0x00]
}

/// One expected byte at the front of `s`: the rest of the buffer on a
/// match, `Truncated` on an empty buffer, and `BadPreamble` otherwise.
pub open spec fn spec_expect(expected: u8, s: Seq<u8>) -> Result<Seq<u8>, DecodeError> {
    if s.len() == 0 {
        Err(DecodeError::Truncated)
    } else if s[0] == expected {
        Ok(s.skip(1))
    } else {
        Err(DecodeError::BadPreamble(expected, s[0]))
    }
}

/// The eight preamble bytes checked in order; the first mismatch or
/// missing byte decides the error.
pub open spec fn spec_preamble(s: Seq<u8>) -> Result<Seq<u8>, DecodeError> {
    match spec_expect(0x00, s) {
        Err(e) => Err(e),
        Ok(s1) => match spec_expect(0x61, s1) {
            Err(e) => Err(e),
            Ok(s2) => match spec_expect(0x73, s2) {
                Err(e) => Err(e),
                Ok(s3) => match spec_expect(0x6d, s3) {
                    Err(e) => Err(e),
                    Ok(s4) => match spec_expect(0x01, s4) {
                        Err(e) => Err(e),
                        Ok(s5) => match spec_expect(0x00, s5) {
                            Err(e) => Err(e),
                            Ok(s6) => match spec_expect(0x00, s6) {
                                Err(e) => Err(e),
                                Ok(s7) => match spec_expect(0x00, s7) {
                                    Err(e) => Err(e),
                                    Ok(s8) => Ok(s8),
                                },
                            },
                        },
                    },
                },
            },
        },
    }
}

/// The sections framed by `t`: an empty buffer ends the stream; each
/// section is an id byte, a varint length, and exactly that many
/// payload bytes, classified in on-wire order.
pub open spec fn spec_sections(t: Seq<u8>) -> Result<Seq<SectionModel>, DecodeError>
    decreases t.len() via spec_sections_decreases
{
    if t.len() == 0 {
        Ok(Seq::empty())
    } else {
        let id = t[0];
        match spec_varint(t.skip(1)) {
            Err(e) => Err(e),
            Ok((len, c)) => {
                let after = t.skip(1 + c);
                if after.len() < len {
                    Err(DecodeError::SectionTooShort(after.len() as usize, len))
                } else {
                    match spec_sections(after.skip(len as int)) {
                        Err(e) => Err(e),
                        Ok(rest) => Ok(seq![spec_classify(id, after.take(len as int))] + rest),
                    }
                }
            },
        }
    }
}

#[via_fn]
proof fn spec_sections_decreases(t: Seq<u8>) {
    if t.len() != 0 {
        lemma_varint_consumed(t.skip(1), 0, 0);
    }
}

/// The whole decode: preamble first, then the section stream.
pub open spec fn spec_parse(s: Seq<u8>) -> Result<Seq<SectionModel>, DecodeError> {
    match spec_preamble(s) {
        Err(e) => Err(e),
        Ok(t) => spec_sections(t),
    }
}

/// A decode result, abstracted to the section models it holds.
pub open spec fn parse_view(r: Result<Vec<Section>, DecodeError>) -> Result<
    Seq<SectionModel>,
    DecodeError,
> {
    match r {
        Ok(v) => Ok(sections_view(v@)),
        Err(e) => Err(e),
    }
}

/// Consumes one expected byte from the front of `input`.
pub fn expect<'a>(expected: u8, input: &'a [u8]) -> (r: Result<&'a [u8], DecodeError>)
    ensures
        match r {
            Ok(rest) => spec_expect(expected, input@) == Ok::<Seq<u8>, DecodeError>(rest@),
            Err(e) => spec_expect(expected, input@) == Err::<Seq<u8>, DecodeError>(e),
        },
{
    if input.len() == 0 {
        return Err(DecodeError::Truncated);
    }
    let first = input[0];
    if first == expected {
        Ok(tail_from(input, 1))
    } else {
        Err(DecodeError::BadPreamble(expected, first))
    }
}

/// Decodes a complete module image: checks the preamble, then frames
/// and classifies every section until the buffer is exhausted.
pub fn parse(input: &[u8]) -> (r: Result<Vec<Section>, DecodeError>)
    ensures
        parse_view(r) == spec_parse(input@),
{
    let cur = match expect(0x00, input) {
        Ok(t) => t,
        Err(e) => return Err(e),
    };
    let cur = match expect(0x61, cur) {
        Ok(t) => t,
        Err(e) => return Err(e),
    };
    let cur = match expect(0x73, cur) {
        Ok(t) => t,
        Err(e) => return Err(e),
    };
    let cur = match expect(0x6d, cur) {
        Ok(t) => t,
        Err(e) => return Err(e),
    };
    let cur = match expect(0x01, cur) {
        Ok(t) => t,
        Err(e) => return Err(e),
    };
    let cur = match expect(0x00, cur) {
        Ok(t) => t,
        Err(e) => return Err(e),
    };
    let cur = match expect(0x00, cur) {
        Ok(t) => t,
        Err(e) => return Err(e),
    };
    let mut cur = match expect(0x00, cur) {
        Ok(t) => t,
        Err(e) => return Err(e),
    };
    let ghost t0 = cur@;
    let mut result: Vec<Section> = Vec::new();
    proof {
        if spec_sections(cur@) is Ok {
            assert(sections_view(result@) + spec_sections(cur@)->Ok_0 =~= spec_sections(
                cur@,
            )->Ok_0);
        }
    }
    loop
        invariant
            spec_preamble(input@) == Ok::<Seq<u8>, DecodeError>(t0),
            match spec_sections(cur@) {
                Ok(rest) => spec_sections(t0) == Ok::<Seq<SectionModel>, DecodeError>(
                    sections_view(result@) + rest,
                ),
                Err(e) => spec_sections(t0) == Err::<Seq<SectionModel>, DecodeError>(e),
            },
        decreases cur@.len(),
    {
        if cur.len() == 0 {
            proof {
                assert(sections_view(result@) + Seq::<SectionModel>::empty() =~= sections_view(
                    result@,
                ));
            }
            return Ok(result);
        }
        let ghost cur0 = cur@;
        let ghost res0 = result@;
        let id = cur[0];
        let tail = tail_from(cur, 1);
        let (len, rest) = match read_u32(tail) {
            Ok(p) => p,
            Err(e) => return Err(e),
        };
        let ghost c = tail@.len() - rest@.len();
        proof {
            assert(rest@ =~= cur0.skip(1 + c));
        }
        if rest.len() < len as usize {
            return Err(DecodeError::SectionTooShort(rest.len(), len));
        }
        let payload = vstd::slice::slice_to_vec(
            vstd::slice::slice_subrange(rest, 0, len as usize),
        );
        let ghost pay = payload@;
        let sec = Section::classify(id, payload);
        result.push(sec);
        cur = tail_from(rest, len as usize);
        proof {
            assert(pay =~= cur0.skip(1 + c).take(len as int));
            assert(cur@ =~= cur0.skip(1 + c).skip(len as int));
            assert(sections_view(result@) =~= sections_view(res0).push(sec@));
            let tailspec = spec_sections(cur@);
            if tailspec is Ok {
                assert(spec_sections(cur0) == Ok::<Seq<SectionModel>, DecodeError>(
                    seq![spec_classify(id, pay)] + tailspec->Ok_0,
                ));
                assert(sections_view(res0) + (seq![spec_classify(id, pay)] + tailspec->Ok_0)
                    =~= sections_view(result@) + tailspec->Ok_0);
            }
        }
    }
}

/// Whether `s` starts with the full eight-byte preamble.
pub open spec fn starts_with_preamble(s: Seq<u8>) -> bool {
    s.len() >= 8 && s.subrange(0, 8) == spec_preamble_bytes()
}

/// Whether `e` is an error the preamble check can report.
pub open spec fn is_preamble_failure(e: DecodeError) -> bool {
    e == DecodeError::Truncated || (e matches DecodeError::BadPreamble(_, _))
}

/// The preamble check accepts exactly the fixed eight-byte prefix,
/// hands back the rest of the buffer, and on any other prefix reports
/// `Truncated` or `BadPreamble`.
pub proof fn lemma_preamble(s: Seq<u8>)
    ensures
        starts_with_preamble(s) ==> spec_preamble(s) == Ok::<Seq<u8>, DecodeError>(s.skip(8)),
        !starts_with_preamble(s) ==> spec_preamble(s) is Err && is_preamble_failure(
            spec_preamble(s)->Err_0,
        ),
{
    let p = spec_preamble_bytes();
    assert(s.len() >= 2 ==> s.skip(1).skip(1) =~= s.skip(2));
    assert(s.len() >= 3 ==> s.skip(2).skip(1) =~= s.skip(3));
    assert(s.len() >= 4 ==> s.skip(3).skip(1) =~= s.skip(4));
    assert(s.len() >= 5 ==> s.skip(4).skip(1) =~= s.skip(5));
    assert(s.len() >= 6 ==> s.skip(5).skip(1) =~= s.skip(6));
    assert(s.len() >= 7 ==> s.skip(6).skip(1) =~= s.skip(7));
    assert(s.len() >= 8 ==> s.skip(7).skip(1) =~= s.skip(8));
    if s.len() >= 8 {
        assert(forall|i: int| 0 <= i < 8 ==> s.subrange(0, 8)[i] == s[i]);
        if s[0] == 0x00 && s[1] == 0x61 && s[2] == 0x73 && s[3] == 0x6d && s[4] == 0x01 && s[5]
            == 0x00 && s[6] == 0x00 && s[7] == 0x00 {
            assert(s.subrange(0, 8) =~= p);
        } else {
            assert(s.subrange(0, 8) != p);
        }
    }
}

/// Any buffer that does not begin with the fixed preamble fails with
/// `BadPreamble` or `Truncated`; with the preamble and nothing after
/// it, the decode succeeds with no sections.
pub proof fn lemma_parse_preamble(s: Seq<u8>)
    ensures
        !starts_with_preamble(s) ==> spec_parse(s) is Err && is_preamble_failure(
            spec_parse(s)->Err_0,
        ),
        spec_parse(s) is Ok ==> starts_with_preamble(s),
        starts_with_preamble(s) && s.len() == 8 ==> spec_parse(s) == Ok::<
            Seq<SectionModel>,
            DecodeError,
        >(Seq::empty()),
{
    lemma_preamble(s);
}

/// The wire form of one section: its id, its payload's length as a
/// varint, then the payload.
pub open spec fn spec_encode_section(id: u8, payload: Seq<u8>) -> Seq<u8> {
    seq![id] + spec_encode_varint(payload.len()) + payload
}

/// The wire form of a run of sections, in order.
pub open spec fn spec_encode_sections(list: Seq<(u8, Seq<u8>)>) -> Seq<u8>
    decreases list.len(),
{
    if list.len() == 0 {
        Seq::empty()
    } else {
        spec_encode_section(list[0].0, list[0].1) + spec_encode_sections(list.drop_first())
    }
}

/// The models the decoder owes for a run of (id, payload) pairs.
pub open spec fn spec_classify_all(list: Seq<(u8, Seq<u8>)>) -> Seq<SectionModel> {
    list.map_values(|sec: (u8, Seq<u8>)| spec_classify(sec.0, sec.1))
}

/// Section round trip: framing any run of sections and decoding it
/// back yields their classifications in the same order, each with its
/// payload bytes intact.
pub proof fn lemma_sections_round_trip(list: Seq<(u8, Seq<u8>)>)
    requires
        forall|i: int| 0 <= i < list.len() ==> (#[trigger] list[i].1).len() < 0x1_0000_0000,
    ensures
        spec_sections(spec_encode_sections(list)) == Ok::<Seq<SectionModel>, DecodeError>(
            spec_classify_all(list),
        ),
    decreases list.len(),
{
    if list.len() == 0 {
        assert(spec_classify_all(list) =~= Seq::<SectionModel>::empty());
    } else {
        let id = list[0].0;
        let pay = list[0].1;
        let t = spec_encode_sections(list);
        let enc = spec_encode_varint(pay.len());
        let restb = spec_encode_sections(list.drop_first());
        assert(t == (seq![id] + enc + pay) + restb);
        assert(t[0] == id);
        assert(t.skip(1) =~= enc + (pay + restb));
        lemma_varint_round_trip(pay.len() as u32, pay + restb);
        let c = enc.len() as int;
        assert(spec_varint(t.skip(1)) == Ok::<(u32, int), DecodeError>((pay.len() as u32, c)));
        assert(t.skip(1 + c) =~= pay + restb);
        assert((pay + restb).take(pay.len() as int) =~= pay);
        assert((pay + restb).skip(pay.len() as int) =~= restb);
        lemma_sections_round_trip(list.drop_first());
        assert(seq![spec_classify(id, pay)] + spec_classify_all(list.drop_first())
            =~= spec_classify_all(list));
    }
}

/// Module round trip: the preamble followed by any framed run of
/// sections decodes to exactly those sections.
pub proof fn lemma_module_round_trip(list: Seq<(u8, Seq<u8>)>)
    requires
        forall|i: int| 0 <= i < list.len() ==> (#[trigger] list[i].1).len() < 0x1_0000_0000,
    ensures
        spec_parse(spec_preamble_bytes() + spec_encode_sections(list)) == Ok::<
            Seq<SectionModel>,
            DecodeError,
        >(spec_classify_all(list)),
{
    let s = spec_preamble_bytes() + spec_encode_sections(list);
    assert(s.subrange(0, 8) =~= spec_preamble_bytes());
    lemma_preamble(s);
    assert(s.skip(8) =~= spec_encode_sections(list));
    lemma_sections_round_trip(list);
}

/// Decoding is a pure function of the buffer: two decodes of the same
/// bytes yield structurally identical results.
pub proof fn lemma_parse_deterministic(
    s: Seq<u8>,
    r1: Result<Seq<SectionModel>, DecodeError>,
    r2: Result<Seq<SectionModel>, DecodeError>,
)
    requires
        r1 == spec_parse(s),
        r2 == spec_parse(s),
    ensures
        r1 == r2,
{
}

} // verus!
