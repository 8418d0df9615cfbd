use wasmdec::code::parse_code_section;
use wasmdec::error::DecodeError;
use wasmdec::parser::{expect, parse};
use wasmdec::section::{bytes_eq, module_eq, section_eq, Section};

const PREAMBLE: [u8; 8] = [0x00, 0x61, 0x73, 0x6D, 0x01, 0x00, 0x00, 0x00];

fn module_with(sections: &[(u8, &[u8])]) -> Vec<u8> {
    let mut buf = PREAMBLE.to_vec();
    for &(id, payload) in sections {
        buf.push(id);
        assert!(payload.len() < 0x80);
        buf.push(payload.len() as u8);
        buf.extend_from_slice(payload);
    }
    buf
}

#[test]
fn expect_matches_and_advances() {
    assert_eq!(expect(5, &[5, 1, 2]), Ok(&[1, 2][..]));
    assert_eq!(expect(5, &[]), Err(DecodeError::Truncated));
    assert_eq!(expect(5, &[6, 1]), Err(DecodeError::BadPreamble(5, 6)));
}

#[test]
fn preamble_empty_truncated() {
    assert!(matches!(parse(&[]), Err(DecodeError::Truncated)));
}

#[test]
fn preamble_partial_truncated() {
    assert!(matches!(
        parse(&[0x00, 0x61, 0x73, 0x6D, 0x01, 0x00, 0x00]),
        Err(DecodeError::Truncated)
    ));
}

#[test]
fn preamble_wrong_magic() {
    assert_eq!(
        parse(&[0x01, 0x61, 0x73, 0x6D, 0x01, 0x00, 0x00, 0x00]).unwrap_err(),
        DecodeError::BadPreamble(0x00, 0x01)
    );
    assert_eq!(
        parse(&[0x00, 0x61, 0x73, 0x6E, 0x01, 0x00, 0x00, 0x00]).unwrap_err(),
        DecodeError::BadPreamble(0x6D, 0x6E)
    );
}

#[test]
fn preamble_wrong_version() {
    assert_eq!(
        parse(&[0x00, 0x61, 0x73, 0x6D, 0x02, 0x00, 0x00, 0x00]).unwrap_err(),
        DecodeError::BadPreamble(0x01, 0x02)
    );
}

#[test]
fn preamble_alone_yields_empty_module() {
    let sections = parse(&PREAMBLE).unwrap();
    assert!(sections.is_empty());
}

#[test]
fn section_round_trip_order_and_payloads() {
    let buf = module_with(&[(1, &[0xAA, 0xBB, 0xCC]), (11, &[0x01, 0x02])]);
    let sections = parse(&buf).unwrap();
    assert_eq!(sections.len(), 2);
    match &sections[0] {
        Section::Type(p) => assert!(bytes_eq(p, &vec![0xAA, 0xBB, 0xCC])),
        other => panic!("expected a type section, got {:?}", other),
    }
    match &sections[1] {
        Section::Data(p) => assert!(bytes_eq(p, &vec![0x01, 0x02])),
        other => panic!("expected a data section, got {:?}", other),
    }
}

#[test]
fn section_empty_payload() {
    let buf = module_with(&[(4, &[])]);
    let sections = parse(&buf).unwrap();
    assert_eq!(sections.len(), 1);
    assert!(matches!(&sections[0], Section::Table(p) if p.is_empty()));
}

#[test]
fn section_all_known_ids_map_to_their_kind() {
    let buf = module_with(&[
        (0, &[0]),
        (1, &[1]),
        (2, &[2]),
        (3, &[3]),
        (4, &[4]),
        (5, &[5]),
        (6, &[6]),
        (7, &[7]),
        (8, &[8]),
        (9, &[9]),
        (11, &[11]),
    ]);
    let sections = parse(&buf).unwrap();
    assert_eq!(sections.len(), 11);
    assert!(matches!(&sections[0], Section::Custom(_)));
    assert!(matches!(&sections[1], Section::Type(_)));
    assert!(matches!(&sections[2], Section::Import(_)));
    assert!(matches!(&sections[3], Section::Function(_)));
    assert!(matches!(&sections[4], Section::Table(_)));
    assert!(matches!(&sections[5], Section::Memory(_)));
    assert!(matches!(&sections[6], Section::Global(_)));
    assert!(matches!(&sections[7], Section::Export(_)));
    assert!(matches!(&sections[8], Section::Start(_)));
    assert!(matches!(&sections[9], Section::Element(_)));
    assert!(matches!(&sections[10], Section::Data(_)));
}

#[test]
fn section_declared_longer_than_remaining() {
    let mut buf = PREAMBLE.to_vec();
    buf.push(1);
    buf.push(48);
    buf.extend_from_slice(&[0u8; 10]);
    assert_eq!(parse(&buf).unwrap_err(), DecodeError::SectionTooShort(10, 48));
}

#[test]
fn section_id_byte_then_nothing() {
    let mut buf = PREAMBLE.to_vec();
    buf.push(3);
    assert_eq!(parse(&buf).unwrap_err(), DecodeError::Truncated);
}

#[test]
fn section_length_uses_multibyte_varint() {
    let mut buf = PREAMBLE.to_vec();
    buf.push(0);
    buf.push(0xC8);
    buf.push(0x01);
    buf.extend_from_slice(&[7u8; 200]);
    let sections = parse(&buf).unwrap();
    assert_eq!(sections.len(), 1);
    match &sections[0] {
        Section::Custom(p) => assert!(bytes_eq(p, &vec![7u8; 200])),
        other => panic!("expected a custom section, got {:?}", other),
    }
}

#[test]
fn unknown_id_passthrough() {
    let buf = module_with(&[(200, &[1, 2, 3])]);
    let sections = parse(&buf).unwrap();
    assert_eq!(sections.len(), 1);
    match &sections[0] {
        Section::Unknown(id, p) => {
            assert_eq!(*id, 200);
            assert!(bytes_eq(p, &vec![1, 2, 3]));
        }
        other => panic!("expected an unknown section, got {:?}", other),
    }
}

#[test]
fn first_unassigned_id_is_unknown() {
    let buf = module_with(&[(12, &[9])]);
    let sections = parse(&buf).unwrap();
    assert!(matches!(&sections[0], Section::Unknown(12, _)));
}

#[test]
fn code_nesting_two_bodies() {
    let bodies = parse_code_section(&[2, 3, 0, 11, 11, 3, 0, 11, 11]).unwrap();
    assert_eq!(bodies, vec![vec![0, 11, 11], vec![0, 11, 11]]);
}

#[test]
fn code_body_too_short() {
    assert_eq!(
        parse_code_section(&[1, 5, 0, 0]),
        Err(DecodeError::BodyTooShort(2, 5))
    );
}

#[test]
fn code_count_truncated() {
    assert_eq!(parse_code_section(&[]), Err(DecodeError::Truncated));
}

#[test]
fn code_zero_bodies_ignores_trailing_bytes() {
    assert_eq!(parse_code_section(&[0, 9, 9, 9]), Ok(vec![]));
}

#[test]
fn code_failure_is_captured_per_section() {
    let buf = module_with(&[(10, &[0x80]), (11, &[7])]);
    let sections = parse(&buf).unwrap();
    assert_eq!(sections.len(), 2);
    match &sections[0] {
        Section::Code(r) => assert_eq!(*r, Err(DecodeError::Truncated)),
        other => panic!("expected a code section, got {:?}", other),
    }
    assert!(matches!(&sections[1], Section::Data(_)));
}

#[test]
fn code_section_inside_module() {
    let buf = module_with(&[(10, &[2, 3, 0, 11, 11, 3, 0, 11, 11])]);
    let sections = parse(&buf).unwrap();
    match &sections[0] {
        Section::Code(Ok(bodies)) => {
            assert_eq!(*bodies, vec![vec![0, 11, 11], vec![0, 11, 11]]);
        }
        other => panic!("expected a decoded code section, got {:?}", other),
    }
}

#[test]
fn duplicate_sections_are_kept_in_order() {
    let buf = module_with(&[(1, &[1]), (1, &[2])]);
    let sections = parse(&buf).unwrap();
    assert_eq!(sections.len(), 2);
    match (&sections[0], &sections[1]) {
        (Section::Type(a), Section::Type(b)) => {
            assert!(bytes_eq(a, &vec![1]));
            assert!(bytes_eq(b, &vec![2]));
        }
        other => panic!("expected two type sections, got {:?}", other),
    }
}

fn demo_module() -> Vec<u8> {
    let mut buf = PREAMBLE.to_vec();
    buf.extend_from_slice(&[
        1, 8, 2, 96, 1, 124, 0, 96, 0, 0, //
        3, 3, 2, 0, 1, //
        4, 5, 1, 112, 1, 1, 1, //
        5, 4, 1, 1, 4, 8, //
        6, 18, 2, 127, 1, 65, 7, 11, 124, 1, 68, 51, 51, 51, 51, 51, 51, 243, 63, 11, //
        7, 48, 6, 2, 102, 110, 0, 0, 3, 102, 110, 50, 0, 1, 5, 116, 97, 98, 108, 101, 1, 0, 6,
        103, 108, 111, 98, 97, 108, 3, 0, 7, 103, 108, 111, 98, 97, 108, 50, 3, 1, 6, 109, 101,
        109, 111, 114, 121, 2, 0, //
        10, 9, 2, 3, 0, 11, 11, 3, 0, 11, 11, //
        0, 17, 4, 110, 97, 109, 101, 1, 10, 2, 0, 2, 102, 110, 1, 3, 102, 110, 50,
    ]);
    buf
}

#[test]
fn demo_module_decodes_fully() {
    let sections = parse(&demo_module()).unwrap();
    assert_eq!(sections.len(), 8);
    assert!(matches!(&sections[0], Section::Type(_)));
    assert!(matches!(&sections[1], Section::Function(_)));
    assert!(matches!(&sections[2], Section::Table(_)));
    assert!(matches!(&sections[3], Section::Memory(_)));
    assert!(matches!(&sections[4], Section::Global(_)));
    assert!(matches!(&sections[5], Section::Export(_)));
    match &sections[6] {
        Section::Code(Ok(bodies)) => {
            assert_eq!(*bodies, vec![vec![0, 11, 11], vec![0, 11, 11]]);
        }
        other => panic!("expected a decoded code section, got {:?}", other),
    }
    assert!(matches!(&sections[7], Section::Custom(_)));
}

#[test]
fn parse_is_idempotent_on_success() {
    let buf = demo_module();
    let first = parse(&buf).unwrap();
    let second = parse(&buf).unwrap();
    assert!(module_eq(&first, &second));
    for (a, b) in first.iter().zip(second.iter()) {
        assert!(section_eq(a, b));
    }
}

#[test]
fn parse_is_idempotent_on_failure() {
    let mut buf = PREAMBLE.to_vec();
    buf.push(1);
    buf.push(48);
    assert_eq!(parse(&buf).unwrap_err(), parse(&buf).unwrap_err());
}

#[test]
fn section_eq_distinguishes_kind_and_payload() {
    let same_payload_a = parse(&module_with(&[(1, &[1, 2])])).unwrap();
    let same_payload_b = parse(&module_with(&[(2, &[1, 2])])).unwrap();
    assert!(!section_eq(&same_payload_a[0], &same_payload_b[0]));
    let other_bytes = parse(&module_with(&[(1, &[1, 3])])).unwrap();
    assert!(!section_eq(&same_payload_a[0], &other_bytes[0]));
    assert!(section_eq(&same_payload_a[0], &same_payload_a[0]));
}
