use sandworm::{Direction, Instruction};

#[test]
fn digits_decode_to_their_values() {
    for (byte, value) in (b'0'..=b'9').zip(0u8..=9) {
        assert_eq!(Instruction::decode(byte), Instruction::Digit(value));
    }
}

#[test]
fn operators_decode() {
    assert_eq!(Instruction::decode(b'+'), Instruction::Add);
    assert_eq!(Instruction::decode(b'-'), Instruction::Subtract);
    assert_eq!(Instruction::decode(b'"'), Instruction::WriteNumber);
    assert_eq!(Instruction::decode(b'!'), Instruction::WriteByte);
    assert_eq!(Instruction::decode(b'?'), Instruction::ReadByte);
    assert_eq!(Instruction::decode(b'='), Instruction::CopyNeck);
    assert_eq!(Instruction::decode(b'\\'), Instruction::MirrorBackslash);
    assert_eq!(Instruction::decode(b'/'), Instruction::MirrorSlash);
    assert_eq!(Instruction::decode(b'_'), Instruction::Space);
}

#[test]
fn arrows_decode_to_headings() {
    assert_eq!(Instruction::decode(b'v'), Instruction::Face(Direction::Down));
    assert_eq!(Instruction::decode(b'^'), Instruction::Face(Direction::Up));
    assert_eq!(Instruction::decode(b'<'), Instruction::Face(Direction::Left));
    assert_eq!(Instruction::decode(b'>'), Instruction::Face(Direction::Right));
}

#[test]
fn space_and_null_are_passive() {
    assert_eq!(Instruction::decode(b' '), Instruction::Pass);
    assert_eq!(Instruction::decode(0), Instruction::Pass);
}

#[test]
fn every_other_byte_is_a_literal() {
    let special = b"0123456789+-v^<>\"!?=\\/ _\0";
    for byte in 0..=255u8 {
        if !special.contains(&byte) {
            assert_eq!(Instruction::decode(byte), Instruction::Literal(byte));
        }
    }
    assert_eq!(Instruction::decode(b'@'), Instruction::Literal(b'@'));
    assert_eq!(Instruction::decode(b'V'), Instruction::Literal(b'V'));
}

#[test]
fn instruction_bytes_have_their_ascii_codes() {
    assert_eq!(sandworm::instruction::HEAD, b'@');
    assert_eq!(sandworm::instruction::SPACE, b' ');
    assert_eq!(sandworm::instruction::DIGIT_ZERO, b'0');
    assert_eq!(sandworm::instruction::DIGIT_NINE, b'9');
    assert_eq!(sandworm::instruction::PLUS, b'+');
    assert_eq!(sandworm::instruction::MINUS, b'-');
    assert_eq!(sandworm::instruction::FACE_DOWN, b'v');
    assert_eq!(sandworm::instruction::FACE_UP, b'^');
    assert_eq!(sandworm::instruction::FACE_LEFT, b'<');
    assert_eq!(sandworm::instruction::FACE_RIGHT, b'>');
    assert_eq!(sandworm::instruction::QUOTE, b'"');
    assert_eq!(sandworm::instruction::BANG, b'!');
    assert_eq!(sandworm::instruction::QUERY, b'?');
    assert_eq!(sandworm::instruction::EQUALS, b'=');
    assert_eq!(sandworm::instruction::BACKSLASH, b'\\');
    assert_eq!(sandworm::instruction::SLASH, b'/');
    assert_eq!(sandworm::instruction::UNDERSCORE, b'_');
    assert_eq!(sandworm::grid::NEWLINE, b'\n');
    assert_eq!(sandworm::grid::CARRIAGE_RETURN, b'\r');
    assert_eq!(sandworm::grid::PADDING, 0);
}
