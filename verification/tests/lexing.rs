use porrs::error::{ErrorKind, ParsingError};
use porrs::op::Intrinsic;
use porrs::program::FilePosition;
use porrs::simulate::simulate_bounded;
use porrs::token::{parse_u64, Marker, TokenType};
use porrs::Program;

fn lines(src: &str) -> Vec<Vec<u8>> {
    src.split_inclusive('\n').map(|l| l.as_bytes().to_vec()).collect()
}

fn program(src: &str) -> Program {
    Program::from_lines(String::from("test.porth"), lines(src)).expect("program should parse")
}

fn output_lines(src: &str) -> Vec<String> {
    let (result, machine) = simulate_bounded(&program(src), 1_000_000);
    assert!(result.is_ok(), "program should run to completion");
    machine
        .output
        .iter()
        .map(|l| String::from_utf8(l.clone()).unwrap())
        .collect()
}

#[test]
fn comment_lines_are_discarded() {
    assert_eq!(
        output_lines("// heading comment\n5 print\n"),
        vec!["5 (0x0000000000000005)"]
    );
}

#[test]
fn trailing_comment_after_whitespace_is_discarded() {
    // Once the tokens before it are consumed, the remainder starts with
    // `//` and the rest of the line is dropped.
    assert_eq!(
        output_lines("5 print // explain\n6 print\n"),
        vec!["5 (0x0000000000000005)", "6 (0x0000000000000006)"]
    );
}

#[test]
fn comment_must_start_the_remainder() {
    // `5//x` is one whitespace-delimited token, and no known word.
    let err = Program::from_lines(String::from("test.porth"), lines("5//x print"))
        .err()
        .expect("source should fail to parse");
    match &err.kind {
        ErrorKind::Parsing(ParsingError::UnknownWord(text)) => {
            assert_eq!(text.as_slice(), b"5//x");
        }
        other => panic!("expected an unknown-word fault, got {:?}", other),
    }
}

#[test]
fn blank_lines_advance_the_line_counter() {
    let err = Program::from_lines(String::from("test.porth"), lines("\n\nbogus\n"))
        .err()
        .expect("source should fail to parse");
    assert_eq!(err.loc.unwrap().pos, Some(FilePosition { line: 3, col: 1 }));
}

#[test]
fn columns_count_from_one() {
    let err = Program::from_lines(String::from("test.porth"), lines("   nope"))
        .err()
        .expect("source should fail to parse");
    assert_eq!(err.loc.unwrap().pos, Some(FilePosition { line: 1, col: 4 }));
}

#[test]
fn plus_signed_and_zero_padded_integers_lex() {
    assert_eq!(output_lines("+5 print"), vec!["5 (0x0000000000000005)"]);
    assert_eq!(output_lines("007 print"), vec!["7 (0x0000000000000007)"]);
}

#[test]
fn out_of_range_integer_is_no_integer() {
    // One past u64::MAX: not an integer token, and no known word either.
    let err = Program::from_lines(
        String::from("test.porth"),
        lines("18446744073709551616"),
    )
    .err()
    .expect("source should fail to parse");
    assert!(matches!(
        err.kind,
        ErrorKind::Parsing(ParsingError::UnknownWord(_))
    ));
}

#[test]
fn parse_u64_accepts_full_range() {
    assert_eq!(parse_u64(&b"0".to_vec()), Some(0));
    assert_eq!(parse_u64(&b"+42".to_vec()), Some(42));
    assert_eq!(parse_u64(&b"18446744073709551615".to_vec()), Some(u64::MAX));
    assert_eq!(parse_u64(&b"18446744073709551616".to_vec()), None);
    assert_eq!(parse_u64(&b"".to_vec()), None);
    assert_eq!(parse_u64(&b"+".to_vec()), None);
    assert_eq!(parse_u64(&b"++1".to_vec()), None);
    assert_eq!(parse_u64(&b"12a".to_vec()), None);
    assert_eq!(parse_u64(&b"-1".to_vec()), None);
}

#[test]
fn markers_shadow_words() {
    assert!(matches!(
        TokenType::from_bytes(b"if".to_vec()),
        TokenType::Marker(Marker::If)
    ));
    assert!(matches!(
        TokenType::from_bytes(b"if*".to_vec()),
        TokenType::Marker(Marker::IfStar)
    ));
    assert!(matches!(TokenType::from_bytes(b"7".to_vec()), TokenType::Int(7)));
    assert!(matches!(TokenType::from_bytes(b"dup".to_vec()), TokenType::Word(_)));
}

#[test]
fn marker_spellings_round_trip() {
    for m in [
        Marker::If,
        Marker::IfStar,
        Marker::Else,
        Marker::While,
        Marker::Do,
        Marker::End,
    ] {
        let spelled = m.as_str().as_bytes().to_vec();
        assert_eq!(Marker::from_bytes(&spelled), Some(m));
    }
    assert_eq!(Marker::from_bytes(&b"iff".to_vec()), None);
}

#[test]
fn intrinsic_spellings_round_trip() {
    for i in [
        Intrinsic::Dup,
        Intrinsic::Swap,
        Intrinsic::Drop,
        Intrinsic::Print,
        Intrinsic::Over,
        Intrinsic::Rot,
        Intrinsic::Plus,
        Intrinsic::Subtract,
        Intrinsic::Multiply,
        Intrinsic::DivMod,
    ] {
        let spelled = i.as_str().as_bytes().to_vec();
        assert_eq!(Intrinsic::from_bytes(&spelled), Some(i));
    }
    assert_eq!(Intrinsic::from_bytes(&b"dupp".to_vec()), None);
}

#[test]
fn tabs_separate_tokens() {
    assert_eq!(output_lines("5\tprint"), vec!["5 (0x0000000000000005)"]);
}
