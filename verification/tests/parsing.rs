use porrs::error::{
    ErrorKind, InfoKind, MissingMarker, ParsingError, UnexpectedMarker,
};
use porrs::program::FilePosition;
use porrs::token::Marker;
use porrs::Program;

fn lines(src: &str) -> Vec<Vec<u8>> {
    src.split_inclusive('\n').map(|l| l.as_bytes().to_vec()).collect()
}

fn parse_error(src: &str) -> porrs::Error {
    Program::from_lines(String::from("test.porth"), lines(src))
        .err()
        .expect("source should fail to parse")
}

#[test]
fn unclosed_if_reports_block_not_closed_at_eof() {
    let err = parse_error("if\n");
    assert!(matches!(
        err.kind,
        ErrorKind::Parsing(ParsingError::MissingMarker(
            Marker::End,
            MissingMarker::BlockNotClosed
        ))
    ));
    // Primary location: where the lexer stopped, past the end of the source.
    let loc = err.loc.expect("error should carry the end-of-file location");
    assert_eq!(loc.path, "test.porth");
    assert_eq!(loc.pos, Some(FilePosition { line: 1, col: 4 }));
    // Exactly one note, pointing at the `if` that opened the block.
    assert_eq!(err.info_stack.len(), 1);
    assert_eq!(err.info_stack[0].kind, InfoKind::BlockStart(Marker::If));
    assert_eq!(err.info_stack[0].loc.pos, Some(FilePosition { line: 1, col: 1 }));
}

#[test]
fn unclosed_while_reports_block_not_closed() {
    let err = parse_error("while 1 do");
    assert!(matches!(
        err.kind,
        ErrorKind::Parsing(ParsingError::MissingMarker(
            Marker::End,
            MissingMarker::BlockNotClosed
        ))
    ));
    assert_eq!(err.info_stack.len(), 1);
    assert_eq!(err.info_stack[0].kind, InfoKind::BlockStart(Marker::While));
}

#[test]
fn unknown_word_fails_at_its_location() {
    let err = parse_error("x 5 +");
    match &err.kind {
        ErrorKind::Parsing(ParsingError::UnknownWord(text)) => {
            assert_eq!(text.as_slice(), b"x");
        }
        other => panic!("expected an unknown-word fault, got {:?}", other),
    }
    let loc = err.loc.expect("error should carry the word's location");
    assert_eq!(loc.pos, Some(FilePosition { line: 1, col: 1 }));
    assert!(err.info_stack.is_empty());
}

#[test]
fn unknown_word_on_a_later_line() {
    let err = parse_error("1 2 +\n  frob\n");
    match &err.kind {
        ErrorKind::Parsing(ParsingError::UnknownWord(text)) => {
            assert_eq!(text.as_slice(), b"frob");
        }
        other => panic!("expected an unknown-word fault, got {:?}", other),
    }
    assert_eq!(err.loc.unwrap().pos, Some(FilePosition { line: 2, col: 3 }));
}

#[test]
fn free_floating_end_is_rejected() {
    let err = parse_error("end");
    assert!(matches!(
        err.kind,
        ErrorKind::Parsing(ParsingError::UnexpectedMarker(
            Marker::End,
            UnexpectedMarker::FreeFloating(Marker::End)
        ))
    ));
}

#[test]
fn free_floating_else_is_rejected() {
    let err = parse_error("1 2 else");
    assert!(matches!(
        err.kind,
        ErrorKind::Parsing(ParsingError::UnexpectedMarker(
            Marker::Else,
            UnexpectedMarker::FreeFloating(Marker::Else)
        ))
    ));
    assert_eq!(err.loc.unwrap().pos, Some(FilePosition { line: 1, col: 5 }));
}

#[test]
fn repeated_else_is_rejected() {
    let err = parse_error("1 if else else end");
    assert!(matches!(
        err.kind,
        ErrorKind::Parsing(ParsingError::UnexpectedMarker(
            Marker::Else,
            UnexpectedMarker::Repeated(Marker::Else, Marker::If)
        ))
    ));
    assert_eq!(err.info_stack.len(), 1);
    assert_eq!(err.info_stack[0].kind, InfoKind::BlockStart(Marker::If));
}

#[test]
fn if_star_without_else_is_rejected() {
    let err = parse_error("1 if if* end");
    assert!(matches!(
        err.kind,
        ErrorKind::Parsing(ParsingError::UnexpectedMarker(
            Marker::IfStar,
            UnexpectedMarker::General(Marker::IfStar, Marker::Else)
        ))
    ));
}

#[test]
fn do_inside_if_is_not_applicable() {
    let err = parse_error("1 if do end");
    assert!(matches!(
        err.kind,
        ErrorKind::Parsing(ParsingError::UnexpectedMarker(
            Marker::Do,
            UnexpectedMarker::NotApplicable(Marker::Do, Marker::If)
        ))
    ));
}

#[test]
fn while_without_do_is_rejected() {
    let err = parse_error("while 1 end");
    assert!(matches!(
        err.kind,
        ErrorKind::Parsing(ParsingError::MissingMarker(
            Marker::Do,
            MissingMarker::RequiredByBlock(Marker::Do, Marker::While)
        ))
    ));
    assert_eq!(err.info_stack.len(), 1);
    assert_eq!(err.info_stack[0].kind, InfoKind::BlockStart(Marker::While));
}

#[test]
fn repeated_do_is_rejected() {
    let err = parse_error("while 1 do do end");
    assert!(matches!(
        err.kind,
        ErrorKind::Parsing(ParsingError::UnexpectedMarker(
            Marker::Do,
            UnexpectedMarker::Repeated(Marker::Do, Marker::While)
        ))
    ));
}

#[test]
fn nested_blocks_parse() {
    let program = Program::from_lines(
        String::from("test.porth"),
        lines("1 while dup do 1 if 0 end drop 0 end"),
    );
    assert!(program.is_ok());
}

#[test]
fn reformatted_source_behaves_identically() {
    // The same token stream, dumped with different spacing and comments,
    // parses to a tree with identical execution behaviour.
    let original = "0 if 10 print else 1 if* 20 print else 30 print end";
    let reformatted = "// reformatted\n0\n  if 10 print\n  else 1 if*\n    20 print\n  else\n    30 print\nend\n";
    let run = |src: &str| {
        let p = Program::from_lines(String::from("test.porth"), lines(src)).unwrap();
        let (result, machine) = porrs::simulate::simulate_bounded(&p, 1_000);
        assert!(result.is_ok());
        (machine.output, machine.stack.0)
    };
    assert_eq!(run(original), run(reformatted));
}

#[test]
fn file_io_faults_carry_path_and_description() {
    let err = porrs::Error::file_io(String::from("gone.porth"), String::from("no such file"));
    match &err.kind {
        ErrorKind::Lexing(porrs::error::LexingError::FileIo(path, msg)) => {
            assert_eq!(path, "gone.porth");
            assert_eq!(msg, "no such file");
        }
        other => panic!("expected a file I/O fault, got {:?}", other),
    }
    assert!(err.loc.is_none());
    assert!(err.info_stack.is_empty());
}
