use ops::CompilerError;
use ops::ErrorHandler;
use ops::ErrorTypes;
use ops::Failure;
use ops::Position;
use ops::Res;

#[test]
fn position_is_rendered_with_colons() {
    assert_eq!(Position::new("a.nop".to_string(), 1, 1).to_string(), "a.nop:1:1");
    assert_eq!(Position::new("".to_string(), 0, 0).to_string(), ":0:0");
    assert_eq!(
        Position::new("dir/b c.nop".to_string(), 120, 4096).to_string(),
        "dir/b c.nop:120:4096"
    );
    assert_eq!(
        Position::new("m".to_string(), usize::MAX, 10).to_string(),
        format!("m:{}:10", usize::MAX)
    );
    let mut out = String::from("at ");
    Position::new("x".to_string(), 2, 3).write_to(&mut out);
    assert_eq!(out, "at x:2:3");
}

#[test]
fn position_is_copied_whole() {
    let position = Position::new("a.nop".to_string(), 5, 6);
    let copy = position.clone();
    assert_eq!(copy.file(), "a.nop");
    assert_eq!(copy.row(), 5);
    assert_eq!(copy.column(), 6);
}

#[test]
fn kinds_have_their_labels() {
    assert_eq!(ErrorTypes::UnclosedBlock.to_string(), "Unclosed Block");
    assert_eq!(ErrorTypes::UnclosedString.to_string(), "Unclosed String");
    assert_eq!(ErrorTypes::UnclosedStatement.to_string(), "Unclosed Statement");
    assert_eq!(ErrorTypes::InvalidStatement.to_string(), "Invalid Statement");
    assert_eq!(ErrorTypes::UnexpectedSymbol.to_string(), "Unexpected Symbol");
    assert_eq!(ErrorTypes::MismatchedTypes.to_string(), "Mismatched Types");
}

#[test]
fn diagnostic_is_rendered_with_kind_message_and_position() {
    let e = CompilerError::new(
        ErrorTypes::MismatchedTypes,
        "expected num-type but found a str-type".to_string(),
        Position::new("main.nop".to_string(), 3, 14),
    );
    assert_eq!(e.error_type(), ErrorTypes::MismatchedTypes);
    assert_eq!(e.message(), "expected num-type but found a str-type");
    assert_eq!(e.position().to_string(), "main.nop:3:14");
    assert_eq!(
        e.to_string(),
        "Mismatched Types: expected num-type but found a str-type at main.nop:3:14"
    );
}

#[test]
fn compiler_err_is_a_failure_with_the_diagnostic() {
    let r: Res<u8> = ErrorHandler::compiler_err(
        ErrorTypes::UnclosedBlock,
        "m".to_string(),
        Position::new("f".to_string(), 1, 2),
    );
    match r {
        Err(Failure::Compiler(e)) => {
            assert_eq!(e.error_type(), ErrorTypes::UnclosedBlock);
            assert_eq!(e.to_string(), "Unclosed Block: m at f:1:2");
        }
        _ => panic!("expected a diagnostic"),
    }
}

#[test]
fn err_is_a_failure_with_the_plain_message() {
    let r: Res<()> = ErrorHandler::err("Source file 'x' does not exist.");
    match r {
        Err(Failure::Plain(m)) => assert_eq!(m, "Source file 'x' does not exist."),
        _ => panic!("expected a plain failure"),
    }
    let r: Res<()> = ErrorHandler::err("");
    match r {
        Err(f) => assert_eq!(f.to_string(), ""),
        _ => panic!("expected a plain failure"),
    }
}

#[test]
fn helpful_err_adds_the_usage_hint() {
    let handler = ErrorHandler::new("ops".to_string());
    let r: Res<()> = handler.helpful_err("No source file specified.");
    match r {
        Err(f) => {
            assert!(matches!(f, Failure::Plain(_)));
            assert_eq!(f.to_string(), "No source file specified. For help use `ops -h`");
        }
        _ => panic!("expected a plain failure"),
    }
}

#[test]
fn failure_is_rendered_as_what_it_holds() {
    let e = CompilerError::new(
        ErrorTypes::UnexpectedSymbol,
        "no opened block to close".to_string(),
        Position::new("f.nop".to_string(), 9, 1),
    );
    assert_eq!(
        Failure::Compiler(e).to_string(),
        "Unexpected Symbol: no opened block to close at f.nop:9:1"
    );
    assert_eq!(Failure::Plain("plain".to_string()).to_string(), "plain");
}
