use ops::is_enum_token_variant;
use ops::token::control_of_char;
use ops::token::is_enum_str;
use ops::BooleanVariants;
use ops::ControlVariants;
use ops::NameVariants;
use ops::NumberVariants;
use ops::Position;
use ops::StringVariants;
use ops::Token;
use ops::TokenTypes;
use ops::TokenVariant;
use ops::WordVariants;

const CONTROLS: [(&str, ControlVariants); 27] = [
    (",", ControlVariants::Comma),
    (";", ControlVariants::Semicolon),
    ("(", ControlVariants::OpenParanthesis),
    (")", ControlVariants::CloseParanthesis),
    ("{", ControlVariants::OpenCurly),
    ("}", ControlVariants::CloseCurly),
    ("[", ControlVariants::OpenSquare),
    ("]", ControlVariants::CloseSquare),
    (":", ControlVariants::Colon),
    ("?", ControlVariants::Questionmark),
    ("<", ControlVariants::Less),
    ("<=", ControlVariants::LessEqual),
    (">", ControlVariants::Greater),
    (">=", ControlVariants::GreaterEqual),
    ("=", ControlVariants::Asign),
    ("==", ControlVariants::Equal),
    ("||", ControlVariants::Or),
    ("&&", ControlVariants::And),
    ("|", ControlVariants::BitOr),
    ("&", ControlVariants::BitAnd),
    ("+", ControlVariants::Plus),
    ("-", ControlVariants::Minus),
    ("*", ControlVariants::Multiplikation),
    ("**", ControlVariants::Power),
    ("/", ControlVariants::Divide),
    ("!", ControlVariants::Not),
    ("!=", ControlVariants::NotEqual),
];

const WORDS: [(&str, WordVariants); 15] = [
    ("func", WordVariants::Func),
    ("num", WordVariants::Num),
    ("str", WordVariants::Str),
    ("bool", WordVariants::Bool),
    ("args", WordVariants::Args),
    ("return", WordVariants::Return),
    ("const", WordVariants::Const),
    ("if", WordVariants::If),
    ("else", WordVariants::Else),
    ("while", WordVariants::While),
    ("for", WordVariants::For),
    ("continue", WordVariants::Continue),
    ("break", WordVariants::Break),
    ("match", WordVariants::Match),
    ("def", WordVariants::Def),
];

fn at(row: usize, column: usize) -> Position {
    Position::new("t.nop".to_string(), row, column)
}

#[test]
fn control_symbols_are_spelled_as_listed() {
    for (text, symbol) in CONTROLS {
        assert_eq!(ControlVariants::new(text), Some(symbol));
        assert_eq!(symbol.to_string(), text);
        assert_eq!(symbol.token_type(), "Control");
    }
    for text in ["", " ", "===", "<>", "=>", "++", "--", "//", "&|", ", ", "a", "\"", "#", "%", "^"] {
        assert_eq!(ControlVariants::new(text), None, "{:?}", text);
    }
}

#[test]
fn reserved_words_are_spelled_as_listed() {
    for (text, word) in WORDS {
        assert_eq!(WordVariants::new(text), Some(word));
        assert_eq!(word.to_string(), text);
        assert_eq!(word.token_type(), "Word");
    }
    for text in ["", "Func", "NUM", "nums", "i", "fo", "elsee", " if", "true", "false", "print"] {
        assert_eq!(WordVariants::new(text), None, "{:?}", text);
    }
}

#[test]
fn one_character_symbols_are_found_by_character() {
    for (text, symbol) in CONTROLS {
        let mut chars = text.chars();
        let first = chars.next().unwrap();
        if chars.next().is_none() {
            assert_eq!(control_of_char(first), Some(symbol));
        }
    }
    for c in ['a', '0', ' ', '"', '\'', '.', '_', '#', '%', '^', '~', '\\', 'é'] {
        assert_eq!(control_of_char(c), None, "{:?}", c);
    }
}

#[test]
fn enum_texts_are_symbols_and_words() {
    for (text, _) in CONTROLS {
        assert!(is_enum_token_variant(text.to_string()));
        assert!(is_enum_str(text));
    }
    for (text, _) in WORDS {
        assert!(is_enum_token_variant(text.to_string()));
        assert!(is_enum_str(text));
    }
    for text in ["", "x", "true", "1", "\"", "nu", "numm", "= ", "<=>"] {
        assert!(!is_enum_token_variant(text.to_string()), "{:?}", text);
        assert!(!is_enum_str(text), "{:?}", text);
    }
}

#[test]
fn name_takes_any_text() {
    for text in ["x", "", "a b", "num", "1"] {
        let name = NameVariants::new(text).unwrap();
        assert_eq!(name.to_string(), text);
        assert_eq!(name.token_type(), "Name");
        assert_eq!(name.clone().to_string(), text);
    }
}

#[test]
fn string_puts_its_text_between_quotes() {
    for (text, quoted) in [("abc", "\"abc\""), ("", "\"\""), ("a \"b\"", "\"a \"b\"\"")] {
        let string = StringVariants::new(text).unwrap();
        assert_eq!(string.to_string(), quoted);
        assert_eq!(string.token_type(), "str");
        assert_eq!(string.clone().to_string(), quoted);
    }
}

#[test]
fn boolean_is_true_or_false() {
    assert_eq!(BooleanVariants::new("true").unwrap().to_string(), "true");
    assert_eq!(BooleanVariants::new("false").unwrap().to_string(), "false");
    assert_eq!(BooleanVariants::new("true").unwrap().token_type(), "bool");
    for text in ["", "True", "FALSE", "1", "0", "tru", "truee", " true"] {
        assert!(BooleanVariants::new(text).is_none(), "{:?}", text);
    }
}

#[test]
fn number_keeps_its_spelling() {
    for text in ["1", "1.50", "-0", "1e5", ".5", "inf", "NaN"] {
        let number = NumberVariants::new(text).unwrap();
        assert_eq!(number.to_string(), text);
        assert_eq!(number.token_type(), "num");
        assert_eq!(number.clone().to_string(), text);
    }
    for text in ["", "x", "1x", "1.2.3", "true"] {
        assert!(NumberVariants::new(text).is_none(), "{:?}", text);
    }
}

#[test]
fn classification_goes_in_order() {
    let cases: [(&str, bool, &str, &str); 16] = [
        ("+", false, "Control", "+"),
        ("+", true, "Control", "+"),
        ("**", true, "Control", "**"),
        ("num", false, "Word", "num"),
        ("num", true, "Word", "num"),
        ("true", false, "bool", "true"),
        ("true", true, "str", "\"true\""),
        ("12", false, "num", "12"),
        ("12", true, "str", "\"12\""),
        ("x", false, "Name", "x"),
        ("x", true, "str", "\"x\""),
        ("", true, "str", "\"\""),
        ("", false, "Name", ""),
        ("1.2.3", false, "Name", "1.2.3"),
        ("nan", false, "num", "nan"),
        ("a b", false, "Name", "a b"),
    ];
    for (text, is_in_string, kind, canonical) in cases {
        let token = Token::new(text.to_string(), at(1, 1), is_in_string);
        assert_eq!(token.token.token_type(), kind, "{:?}", text);
        assert_eq!(token.token.to_string(), canonical, "{:?}", text);
        let direct = TokenTypes::new(text, is_in_string);
        assert_eq!(direct.token_type(), kind);
        assert_eq!(direct.to_string(), canonical);
    }
}

#[test]
fn literals_are_numbers_booleans_and_strings() {
    let cases = [
        ("1", false, true),
        ("true", false, true),
        ("x", true, true),
        ("x", false, false),
        ("+", false, false),
        ("if", false, false),
        ("if", true, false),
    ];
    for (text, is_in_string, literal) in cases {
        assert_eq!(TokenTypes::new(text, is_in_string).is_literal(), literal, "{:?}", text);
    }
}

#[test]
fn token_keeps_its_position() {
    let token = Token::new("x".to_string(), Position::new("dir/file.nop".to_string(), 12, 34), false);
    assert_eq!(token.position.file(), "dir/file.nop");
    assert_eq!(token.position.row(), 12);
    assert_eq!(token.position.column(), 34);
    assert_eq!(token.position.to_string(), "dir/file.nop:12:34");
    let copy = token.clone();
    assert_eq!(copy.token.to_string(), "x");
    assert_eq!(copy.position.to_string(), "dir/file.nop:12:34");
}

#[test]
fn token_is_rendered_for_a_trace() {
    let token = Token::new("abc".to_string(), at(3, 9), true);
    assert_eq!(token.debug_string(), "{ token: '\"abc\"', position: 't.nop:3:9' }");
    let token = Token::new(">=".to_string(), at(1, 100), false);
    assert_eq!(token.debug_string(), "{ token: '>=', position: 't.nop:1:100' }");
}
