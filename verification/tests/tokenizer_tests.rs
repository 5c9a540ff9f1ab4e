use ops::tokenizer::can_tokenize;
use ops::tokenizer::tokenizer;
use ops::ControlVariants;
use ops::ErrorTypes;
use ops::Failure;
use ops::Token;
use ops::TokenTypes;
use ops::WordVariants;

const CONTROLS: [&str; 27] = [
    ",", ";", "(", ")", "{", "}", "[", "]", ":", "?", "<", "<=", ">", ">=", "=", "==", "||", "&&",
    "|", "&", "+", "-", "*", "**", "/", "!", "!=",
];

const WORDS: [&str; 15] = [
    "func", "num", "str", "bool", "args", "return", "const", "if", "else", "while", "for",
    "continue", "break", "match", "def",
];

fn lines(source: &[&str]) -> Vec<String> {
    source.iter().map(|l| l.to_string()).collect()
}

fn tokens_of(source: &[&str]) -> Vec<Token> {
    match tokenizer(&lines(source), "test.nop") {
        Ok(tokens) => tokens,
        Err(e) => panic!("unexpected failure: {}", e.to_string()),
    }
}

fn texts(tokens: &[Token]) -> Vec<String> {
    tokens.iter().map(|t| t.token.to_string()).collect()
}

fn kinds(tokens: &[Token]) -> Vec<String> {
    tokens.iter().map(|t| t.token.token_type().to_string()).collect()
}

fn places(tokens: &[Token]) -> Vec<(usize, usize)> {
    tokens.iter().map(|t| (t.position.row(), t.position.column())).collect()
}

#[test]
fn glued_operator_splits_into_three_tokens() {
    let tokens = tokens_of(&["x+1"]);
    assert_eq!(texts(&tokens), vec!["x", "+", "1"]);
    assert_eq!(kinds(&tokens), vec!["Name", "Control", "num"]);
    assert!(matches!(tokens[0].token, TokenTypes::Name(_)));
    assert!(matches!(tokens[1].token, TokenTypes::Control(ControlVariants::Plus)));
    assert!(matches!(tokens[2].token, TokenTypes::Number(_)));
    assert_eq!(places(&tokens), vec![(1, 2), (1, 3), (1, 4)]);
}

#[test]
fn string_literal_is_one_token_with_quotes() {
    let tokens = tokens_of(&["\"abc\""]);
    assert_eq!(tokens.len(), 1);
    assert!(matches!(tokens[0].token, TokenTypes::String(_)));
    assert_eq!(tokens[0].token.to_string(), "\"abc\"");
    assert_eq!(tokens[0].token.token_type(), "str");
    assert_eq!(places(&tokens), vec![(1, 6)]);
}

#[test]
fn unterminated_string_fails_at_the_opening_quote() {
    match tokenizer(&lines(&["\"abc"]), "test.nop") {
        Err(Failure::Compiler(e)) => {
            assert_eq!(e.error_type(), ErrorTypes::UnclosedString);
            assert_eq!(e.message(), "expected '\"', but found end of file");
            assert_eq!(e.position().file(), "test.nop");
            assert_eq!((e.position().row(), e.position().column()), (1, 2));
            assert_eq!(
                e.to_string(),
                "Unclosed String: expected '\"', but found end of file at test.nop:1:2"
            );
        }
        _ => panic!("expected an unclosed string"),
    }
}

#[test]
fn unterminated_string_on_a_later_line_points_there() {
    match tokenizer(&lines(&["num a = 1;", "  str s = \"never", "closed"]), "late.nop") {
        Err(Failure::Compiler(e)) => {
            assert_eq!(e.error_type(), ErrorTypes::UnclosedString);
            assert_eq!(e.position().to_string(), "late.nop:2:12");
        }
        _ => panic!("expected an unclosed string"),
    }
}

#[test]
fn every_word_and_single_symbol_alone_is_itself() {
    for text in CONTROLS.iter().chain(WORDS.iter()) {
        if CONTROLS.contains(text) && text.len() > 1 {
            continue;
        }
        let tokens = tokens_of(&[text]);
        assert_eq!(tokens.len(), 1, "{}", text);
        assert_eq!(tokens[0].token.to_string(), *text);
        let kind = if CONTROLS.contains(text) { "Control" } else { "Word" };
        assert_eq!(tokens[0].token.token_type(), kind);
        assert_eq!(places(&tokens), vec![(1, text.len() + 1)]);
    }
}

#[test]
fn symbols_of_two_characters_split_into_their_characters() {
    for text in CONTROLS.iter().filter(|t| t.len() == 2) {
        let tokens = tokens_of(&[text]);
        assert_eq!(texts(&tokens), vec![text[0..1].to_string(), text[1..2].to_string()]);
        assert_eq!(kinds(&tokens), vec!["Control", "Control"]);
        assert_eq!(places(&tokens), vec![(1, 2), (1, 3)]);
    }
    let tokens = tokens_of(&["a == b"]);
    assert_eq!(texts(&tokens), vec!["a", "=", "=", "b"]);
    assert_eq!(places(&tokens), vec![(1, 2), (1, 4), (1, 5), (1, 7)]);
}

#[test]
fn quoted_symbol_is_that_symbol() {
    let tokens = tokens_of(&["\"<=\" \"num\" \"+\""]);
    assert!(matches!(tokens[0].token, TokenTypes::Control(ControlVariants::LessEqual)));
    assert!(matches!(tokens[1].token, TokenTypes::Word(WordVariants::Num)));
    assert!(matches!(tokens[2].token, TokenTypes::Control(ControlVariants::Plus)));
    assert_eq!(texts(&tokens), vec!["<=", "num", "+"]);
}

#[test]
fn tokens_read_back_from_their_canonical_text() {
    let source = [
        "num total = 12.5 + 3;",
        "str greeting = \"hello world\";",
        "bool ok = true; if ok { print(greeting, total); }",
        "x+1 \"+\" \"\" value_2 ünï",
    ];
    let tokens = tokens_of(&source);
    assert!(tokens.len() > 30);
    for token in tokens.iter() {
        let text = token.token.to_string();
        let again = tokens_of(&[text.as_str()]);
        assert_eq!(again.len(), 1, "{}", text);
        assert_eq!(again[0].token.to_string(), text);
        assert_eq!(again[0].token.token_type(), token.token.token_type());
        assert_eq!(again[0].position.row(), 1);
        assert_eq!(again[0].position.column(), text.len() + 1);
    }
}

#[test]
fn white_space_completes_a_token_at_its_own_column() {
    let tokens = tokens_of(&["ab  cd\tef"]);
    assert_eq!(texts(&tokens), vec!["ab", "cd", "ef"]);
    assert_eq!(places(&tokens), vec![(1, 3), (1, 7), (1, 10)]);
}

#[test]
fn end_of_line_completes_a_token_one_past_the_line() {
    let tokens = tokens_of(&["ab", "", "  cde"]);
    assert_eq!(texts(&tokens), vec!["ab", "cde"]);
    assert_eq!(places(&tokens), vec![(1, 3), (3, 6)]);
}

#[test]
fn empty_source_has_no_tokens() {
    assert_eq!(tokens_of(&[]).len(), 0);
    assert_eq!(tokens_of(&["", "   ", "\t"]).len(), 0);
}

#[test]
fn word_at_the_start_of_an_identifier_is_split_off() {
    let tokens = tokens_of(&["number format iffy"]);
    assert_eq!(texts(&tokens), vec!["num", "ber", "for", "mat", "if", "fy"]);
    assert_eq!(kinds(&tokens), vec!["Word", "Name", "Word", "Name", "Word", "Name"]);
    assert_eq!(places(&tokens), vec![(1, 4), (1, 7), (1, 11), (1, 14), (1, 17), (1, 19)]);
}

#[test]
fn word_inside_an_identifier_stays() {
    let tokens = tokens_of(&["xnum enum"]);
    assert_eq!(texts(&tokens), vec!["xnum", "enum"]);
    assert_eq!(kinds(&tokens), vec!["Name", "Name"]);
}

#[test]
fn text_that_is_no_number_is_an_identifier() {
    let tokens = tokens_of(&["1.2.3 12ab 1e5 1e 0x10 .5 5. inf NaN"]);
    assert_eq!(
        kinds(&tokens),
        vec!["Name", "Name", "num", "Name", "Name", "num", "num", "num", "num"]
    );
}

#[test]
fn sign_is_a_token_of_its_own() {
    let tokens = tokens_of(&["-1 1e+5"]);
    assert_eq!(texts(&tokens), vec!["-", "1", "1e", "+", "5"]);
    assert_eq!(kinds(&tokens), vec!["Control", "num", "Name", "Control", "num"]);
}

#[test]
fn booleans_are_told_from_identifiers() {
    let tokens = tokens_of(&["true false True truefalse"]);
    assert_eq!(kinds(&tokens), vec!["bool", "bool", "Name", "Name"]);
    assert!(matches!(tokens[0].token, TokenTypes::Boolean(_)));
    assert_eq!(tokens[1].token.to_string(), "false");
}

#[test]
fn string_keeps_white_space_and_symbols() {
    let tokens = tokens_of(&["s = \"a + b ; {\";"]);
    assert_eq!(texts(&tokens), vec!["s", "=", "\"a + b ; {\"", ";"]);
    assert_eq!(kinds(&tokens), vec!["Name", "Control", "str", "Control"]);
    assert_eq!(places(&tokens), vec![(1, 2), (1, 4), (1, 16), (1, 17)]);
}

#[test]
fn empty_string_is_a_token() {
    let tokens = tokens_of(&["\"\""]);
    assert_eq!(texts(&tokens), vec!["\"\""]);
    assert_eq!(kinds(&tokens), vec!["str"]);
    assert_eq!(places(&tokens), vec![(1, 3)]);
}

#[test]
fn string_runs_over_line_ends() {
    let tokens = tokens_of(&["\"ab", "cd\" x"]);
    assert_eq!(texts(&tokens), vec!["\"abcd\"", "x"]);
    assert_eq!(places(&tokens), vec![(2, 4), (2, 6)]);
}

#[test]
fn text_before_a_quote_joins_the_string() {
    let tokens = tokens_of(&["abc\"def\""]);
    assert_eq!(texts(&tokens), vec!["\"abcdef\""]);
    assert_eq!(kinds(&tokens), vec!["str"]);
    assert_eq!(places(&tokens), vec![(1, 9)]);
}

#[test]
fn columns_count_bytes() {
    let tokens = tokens_of(&["é+ü \"ß\" 越"]);
    assert_eq!(texts(&tokens), vec!["é", "+", "ü", "\"ß\"", "越"]);
    assert_eq!(places(&tokens), vec![(1, 3), (1, 4), (1, 6), (1, 11), (1, 15)]);
}

#[test]
fn unicode_white_space_separates() {
    let tokens = tokens_of(&["a\u{a0}b\u{2003}c\u{3000}d"]);
    assert_eq!(texts(&tokens), vec!["a", "b", "c", "d"]);
    assert_eq!(places(&tokens), vec![(1, 2), (1, 5), (1, 9), (1, 13)]);
}

#[test]
fn statement_is_tokenized_in_order() {
    let tokens = tokens_of(&["num n = 1;"]);
    assert_eq!(texts(&tokens), vec!["num", "n", "=", "1", ";"]);
    assert_eq!(kinds(&tokens), vec!["Word", "Name", "Control", "num", "Control"]);
    assert_eq!(places(&tokens), vec![(1, 4), (1, 6), (1, 8), (1, 10), (1, 11)]);
    for token in tokens.iter() {
        assert_eq!(token.position.file(), "test.nop");
    }
}

#[test]
fn ordinary_lines_can_be_tokenized() {
    assert!(can_tokenize(&lines(&[])));
    assert!(can_tokenize(&lines(&["", "num n = 1;", "ünï \"x\""])));
}

#[test]
fn long_line_is_tokenized() {
    let mut line = String::new();
    for k in 0..50_000 {
        line.push_str("name");
        line.push_str(&k.to_string());
        line.push_str(" = \"text\" ; ");
    }
    let tokens = tokens_of(&[line.as_str()]);
    assert_eq!(tokens.len(), 200_000);
    assert_eq!(tokens[199_996].token.to_string(), "name49999");
    assert_eq!(tokens[199_998].token.to_string(), "\"text\"");
    assert_eq!(tokens[199_999].position.column(), line.len());
}

#[test]
fn long_string_runs_over_many_lines() {
    let mut source: Vec<String> = vec!["\"".to_string()];
    for _ in 0..2_000 {
        source.push("ab cd".to_string());
    }
    source.push("\" end".to_string());
    let tokens = match tokenizer(&source, "test.nop") {
        Ok(tokens) => tokens,
        Err(e) => panic!("unexpected failure: {}", e.to_string()),
    };
    assert_eq!(tokens.len(), 2);
    assert_eq!(tokens[0].token.to_string().len(), 2 + 5 * 2_000);
    assert_eq!(places(&tokens), vec![(2_002, 2), (2_002, 6)]);
}
