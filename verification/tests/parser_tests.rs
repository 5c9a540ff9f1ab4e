use ops::parser::Scope;
use ops::tokenizer::tokenizer;
use ops::CompilerError;
use ops::ErrorTypes;
use ops::Failure;
use ops::Token;

fn tokens_of(source: &str) -> Vec<Token> {
    let lines: Vec<String> = source.lines().map(|l| l.to_string()).collect();
    match tokenizer(&lines, "p.nop") {
        Ok(tokens) => tokens,
        Err(e) => panic!("unexpected failure: {}", e.to_string()),
    }
}

fn parse(source: &str) -> (Scope, Result<(), CompilerError>) {
    let mut scope = Scope::new();
    let result = match scope.parse_block(tokens_of(source)) {
        Ok(()) => Ok(()),
        Err(Failure::Compiler(e)) => Err(e),
        Err(Failure::Plain(m)) => panic!("plain failure: {}", m),
    };
    (scope, result)
}

fn failure_of(source: &str) -> (ErrorTypes, String, usize, usize) {
    match parse(source).1 {
        Ok(()) => panic!("expected a failure of {:?}", source),
        Err(e) => (
            e.error_type(),
            e.message().to_string(),
            e.position().row(),
            e.position().column(),
        ),
    }
}

fn fails(source: &str, kind: ErrorTypes, message: &str, row: usize, column: usize) {
    assert_eq!(failure_of(source), (kind, message.to_string(), row, column), "{:?}", source);
}

fn value_of(scope: &Scope, name: &str) -> Option<(String, String)> {
    scope.variable(name).map(|v| (v.var_type().to_string(), v.value().to_string()))
}

fn variable(var_type: &str, value: &str) -> Option<(String, String)> {
    Some((var_type.to_string(), value.to_string()))
}

#[test]
fn string_for_a_number_is_a_type_mismatch() {
    fails(
        "num n = \"x\";",
        ErrorTypes::MismatchedTypes,
        "expected num-type but found a str-type",
        1,
        6,
    );
    fails(
        "{ num n = \"x\"; };",
        ErrorTypes::MismatchedTypes,
        "expected num-type but found a str-type",
        1,
        8,
    );
    let (scope, result) = parse("num n = \"x\";");
    assert_eq!(
        result.unwrap_err().to_string(),
        "Mismatched Types: expected num-type but found a str-type at p.nop:1:6"
    );
    assert_eq!(value_of(&scope, "n"), variable("num", ""));
}

#[test]
fn block_in_braces_without_its_semicolon_is_unclosed() {
    fails(
        "{ num n = \"x\"; }",
        ErrorTypes::UnclosedStatement,
        "expected ';', but found end of block",
        1,
        2,
    );
}

#[test]
fn unmatched_close_is_an_unexpected_symbol() {
    fails("}", ErrorTypes::UnexpectedSymbol, "no opened block to close", 1, 2);
    fails("num a = 1; } num b = 2;", ErrorTypes::UnexpectedSymbol, "no opened block to close", 1, 13);
    fails("{ } } ;", ErrorTypes::UnexpectedSymbol, "no opened block to close", 1, 6);
    fails("{ { } } } { ;", ErrorTypes::UnexpectedSymbol, "no opened block to close", 1, 10);
    fails("{ a } { b };", ErrorTypes::UnexpectedSymbol, "no opened block to close", 1, 6);
}

#[test]
fn unmatched_close_is_found_before_anything_is_declared() {
    let (scope, result) = parse("num a = 1; }");
    assert_eq!(result.unwrap_err().error_type(), ErrorTypes::UnexpectedSymbol);
    assert!(scope.variable("a").is_none());
    assert_eq!(scope.variables().len(), 0);
}

#[test]
fn last_statement_without_semicolon_is_unclosed() {
    fails("num a = 1", ErrorTypes::UnclosedStatement, "expected ';', but found end of block", 1, 4);
    fails(
        "num a = 1; num b = 2",
        ErrorTypes::UnclosedStatement,
        "expected ';', but found end of block",
        1,
        15,
    );
    fails("x", ErrorTypes::UnclosedStatement, "expected ';', but found end of block", 1, 2);
    fails(
        "num a = 1;\n{ num b = 2; }",
        ErrorTypes::UnclosedStatement,
        "expected ';', but found end of block",
        2,
        2,
    );
    fails("{ ;", ErrorTypes::UnclosedStatement, "expected ';', but found end of block", 1, 2);
}

#[test]
fn unclosed_statement_is_found_before_anything_is_declared() {
    let (scope, result) = parse("num a = 1; num b = 2");
    assert_eq!(result.unwrap_err().error_type(), ErrorTypes::UnclosedStatement);
    assert_eq!(scope.variables().len(), 0);
}

#[test]
fn unmatched_close_comes_before_unclosed_statement() {
    fails("} x", ErrorTypes::UnexpectedSymbol, "no opened block to close", 1, 2);
}

#[test]
fn outer_variable_is_unknown_in_a_nested_block() {
    fails(
        "num n = 1; { n = 2; };",
        ErrorTypes::UnexpectedSymbol,
        "expected a variable name, but found no 'n' in this scope",
        1,
        15,
    );
    let (scope, result) = parse("num n = 1; { n = 2; };");
    assert!(result.is_err());
    assert_eq!(value_of(&scope, "n"), variable("num", "1"));
}

#[test]
fn nested_block_leaves_nothing_behind() {
    let (scope, result) = parse("num n = 1; { str inner = \"x\"; num n = 5; }; n = 2;");
    assert!(result.is_ok());
    assert_eq!(value_of(&scope, "n"), variable("num", "2"));
    assert!(scope.variable("inner").is_none());
    assert_eq!(scope.variables().len(), 1);
}

#[test]
fn nested_blocks_are_parsed_to_any_depth() {
    let (scope, result) = parse("{ { { num deep = 1; deep = 2; }; }; }; { };");
    assert!(result.is_ok());
    assert_eq!(scope.variables().len(), 0);
    fails(
        "{ { { num deep = true; }; }; };",
        ErrorTypes::MismatchedTypes,
        "expected num-type but found a bool-type",
        1,
        15,
    );
}

#[test]
fn empty_block_is_fine() {
    let (scope, result) = parse("");
    assert!(result.is_ok());
    assert_eq!(scope.variables().len(), 0);
    assert!(parse(";").1.is_ok());
    assert!(parse(";;; ;").1.is_ok());
    assert!(parse("{ };").1.is_ok());
    assert!(parse("{ ; ; };").1.is_ok());
}

#[test]
fn declarations_store_the_text_of_the_expression() {
    let (scope, result) = parse(
        "num a = 1;\nstr s = \"hi there\";\nbool b = true;\nnum sum = 1 + 2 * 3;\nstr t = \"a\" + \"b\";",
    );
    assert!(result.is_ok());
    assert_eq!(value_of(&scope, "a"), variable("num", "1"));
    assert_eq!(value_of(&scope, "s"), variable("str", "\"hi there\""));
    assert_eq!(value_of(&scope, "b"), variable("bool", "true"));
    assert_eq!(value_of(&scope, "sum"), variable("num", "1 + 2 * 3"));
    assert_eq!(value_of(&scope, "t"), variable("str", "\"a\" + \"b\""));
    assert!(scope.variable("missing").is_none());
    let mut names: Vec<&str> = scope.variables().iter().map(|v| v.name()).collect();
    names.sort();
    assert_eq!(names, vec!["a", "b", "s", "sum", "t"]);
    let a = scope.variable("a").unwrap();
    assert_eq!(a.name(), "a");
    assert_eq!(a.position().to_string(), "p.nop:1:6");
    assert_eq!(
        a.debug_string(),
        "Variable { 'a' at p.nop:1:6 with type num and value '1' }"
    );
}

#[test]
fn assignment_overwrites_the_value() {
    let (scope, result) = parse("num a = 1; a = 2 - 1; a = 7;");
    assert!(result.is_ok());
    assert_eq!(value_of(&scope, "a"), variable("num", "7"));
    assert_eq!(scope.variables().len(), 1);
    assert_eq!(scope.variable("a").unwrap().position().to_string(), "p.nop:1:6");
}

#[test]
fn declaring_again_replaces_the_variable() {
    let (scope, result) = parse("num a = 1; str b = \"x\"; str a = \"now text\";");
    assert!(result.is_ok());
    assert_eq!(value_of(&scope, "a"), variable("str", "\"now text\""));
    assert_eq!(scope.variables().len(), 2);
    assert_eq!(scope.variable("a").unwrap().position().to_string(), "p.nop:1:30");
}

#[test]
fn assignment_of_another_type_is_a_mismatch() {
    fails(
        "num a = 1; a = true;",
        ErrorTypes::MismatchedTypes,
        "expected num-type but found a bool-type",
        1,
        13,
    );
    fails(
        "bool b = 1;",
        ErrorTypes::MismatchedTypes,
        "expected bool-type but found a num-type",
        1,
        7,
    );
    fails(
        "str s = 1, 2;",
        ErrorTypes::MismatchedTypes,
        "expected str-type but found a num, num-type",
        1,
        6,
    );
    let (scope, _) = parse("num a = 1; a = true;");
    assert_eq!(value_of(&scope, "a"), variable("num", "1"));
}

#[test]
fn assignment_to_an_unknown_name_is_an_unexpected_symbol() {
    fails(
        "x = 1;",
        ErrorTypes::UnexpectedSymbol,
        "expected a variable name, but found no 'x' in this scope",
        1,
        2,
    );
}

#[test]
fn unknown_name_is_reported_before_its_expression_is_looked_at() {
    fails(
        "x = y;",
        ErrorTypes::UnexpectedSymbol,
        "expected a variable name, but found no 'x' in this scope",
        1,
        2,
    );
    fails(
        "x = ;",
        ErrorTypes::UnexpectedSymbol,
        "expected a variable name, but found no 'x' in this scope",
        1,
        2,
    );
    fails(
        "x = 1 + true;",
        ErrorTypes::UnexpectedSymbol,
        "expected a variable name, but found no 'x' in this scope",
        1,
        2,
    );
}

#[test]
fn assignment_without_expression_is_invalid() {
    fails(
        "num a = ;",
        ErrorTypes::InvalidStatement,
        "expected an expression, but found nothing",
        1,
        8,
    );
    fails(
        "num a = 1; a = ;",
        ErrorTypes::InvalidStatement,
        "expected an expression, but found nothing",
        1,
        15,
    );
    let (scope, _) = parse("num a = ;");
    assert_eq!(value_of(&scope, "a"), variable("num", ""));
}

#[test]
fn declaration_asks_for_a_name_and_a_sign() {
    fails("num ;", ErrorTypes::InvalidStatement, "expected a name but found nothing", 1, 4);
    fails("str 5 = 1;", ErrorTypes::InvalidStatement, "expected a name but found '5'", 1, 6);
    fails("bool num = 1;", ErrorTypes::InvalidStatement, "expected a name but found 'num'", 1, 9);
    fails(
        "num \"n\" = 1;",
        ErrorTypes::InvalidStatement,
        "expected a name but found '\"n\"'",
        1,
        8,
    );
    fails("num a;", ErrorTypes::InvalidStatement, "expected '=' but found nothing", 1, 6);
    fails("num a 1;", ErrorTypes::InvalidStatement, "expected '=' but found '1'", 1, 8);
    fails("num a ( 1 );", ErrorTypes::InvalidStatement, "expected '=' but found '('", 1, 8);
    let (scope, _) = parse("num a 1;");
    assert!(scope.variable("a").is_none());
}

#[test]
fn name_asks_for_a_sign_or_a_parenthesis() {
    fails("x;", ErrorTypes::InvalidStatement, "expected '=' but found nothing", 1, 2);
    fails("x y;", ErrorTypes::InvalidStatement, "expected '=' but found 'y'", 1, 4);
    fails("x + 1;", ErrorTypes::InvalidStatement, "expected '=' but found '+'", 1, 4);
    fails("x [ 1 ];", ErrorTypes::InvalidStatement, "expected '=' but found '['", 1, 4);
}

#[test]
fn call_checks_its_parameters_and_calls_nothing() {
    assert!(parse("print(1);").1.is_ok());
    assert!(parse("print(\"a\", 1, true);").1.is_ok());
    assert!(parse("unknown(1 + 2);").1.is_ok());
    assert!(parse("print(1 2;").1.is_ok());
    let (scope, _) = parse("print(1);");
    assert_eq!(scope.variables().len(), 0);
    fails(
        "print(x);",
        ErrorTypes::InvalidStatement,
        "expected literal but found 'x'",
        1,
        8,
    );
    fails(
        "print(1 +);",
        ErrorTypes::InvalidStatement,
        "expected expression but found '1+'",
        1,
        10,
    );
    fails(
        "print(1 + \"a\");",
        ErrorTypes::MismatchedTypes,
        "expected num-type but found str-type",
        1,
        14,
    );
}

#[test]
fn call_without_parameters_is_invalid() {
    fails(
        "print();",
        ErrorTypes::InvalidStatement,
        "expected function parameters, but found nothing",
        1,
        7,
    );
    fails(
        "print(;",
        ErrorTypes::InvalidStatement,
        "expected function parameters, but found nothing",
        1,
        7,
    );
    fails(
        "print(1;",
        ErrorTypes::InvalidStatement,
        "expected function parameters, but found nothing",
        1,
        7,
    );
}

#[test]
fn literal_statement_is_an_expression() {
    assert!(parse("1;").1.is_ok());
    assert!(parse("\"text\";").1.is_ok());
    assert!(parse("true;").1.is_ok());
    assert!(parse("1 + 2;").1.is_ok());
    assert!(parse("1 , true , \"x\";").1.is_ok());
    fails("1 2;", ErrorTypes::InvalidStatement, "expected expression but found '12'", 1, 4);
    fails("1 + x;", ErrorTypes::InvalidStatement, "expected literal but found 'x'", 1, 6);
    fails(
        "1 + true;",
        ErrorTypes::MismatchedTypes,
        "expected num-type but found bool-type",
        1,
        9,
    );
}

#[test]
fn expression_is_folded_from_the_right() {
    let (scope, result) = parse("num a = 1 + 2 - 3 / 4;");
    assert!(result.is_ok());
    assert_eq!(value_of(&scope, "a"), variable("num", "1 + 2 - 3 / 4"));
    let (scope, result) = parse("bool b = true < false;");
    assert!(result.is_ok());
    assert_eq!(value_of(&scope, "b"), variable("bool", "true < false"));
    let (scope, result) = parse("num c = 1 2 3;");
    assert!(result.is_ok());
    assert_eq!(value_of(&scope, "c"), variable("num", "1 2 3"));
    fails(
        "num d = 1 + 2 , 3;",
        ErrorTypes::MismatchedTypes,
        "expected num-type but found num, num-type",
        1,
        18,
    );
    fails(
        "num e = 1 , 2 + 3;",
        ErrorTypes::MismatchedTypes,
        "expected num-type but found a num, num-type",
        1,
        6,
    );
    fails(
        "num f = 1 + 2 +;",
        ErrorTypes::InvalidStatement,
        "expected expression but found '1+2+'",
        1,
        16,
    );
    fails(
        "num g = 1 + + 2;",
        ErrorTypes::InvalidStatement,
        "expected expression but found '1++2'",
        1,
        16,
    );
}

#[test]
fn statement_cannot_start_with_a_symbol_or_other_word() {
    fails("+ 1;", ErrorTypes::UnexpectedSymbol, "cannot start statement with '+'", 1, 2);
    fails("if true;", ErrorTypes::UnexpectedSymbol, "cannot start statement with 'if'", 1, 3);
    fails("func f;", ErrorTypes::UnexpectedSymbol, "cannot start statement with 'func'", 1, 5);
    fails("( 1 );", ErrorTypes::UnexpectedSymbol, "cannot start statement with '('", 1, 2);
    fails("= 1;", ErrorTypes::UnexpectedSymbol, "cannot start statement with '='", 1, 2);
}

#[test]
fn brace_that_opens_a_statement_must_close_it() {
    fails("{ num a = 1; } x;", ErrorTypes::UnclosedBlock, "expected '}', but encountered ';'", 1, 2);
    fails("{ } 1;", ErrorTypes::UnclosedBlock, "expected '}', but encountered ';'", 1, 2);
}

#[test]
fn first_failing_statement_ends_the_parse() {
    let (scope, result) = parse("num a = 1; num b = true; num c = 3;");
    let e = result.unwrap_err();
    assert_eq!(e.error_type(), ErrorTypes::MismatchedTypes);
    assert_eq!(e.position().to_string(), "p.nop:1:17");
    assert_eq!(value_of(&scope, "a"), variable("num", "1"));
    assert_eq!(value_of(&scope, "b"), variable("num", ""));
    assert!(scope.variable("c").is_none());
}

#[test]
fn semicolon_in_a_nested_block_ends_no_outer_statement() {
    let (scope, result) = parse("{ num a = 1; num b = 2; }; num c = 3;");
    assert!(result.is_ok());
    assert_eq!(scope.variables().len(), 1);
    assert_eq!(value_of(&scope, "c"), variable("num", "3"));
}

#[test]
fn scope_can_parse_block_after_block() {
    let mut scope = Scope::new();
    assert!(scope.parse_block(tokens_of("num a = 1;")).is_ok());
    assert!(scope.parse_block(tokens_of("a = 2; num b = 3;")).is_ok());
    assert_eq!(value_of(&scope, "a"), variable("num", "2"));
    assert_eq!(value_of(&scope, "b"), variable("num", "3"));
}

#[test]
fn deep_nesting_and_long_expressions_are_parsed() {
    let mut source = String::new();
    for _ in 0..500 {
        source.push_str("{ ");
    }
    source.push_str("num n = 1");
    for _ in 0..2_000 {
        source.push_str(" + 1");
    }
    source.push_str("; ");
    for _ in 0..500 {
        source.push_str("}; ");
    }
    let (scope, result) = parse(&source);
    assert!(result.is_ok());
    assert_eq!(scope.variables().len(), 0);
}

#[test]
fn new_scope_has_print_and_no_variables() {
    let scope = Scope::new();
    assert_eq!(scope.variables().len(), 0);
    assert!(scope.variable("print").is_none());
    let print = scope.function("print").unwrap();
    assert_eq!(print.name(), "print");
    assert_eq!(print.expression(), "print");
    assert_eq!(print.parameter().len(), 0);
    assert_eq!(print.position().to_string(), "<builtin>:0:0");
    assert!(scope.function("println").is_none());
    assert!(scope.function("").is_none());
}

#[test]
fn parsing_leaves_the_functions_as_they_are() {
    let (scope, result) = parse("num print = 1; print(2); print = 3;");
    assert!(result.is_ok());
    assert_eq!(value_of(&scope, "print"), variable("num", "3"));
    assert_eq!(scope.function("print").unwrap().name(), "print");
}
