use clue::parser::{ComplexToken, Expression, ParseTokens};
use clue::scanner::scan_tokens;
use clue::token::Token;
use clue::token::TokenType::{IDENTIFIER, PLUS};

fn toks(src: &str) -> Vec<Token> {
    let v: Vec<char> = src.chars().collect();
    let (toks, diags) = scan_tokens(&v);
    assert_eq!(diags.len(), 0, "scan of {src} must be clean");
    toks
}

fn parse(src: &str) -> Result<Vec<ComplexToken>, String> {
    ParseTokens(toks(src), String::from("test"))
}

fn call_of(r: Result<Vec<ComplexToken>, String>) -> (Expression, Vec<Expression>, usize) {
    let mut v = r.expect("expected a successful parse");
    assert_eq!(v.len(), 1);
    match v.remove(0) {
        ComplexToken::CALL { name, args, line } => (name, args, line),
        other => panic!("expected a call, got {other:?}"),
    }
}

#[test]
fn empty_argument_list_is_legal() {
    let (name, args, _) = call_of(parse("f()"));
    assert_eq!(args.len(), 0);
    match &name.tokens[0] {
        ComplexToken::VALUE { value, kind, .. } => {
            assert_eq!(value, "f");
            assert_eq!(*kind, IDENTIFIER);
        },
        other => panic!("unexpected callee {other:?}"),
    }
}

#[test]
fn trailing_empty_argument_is_an_error() {
    let err = parse("f(a,)").unwrap_err();
    assert_eq!(err, "Error in file \"test\" at line [1]!\nInvalid empty function argument found.");
}

#[test]
fn nested_call_arguments_split_on_top_level_commas() {
    let (_, args, _) = call_of(parse("f(a,g(b,c),d)"));
    assert_eq!(args.len(), 3);
    // the middle argument holds the nested call with its own two arguments
    assert_eq!(args[1].tokens.len(), 1);
    match &args[1].tokens[0] {
        ComplexToken::CALL { name, args: inner, .. } => {
            match &name.tokens[0] {
                ComplexToken::VALUE { value, .. } => assert_eq!(value, "g"),
                other => panic!("unexpected callee {other:?}"),
            }
            assert_eq!(inner.len(), 2);
        },
        other => panic!("expected nested call, got {other:?}"),
    }
}

#[test]
fn single_and_multiple_plain_arguments() {
    let (_, args, _) = call_of(parse("f(a)"));
    assert_eq!(args.len(), 1);
    let (_, args, _) = call_of(parse("f(a,b)"));
    assert_eq!(args.len(), 2);
    let (_, args, _) = call_of(parse("f(1 + 2)"));
    assert_eq!(args.len(), 1);
    assert_eq!(args[0].tokens.len(), 3);
    match &args[0].tokens[1] {
        ComplexToken::CHAR { kind, .. } => assert_eq!(*kind, PLUS),
        other => panic!("expected operator marker, got {other:?}"),
    }
}

#[test]
fn unclosed_call_is_an_error() {
    let err = parse("f(a").unwrap_err();
    assert_eq!(
        err,
        "Error in file \"test\" at line [1]!\nExpected token ')' before '<eof>'."
    );
}

#[test]
fn operator_at_expression_edges() {
    let err = parse("f(+a)").unwrap_err();
    assert_eq!(
        err,
        "Error in file \"test\" at line [1]!\nOperator '+' not expected at the start of expression."
    );
    let err = parse("f(a+)").unwrap_err();
    assert_eq!(
        err,
        "Error in file \"test\" at line [1]!\nOperator '+' not expected at the end of expression."
    );
}

#[test]
fn booleans_cannot_be_operated_on() {
    let err = parse("f(true + 1)").unwrap_err();
    assert_eq!(
        err,
        "Error in file \"test\" at line [1]!\nOperator '+' cannot operate with booleans."
    );
    let err = parse("f(1 + false)").unwrap_err();
    assert_eq!(
        err,
        "Error in file \"test\" at line [1]!\nOperator '+' cannot operate with booleans."
    );
}

#[test]
fn operand_edges_must_be_value_shaped() {
    let err = parse("f(a , + 1)").unwrap_err();
    assert_eq!(
        err,
        "Error in file \"test\" at line [1]!\nOperator '+' not expected at the start of expression."
    );
}

#[test]
fn adjacent_literals_are_an_error() {
    // a literal follows the same rule as identifiers: accepted only at the
    // end of the slice or before an operator-shaped token
    let err = parse("f(1 2)").unwrap_err();
    assert_eq!(err, "Error in file \"test\" at line [1]!\nUnexpected token '1'.");
    let err = parse("f(true x)").unwrap_err();
    assert_eq!(err, "Error in file \"test\" at line [1]!\nUnexpected token 'true'.");
}

#[test]
fn unexpected_token_in_expression() {
    let err = parse("f(;)").unwrap_err();
    assert_eq!(err, "Error in file \"test\" at line [1]!\nUnexpected token ';'.");
}

#[test]
fn error_reports_the_right_line() {
    let err = parse("f(\n\na+)").unwrap_err();
    assert_eq!(
        err,
        "Error in file \"test\" at line [3]!\nOperator '+' not expected at the end of expression."
    );
}
