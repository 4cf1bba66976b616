use lexparse::ast::FunctionDeclaration;
use lexparse::parser::{parse_function_declaration, Parser};
use lexparse::token::Token;
use lexparse::tokenizer::tokenize;

#[test]
fn function_declr() {
    let tokens = tokenize("def main(foo) {}").unwrap();
    let mut parser = Parser::new(tokens);
    assert_eq!(
        parser.function_declaration().unwrap(),
        FunctionDeclaration {
            name: "main".to_string(),
            body: Vec::new(),
        }
    );
}

#[test]
fn parse_function_declaration_over_a_buffer() {
    let tokens = tokenize("def greet(name) {}").unwrap();
    let fd = parse_function_declaration(tokens).unwrap();
    assert_eq!(fd.name, "greet");
    assert!(fd.body.is_empty());
}

#[test]
fn missing_def_is_an_error() {
    let tokens = tokenize("main(foo) {}").unwrap();
    let mut parser = Parser::new(tokens);
    let err = parser.function_declaration().unwrap_err();
    assert_eq!(err.message, "Expected def");
}

#[test]
fn empty_token_stream_is_an_error() {
    let mut parser = Parser::new(Vec::new());
    let err = parser.function_declaration().unwrap_err();
    assert_eq!(err.message, "Expected def got EOF");
}

#[test]
fn missing_name_is_an_error() {
    let tokens = vec![Token::Def, Token::ParenLeft];
    let mut parser = Parser::new(tokens);
    let err = parser.function_declaration().unwrap_err();
    assert_eq!(err.message, "Expected identifier, but got ParenLeft");
}

#[test]
fn missing_left_paren_is_an_error() {
    let tokens = tokenize("def main) {}").unwrap();
    let mut parser = Parser::new(tokens);
    let err = parser.function_declaration().unwrap_err();
    assert_eq!(err.message, "Expected '(', but got ParenRight");
}

#[test]
fn missing_parameter_is_an_error() {
    let tokens = tokenize("def main() {}").unwrap();
    let mut parser = Parser::new(tokens);
    let err = parser.function_declaration().unwrap_err();
    assert_eq!(err.message, "Expected identifier, but got ParenRight");
}

#[test]
fn missing_right_paren_is_an_error() {
    let tokens = tokenize("def main(foo} {}").unwrap();
    let mut parser = Parser::new(tokens);
    let err = parser.function_declaration().unwrap_err();
    assert_eq!(err.message, "Expected ')', but got BraceRight");
}

#[test]
fn missing_left_brace_is_an_error() {
    let tokens = tokenize("def main(foo) }").unwrap();
    let mut parser = Parser::new(tokens);
    let err = parser.function_declaration().unwrap_err();
    assert_eq!(err.message, "Expected '{', but got BraceRight");
}

#[test]
fn missing_right_brace_is_an_error() {
    let tokens = tokenize("def main(foo) {").unwrap();
    let mut parser = Parser::new(tokens);
    let err = parser.function_declaration().unwrap_err();
    assert_eq!(err.message, "Expected '}', but got EOF");
}

#[test]
fn truncated_stream_without_eof_token_is_an_error() {
    let tokens = vec![
        Token::Def,
        Token::LowerIdentifier("main".to_string()),
        Token::ParenLeft,
        Token::LowerIdentifier("foo".to_string()),
        Token::ParenRight,
        Token::BraceLeft,
    ];
    let mut parser = Parser::new(tokens);
    let err = parser.function_declaration().unwrap_err();
    assert_eq!(err.message, "Expected '}', but got EOF");
}

#[test]
fn mismatched_payload_message_quotes_the_text() {
    let tokens = vec![Token::Def, Token::UpperIdentifier("Main".to_string())];
    let mut parser = Parser::new(tokens);
    let err = parser.function_declaration().unwrap_err();
    assert_eq!(err.message, "Expected identifier, but got UpperIdentifier(\"Main\")");
}

#[test]
fn parameter_is_consumed_but_not_retained() {
    let tokens = tokenize("def outer(inner) {}").unwrap();
    let mut parser = Parser::new(tokens);
    let fd = parser.function_declaration().unwrap();
    assert_eq!(fd.name, "outer");
    assert!(fd.body.is_empty());
}

#[test]
fn read_next_peeks_without_consuming() {
    let tokens = tokenize("def").unwrap();
    let parser = Parser::new(tokens);
    assert_eq!(parser.read_next("def").unwrap(), &Token::Def);
    assert_eq!(parser.read_next("def").unwrap(), &Token::Def);
}

#[test]
fn read_next_reports_exhaustion() {
    let parser = Parser::new(Vec::new());
    let err = parser.read_next("def").unwrap_err();
    assert_eq!(err.message, "Expected def, but got EOF");
}
