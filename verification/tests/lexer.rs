use lexparse::token::Token;
use lexparse::tokenizer::{tokenize, LexError, Tokenizer};

use Token::{BraceLeft, BraceRight, Def, HexIntegerLiteral, IntegerLiteral, Let, LowerIdentifier, ParenLeft, ParenRight, Plus, StringLiteral, UpperIdentifier, EOF};

#[test]
fn lib_def_main() {
    let tokens = tokenize(r#"def main"#).unwrap();
    assert_eq!(tokens, vec![Def, LowerIdentifier("main".to_string()), Token::EOF,])
}

#[test]
fn lib_integer() {
    let tokens = tokenize(r#"123 321"#).unwrap();
    assert_eq!(
        tokens,
        vec![
            IntegerLiteral("123".to_string()),
            IntegerLiteral("321".to_string()),
            EOF,
        ]
    )
}

#[test]
fn lib_hex_integer() {
    let tokens = tokenize(r#"0x123 0xe38182"#).unwrap();
    assert_eq!(
        tokens,
        vec![
            HexIntegerLiteral("0x123".to_string()),
            HexIntegerLiteral("0xe38182".to_string()),
            EOF,
        ]
    )
}

#[test]
fn tokenizer_def_main() {
    let mut tkz = Tokenizer::new(r#"def main(arg) {}"#);
    let mut tokens: Vec<Token> = Vec::new();
    while let Some(token) = tkz.next_token().unwrap() {
        tokens.push(token);
    }
    assert_eq!(
        tokens,
        vec![
            Def,
            LowerIdentifier("main".to_string()),
            ParenLeft,
            LowerIdentifier("arg".to_string()),
            ParenRight,
            BraceLeft,
            BraceRight,
            EOF,
        ]
    )
}

#[test]
fn tokenizer_integer() {
    let mut tkz = Tokenizer::new(r#"123 321"#);
    let mut tokens: Vec<Token> = Vec::new();
    while let Some(token) = tkz.next_token().unwrap() {
        tokens.push(token);
    }
    assert_eq!(
        tokens,
        vec![
            IntegerLiteral("123".to_string()),
            IntegerLiteral("321".to_string()),
            EOF,
        ]
    )
}

#[test]
fn tokenizer_hex_integer() {
    let mut tkz = Tokenizer::new(r#"0x123 0xe38182"#);
    let mut tokens: Vec<Token> = Vec::new();
    while let Some(token) = tkz.next_token().unwrap() {
        tokens.push(token);
    }
    assert_eq!(
        tokens,
        vec![
            HexIntegerLiteral("0x123".to_string()),
            HexIntegerLiteral("0xe38182".to_string()),
            EOF,
        ]
    )
}

#[test]
fn string() {
    let tokens = tokenize(r#""Hello, world""#).unwrap();
    assert_eq!(tokens, vec![StringLiteral("Hello, world".to_string()), EOF,])
}

#[test]
fn empty_input_is_only_eof() {
    assert_eq!(tokenize("").unwrap(), vec![EOF]);
}

#[test]
fn whitespace_only_is_only_eof() {
    assert_eq!(tokenize(" \t\r\n\u{a0}\u{3000}").unwrap(), vec![EOF]);
}

#[test]
fn keywords_are_reclassified() {
    assert_eq!(tokenize("def").unwrap(), vec![Def, EOF]);
    assert_eq!(
        tokenize("let x").unwrap(),
        vec![Let, LowerIdentifier("x".to_string()), EOF]
    );
}

#[test]
fn near_keywords_stay_identifiers() {
    assert_eq!(
        tokenize("defs de lets").unwrap(),
        vec![
            LowerIdentifier("defs".to_string()),
            LowerIdentifier("de".to_string()),
            LowerIdentifier("lets".to_string()),
            EOF,
        ]
    );
}

#[test]
fn upper_identifier() {
    assert_eq!(
        tokenize("Foo9 bar").unwrap(),
        vec![
            UpperIdentifier("Foo9".to_string()),
            LowerIdentifier("bar".to_string()),
            EOF,
        ]
    );
}

#[test]
fn identifier_takes_alphanumeric_run() {
    assert_eq!(
        tokenize("a1b2 c3").unwrap(),
        vec![
            LowerIdentifier("a1b2".to_string()),
            LowerIdentifier("c3".to_string()),
            EOF,
        ]
    );
}

#[test]
fn unicode_identifier_and_separator() {
    // Non-ASCII lowercase letters open identifiers; non-ASCII whitespace
    // separates them.
    let tokens = tokenize("\u{3b1}\u{3b2}\u{3000}b").unwrap();
    assert_eq!(
        tokens,
        vec![
            LowerIdentifier("\u{3b1}\u{3b2}".to_string()),
            LowerIdentifier("b".to_string()),
            EOF,
        ]
    );
}

#[test]
fn single_digit_integer() {
    assert_eq!(tokenize("5").unwrap(), vec![IntegerLiteral("5".to_string()), EOF]);
}

#[test]
fn plus_between_integers() {
    assert_eq!(
        tokenize("1+2").unwrap(),
        vec![
            IntegerLiteral("1".to_string()),
            Plus,
            IntegerLiteral("2".to_string()),
            EOF,
        ]
    );
}

#[test]
fn delimiters_stand_alone() {
    assert_eq!(tokenize("(){}").unwrap(), vec![ParenLeft, ParenRight, BraceLeft, BraceRight, EOF]);
}

#[test]
fn hex_digits_both_cases() {
    assert_eq!(
        tokenize("0xAbC").unwrap(),
        vec![HexIntegerLiteral("0xAbC".to_string()), EOF]
    );
}

#[test]
fn hex_prefix_without_digits() {
    // The digit run after `0x` may be empty; the literal is the bare prefix.
    assert_eq!(tokenize("0x").unwrap(), vec![HexIntegerLiteral("0x".to_string()), EOF]);
}

#[test]
fn string_followed_by_token() {
    assert_eq!(
        tokenize("\"ab\"c").unwrap(),
        vec![
            StringLiteral("ab".to_string()),
            LowerIdentifier("c".to_string()),
            EOF,
        ]
    );
}

#[test]
fn empty_string_literal() {
    assert_eq!(tokenize("\"\"").unwrap(), vec![StringLiteral("".to_string()), EOF]);
}

#[test]
fn invalid_radix_is_an_error() {
    assert_eq!(tokenize("0y5").unwrap_err(), LexError::InvalidRadix('y'));
}

#[test]
fn lone_zero_is_an_error() {
    assert_eq!(tokenize("0").unwrap_err(), LexError::UnterminatedHexLiteral);
}

#[test]
fn unterminated_string_is_an_error() {
    assert_eq!(tokenize("\"unterminated").unwrap_err(), LexError::UnterminatedString);
}

#[test]
fn unexpected_character_is_an_error() {
    assert_eq!(tokenize("abc %").unwrap_err(), LexError::UnexpectedCharacter('%'));
}

#[test]
fn error_after_valid_tokens() {
    // The first failure wins, however late it comes.
    assert_eq!(tokenize("def main 0z").unwrap_err(), LexError::InvalidRadix('z'));
}

#[test]
fn tokenizer_yields_nothing_after_eof() {
    let mut tkz = Tokenizer::new("x");
    assert_eq!(tkz.next_token().unwrap(), Some(LowerIdentifier("x".to_string())));
    assert_eq!(tkz.next_token().unwrap(), Some(EOF));
    assert_eq!(tkz.next_token().unwrap(), None);
    assert_eq!(tkz.next_token().unwrap(), None);
}

#[test]
fn describe_names_the_token() {
    assert_eq!(
        LowerIdentifier("main".to_string()).describe(),
        "LowerIdentifier(\"main\")"
    );
    assert_eq!(BraceRight.describe(), "BraceRight");
    assert_eq!(EOF.describe(), "EOF");
}
