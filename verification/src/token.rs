//! The lexical vocabulary: tokens and their mathematical model.

use vstd::prelude::*;
use vstd::string::StringExecFns;

verus! {

/// An atomic lexical unit. Literal and identifier variants carry the text
/// they were lexed from; keywords, punctuators and delimiters carry nothing.
/// `EOF` marks the end of the token stream and appears exactly once, last.
#[derive(Debug, Eq, Clone)]
pub enum Token {
    // Literals
    IntegerLiteral(String),
    HexIntegerLiteral(String),
    StringLiteral(String),
    // Identifiers
    LowerIdentifier(String),
    UpperIdentifier(String),
    // Keywords
    Let,
    Def,
    // Punctuators
    Plus,
    Minus,
    Colon,
    Equal,
    // Delimiters
    ParenLeft,
    ParenRight,
    BraceLeft,
    BraceRight,
    // End of input
    EOF,
}

/// The model of a token: the same shape as `Token`, with each text payload
/// abstracted to its character sequence.
pub enum TokenModel {
    IntegerLiteral(Seq<char>),
    HexIntegerLiteral(Seq<char>),
    StringLiteral(Seq<char>),
    LowerIdentifier(Seq<char>),
    UpperIdentifier(Seq<char>),
    Let,
    Def,
    Plus,
    Minus,
    Colon,
    Equal,
    ParenLeft,
    ParenRight,
    BraceLeft,
    BraceRight,
    EOF,
}

impl View for Token {
    type V = TokenModel;

    open spec fn view(&self) -> TokenModel {
        match self {
            Token::IntegerLiteral(s) => TokenModel::IntegerLiteral(s@),
            Token::HexIntegerLiteral(s) => TokenModel::HexIntegerLiteral(s@),
            Token::StringLiteral(s) => TokenModel::StringLiteral(s@),
            Token::LowerIdentifier(s) => TokenModel::LowerIdentifier(s@),
            Token::UpperIdentifier(s) => TokenModel::UpperIdentifier(s@),
            Token::Let => TokenModel::Let,
            Token::Def => TokenModel::Def,
            Token::Plus => TokenModel::Plus,
            Token::Minus => TokenModel::Minus,
            Token::Colon => TokenModel::Colon,
            Token::Equal => TokenModel::Equal,
            Token::ParenLeft => TokenModel::ParenLeft,
            Token::ParenRight => TokenModel::ParenRight,
            Token::BraceLeft => TokenModel::BraceLeft,
            Token::BraceRight => TokenModel::BraceRight,
            Token::EOF => TokenModel::EOF,
        }
    }
}

impl DeepView for Token {
    type V = TokenModel;

    open spec fn deep_view(&self) -> TokenModel {
        self.view()
    }
}

/// The descriptive text `Token::describe` yields: the variant's name, with
/// the carried text quoted inside parentheses where there is one.
pub open spec fn token_text(t: TokenModel) -> Seq<char> {
    match t {
        TokenModel::IntegerLiteral(s) => "IntegerLiteral(\""@ + s + "\")"@,
        TokenModel::HexIntegerLiteral(s) => "HexIntegerLiteral(\""@ + s + "\")"@,
        TokenModel::StringLiteral(s) => "StringLiteral(\""@ + s + "\")"@,
        TokenModel::LowerIdentifier(s) => "LowerIdentifier(\""@ + s + "\")"@,
        TokenModel::UpperIdentifier(s) => "UpperIdentifier(\""@ + s + "\")"@,
        TokenModel::Let => "Let"@,
        TokenModel::Def => "Def"@,
        TokenModel::Plus => "Plus"@,
        TokenModel::Minus => "Minus"@,
        TokenModel::Colon => "Colon"@,
        TokenModel::Equal => "Equal"@,
        TokenModel::ParenLeft => "ParenLeft"@,
        TokenModel::ParenRight => "ParenRight"@,
        TokenModel::BraceLeft => "BraceLeft"@,
        TokenModel::BraceRight => "BraceRight"@,
        TokenModel::EOF => "EOF"@,
    }
}

/// Joins a variant name's opening, a payload, and the closing quote and
/// parenthesis into one description.
fn describe_with_payload(opening: &str, payload: &String) -> (r: String)
    ensures
        r@ == opening@ + payload@ + "\")"@,
{
    let r = String::from_str(opening);
    let r = r.concat(payload.as_str());
    let r = r.concat("\")");
    r
}

impl Token {
    /// The token's name together with the text it carries; used by the
    /// parser's error messages.
    pub fn describe(&self) -> (r: String)
        ensures
            r@ == token_text(self@),
    {
        match self {
            Token::IntegerLiteral(s) => describe_with_payload("IntegerLiteral(\"", s),
            Token::HexIntegerLiteral(s) => describe_with_payload("HexIntegerLiteral(\"", s),
            Token::StringLiteral(s) => describe_with_payload("StringLiteral(\"", s),
            Token::LowerIdentifier(s) => describe_with_payload("LowerIdentifier(\"", s),
            Token::UpperIdentifier(s) => describe_with_payload("UpperIdentifier(\"", s),
            Token::Let => String::from_str("Let"),
            Token::Def => String::from_str("Def"),
            Token::Plus => String::from_str("Plus"),
            Token::Minus => String::from_str("Minus"),
            Token::Colon => String::from_str("Colon"),
            Token::Equal => String::from_str("Equal"),
            Token::ParenLeft => String::from_str("ParenLeft"),
            Token::ParenRight => String::from_str("ParenRight"),
            Token::BraceLeft => String::from_str("BraceLeft"),
            Token::BraceRight => String::from_str("BraceRight"),
            Token::EOF => String::from_str("EOF"),
        }
    }
}

impl PartialEq for Token {
    /// Two tokens are equal when they are the same variant carrying the
    /// same text.
    fn eq(&self, other: &Token) -> (r: bool) {
        match (self, other) {
            (Token::IntegerLiteral(a), Token::IntegerLiteral(b)) => *a == *b,
            (Token::HexIntegerLiteral(a), Token::HexIntegerLiteral(b)) => *a == *b,
            (Token::StringLiteral(a), Token::StringLiteral(b)) => *a == *b,
            (Token::LowerIdentifier(a), Token::LowerIdentifier(b)) => *a == *b,
            (Token::UpperIdentifier(a), Token::UpperIdentifier(b)) => *a == *b,
            (Token::Let, Token::Let) => true,
            (Token::Def, Token::Def) => true,
            (Token::Plus, Token::Plus) => true,
            (Token::Minus, Token::Minus) => true,
            (Token::Colon, Token::Colon) => true,
            (Token::Equal, Token::Equal) => true,
            (Token::ParenLeft, Token::ParenLeft) => true,
            (Token::ParenRight, Token::ParenRight) => true,
            (Token::BraceLeft, Token::BraceLeft) => true,
            (Token::BraceRight, Token::BraceRight) => true,
            (Token::EOF, Token::EOF) => true,
            _ => false,
        }
    }
}

impl vstd::std_specs::cmp::PartialEqSpecImpl for Token {
    open spec fn obeys_eq_spec() -> bool {
        true
    }

    open spec fn eq_spec(&self, other: &Token) -> bool {
        self@ == other@
    }
}

} // verus!
