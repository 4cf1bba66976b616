//! The parser: a recursive-descent recognizer over a lexed token buffer.
//!
//! The cursor is an explicit index into the buffer, so inspecting a token
//! (peeking) and advancing past it are separate, visible steps. The one
//! production recognized today is
//! `function_declaration := "def" LowerIdentifier "(" LowerIdentifier ")" "{" "}"`.

use vstd::prelude::*;
use vstd::string::StringExecFns;

pub mod parse_result;

use crate::ast::FunctionDeclaration;
use crate::token::{Token, TokenModel};
use parse_result::{
    eof_error, expected_eof_message, expected_got_message, mismatch_error, ParseError,
};

verus! {

/// Whether the seven tokens of a function declaration stand at `i` in `ts`.
pub open spec fn fn_decl_shape(ts: Seq<TokenModel>, i: int) -> bool {
    &&& i + 7 <= ts.len()
    &&& ts[i] == TokenModel::Def
    &&& ts[i + 1] matches TokenModel::LowerIdentifier(_)
    &&& ts[i + 2] == TokenModel::ParenLeft
    &&& ts[i + 3] matches TokenModel::LowerIdentifier(_)
    &&& ts[i + 4] == TokenModel::ParenRight
    &&& ts[i + 5] == TokenModel::BraceLeft
    &&& ts[i + 6] == TokenModel::BraceRight
}

/// The declared function's name: the text of the identifier after `def`.
pub open spec fn fn_decl_name(ts: Seq<TokenModel>, i: int) -> Seq<char> {
    ts[i + 1]->LowerIdentifier_0
}

/// The message of the first failure met while recognizing a function
/// declaration at `i`; meaningful exactly where `fn_decl_shape` fails.
pub open spec fn fn_decl_error(ts: Seq<TokenModel>, i: int) -> Seq<char> {
    if i >= ts.len() {
        "Expected def got EOF"@
    } else if ts[i] != TokenModel::Def {
        "Expected def"@
    } else if i + 1 >= ts.len() {
        expected_eof_message("identifier"@)
    } else if !(ts[i + 1] matches TokenModel::LowerIdentifier(_)) {
        expected_got_message("identifier"@, ts[i + 1])
    } else if i + 2 >= ts.len() {
        expected_eof_message("'('"@)
    } else if ts[i + 2] != TokenModel::ParenLeft {
        expected_got_message("'('"@, ts[i + 2])
    } else if i + 3 >= ts.len() {
        expected_eof_message("identifier"@)
    } else if !(ts[i + 3] matches TokenModel::LowerIdentifier(_)) {
        expected_got_message("identifier"@, ts[i + 3])
    } else if i + 4 >= ts.len() {
        expected_eof_message("')'"@)
    } else if ts[i + 4] != TokenModel::ParenRight {
        expected_got_message("')'"@, ts[i + 4])
    } else if i + 5 >= ts.len() {
        expected_eof_message("'{'"@)
    } else if ts[i + 5] != TokenModel::BraceLeft {
        expected_got_message("'{'"@, ts[i + 5])
    } else if i + 6 >= ts.len() {
        expected_eof_message("'}'"@)
    } else {
        expected_got_message("'}'"@, ts[i + 6])
    }
}

/// Recognizes one function declaration at the head of a lexed token
/// sequence: the entry point over a whole token buffer.
pub fn parse_function_declaration(tokens: Vec<Token>) -> (r: Result<
    FunctionDeclaration,
    ParseError,
>)
    ensures
        r is Ok <==> fn_decl_shape(tokens.deep_view(), 0),
        match r {
            Ok(fd) => fd.name@ == fn_decl_name(tokens.deep_view(), 0) && fd.body@ == Seq::<
                crate::ast::Expression,
            >::empty(),
            Err(e) => e.message@ == fn_decl_error(tokens.deep_view(), 0),
        },
{
    let mut parser = Parser::new(tokens);
    parser.function_declaration()
}

/// Where the cursor stands after recognizing a function declaration at `i`
/// fails: a missing `def` and an empty buffer are only peeked; an identifier
/// mismatch is peeked after what came before it was consumed; a delimiter
/// mismatch consumes the offending token; a buffer that runs out consumes
/// everything before the missing token. Meaningful exactly where
/// `fn_decl_shape` fails.
pub open spec fn fn_decl_err_cursor(ts: Seq<TokenModel>, i: int) -> int {
    if i >= ts.len() {
        i
    } else if ts[i] != TokenModel::Def {
        i
    } else if i + 1 >= ts.len() {
        i + 1
    } else if !(ts[i + 1] matches TokenModel::LowerIdentifier(_)) {
        i + 1
    } else if i + 2 >= ts.len() {
        i + 2
    } else if ts[i + 2] != TokenModel::ParenLeft {
        i + 3
    } else if i + 3 >= ts.len() {
        i + 3
    } else if !(ts[i + 3] matches TokenModel::LowerIdentifier(_)) {
        i + 3
    } else if i + 4 >= ts.len() {
        i + 4
    } else if ts[i + 4] != TokenModel::ParenRight {
        i + 5
    } else if i + 5 >= ts.len() {
        i + 5
    } else if ts[i + 5] != TokenModel::BraceLeft {
        i + 6
    } else if i + 6 >= ts.len() {
        i + 6
    } else {
        i + 7
    }
}

/// A one-token-lookahead parser over a lexed token buffer: the buffer and an
/// explicit cursor into it.
#[derive(Debug)]
pub struct Parser {
    tokens: Vec<Token>,
    pos: usize,
}

impl Parser {
    /// The models of the buffered tokens.
    pub closed spec fn toks(self) -> Seq<TokenModel> {
        self.tokens.deep_view()
    }

    /// Where the next token is read.
    pub closed spec fn cursor(self) -> int {
        self.pos as int
    }

    /// The cursor stands inside the buffer or at its end.
    pub closed spec fn wf(self) -> bool {
        self.pos <= self.tokens.len()
    }

    /// Opens a parser at the start of the token buffer.
    pub fn new(tokens: Vec<Token>) -> (p: Parser)
        ensures
            p.wf(),
            p.toks() == tokens.deep_view(),
            p.cursor() == 0,
    {
        Parser { tokens, pos: 0 }
    }

    /// Peeks the next token without consuming it; fails with an error naming
    /// `label` where the buffer has run out.
    pub fn read_next(&self, label: &str) -> (r: Result<&Token, ParseError>)
        requires
            self.wf(),
        ensures
            match r {
                Ok(t) => self.cursor() < self.toks().len() && t@ == self.toks()[self.cursor()],
                Err(e) => self.cursor() == self.toks().len() && e.message@
                    == expected_eof_message(label@),
            },
    {
        if self.pos < self.tokens.len() {
            Ok(&self.tokens[self.pos])
        } else {
            Err(eof_error(label))
        }
    }

    /// Consumes exactly one token and succeeds only where it equals
    /// `wanted`; the mismatch error names `label` and the token observed.
    fn expect_and_trash(&mut self, wanted: Token, label: &str) -> (r: Result<(), ParseError>)
        requires
            old(self).wf(),
        ensures
            final(self).wf(),
            final(self).toks() == old(self).toks(),
            match r {
                Ok(()) => {
                    &&& old(self).cursor() < old(self).toks().len()
                    &&& old(self).toks()[old(self).cursor()] == wanted@
                    &&& final(self).cursor() == old(self).cursor() + 1
                },
                Err(e) => {
                    if old(self).cursor() < old(self).toks().len() {
                        &&& old(self).toks()[old(self).cursor()] != wanted@
                        &&& e.message@ == expected_got_message(
                            label@,
                            old(self).toks()[old(self).cursor()],
                        )
                        &&& final(self).cursor() == old(self).cursor() + 1
                    } else {
                        &&& e.message@ == expected_eof_message(label@)
                        &&& final(self).cursor() == old(self).cursor()
                    }
                },
            },
    {
        if self.pos >= self.tokens.len() {
            return Err(eof_error(label));
        }
        let i = self.pos;
        self.pos = i + 1;
        let got = &self.tokens[i];
        if *got == wanted {
            Ok(())
        } else {
            Err(mismatch_error(label, got))
        }
    }

    /// Consumes one token that must be `(`.
    fn get_left_paren(&mut self) -> (r: Result<(), ParseError>)
        requires
            old(self).wf(),
        ensures
            final(self).wf(),
            final(self).toks() == old(self).toks(),
            match r {
                Ok(()) => {
                    &&& old(self).cursor() < old(self).toks().len()
                    &&& old(self).toks()[old(self).cursor()] == TokenModel::ParenLeft
                    &&& final(self).cursor() == old(self).cursor() + 1
                },
                Err(e) => {
                    if old(self).cursor() < old(self).toks().len() {
                        &&& old(self).toks()[old(self).cursor()] != TokenModel::ParenLeft
                        &&& e.message@ == expected_got_message(
                            "'('"@,
                            old(self).toks()[old(self).cursor()],
                        )
                        &&& final(self).cursor() == old(self).cursor() + 1
                    } else {
                        &&& e.message@ == expected_eof_message("'('"@)
                        &&& final(self).cursor() == old(self).cursor()
                    }
                },
            },
    {
        self.expect_and_trash(Token::ParenLeft, "'('")
    }

    /// Consumes one token that must be `)`.
    fn get_right_paren(&mut self) -> (r: Result<(), ParseError>)
        requires
            old(self).wf(),
        ensures
            final(self).wf(),
            final(self).toks() == old(self).toks(),
            match r {
                Ok(()) => {
                    &&& old(self).cursor() < old(self).toks().len()
                    &&& old(self).toks()[old(self).cursor()] == TokenModel::ParenRight
                    &&& final(self).cursor() == old(self).cursor() + 1
                },
                Err(e) => {
                    if old(self).cursor() < old(self).toks().len() {
                        &&& old(self).toks()[old(self).cursor()] != TokenModel::ParenRight
                        &&& e.message@ == expected_got_message(
                            "')'"@,
                            old(self).toks()[old(self).cursor()],
                        )
                        &&& final(self).cursor() == old(self).cursor() + 1
                    } else {
                        &&& e.message@ == expected_eof_message("')'"@)
                        &&& final(self).cursor() == old(self).cursor()
                    }
                },
            },
    {
        self.expect_and_trash(Token::ParenRight, "')'")
    }

    /// Peeks the next token, which must be a `LowerIdentifier`, and yields
    /// its text without consuming the token: the caller advances separately.
    fn get_lower_identifier(&self) -> (r: Result<String, ParseError>)
        requires
            self.wf(),
        ensures
            match r {
                Ok(name) => self.cursor() < self.toks().len() && self.toks()[self.cursor()]
                    == TokenModel::LowerIdentifier(name@),
                Err(e) => {
                    if self.cursor() < self.toks().len() {
                        &&& !(self.toks()[self.cursor()] matches TokenModel::LowerIdentifier(_))
                        &&& e.message@ == expected_got_message(
                            "identifier"@,
                            self.toks()[self.cursor()],
                        )
                    } else {
                        e.message@ == expected_eof_message("identifier"@)
                    }
                },
            },
    {
        if self.pos >= self.tokens.len() {
            return Err(eof_error("identifier"));
        }
        match &self.tokens[self.pos] {
            Token::LowerIdentifier(identifier) => Ok(identifier.clone()),
            token => Err(mismatch_error("identifier", token)),
        }
    }

    /// Recognizes `"def" LowerIdentifier "(" LowerIdentifier ")" "{" "}"`
    /// from the cursor on. Succeeds exactly where those seven tokens stand
    /// there, consuming them and yielding a declaration carrying the first
    /// identifier as its name and an empty body (the parameter is consumed
    /// but not retained). Otherwise fails at the first mismatch, whose
    /// message `fn_decl_error` spells out.
    pub fn function_declaration(&mut self) -> (r: Result<FunctionDeclaration, ParseError>)
        requires
            old(self).wf(),
        ensures
            final(self).wf(),
            final(self).toks() == old(self).toks(),
            r is Ok <==> fn_decl_shape(old(self).toks(), old(self).cursor()),
            match r {
                Ok(fd) => {
                    &&& fd.name@ == fn_decl_name(old(self).toks(), old(self).cursor())
                    &&& fd.body@ == Seq::<crate::ast::Expression>::empty()
                    &&& final(self).cursor() == old(self).cursor() + 7
                },
                Err(e) => e.message@ == fn_decl_error(old(self).toks(), old(self).cursor())
                    && final(self).cursor() == fn_decl_err_cursor(
                    old(self).toks(),
                    old(self).cursor(),
                ),
            },
    {
        if self.pos >= self.tokens.len() {
            return Err(ParseError { message: String::from_str("Expected def got EOF") });
        }
        let is_def = match &self.tokens[self.pos] {
            Token::Def => true,
            _ => false,
        };
        if !is_def {
            return Err(ParseError { message: String::from_str("Expected def") });
        }
        self.pos = self.pos + 1;  // throw 'def' away

        let name = match self.get_lower_identifier() {
            Ok(name) => name,
            Err(e) => {
                return Err(e);
            },
        };
        self.pos = self.pos + 1;

        match self.get_left_paren() {
            Ok(()) => (),
            Err(e) => {
                return Err(e);
            },
        }

        let _param = match self.get_lower_identifier() {
            Ok(param) => param,
            Err(e) => {
                return Err(e);
            },
        };
        self.pos = self.pos + 1;

        match self.get_right_paren() {
            Ok(()) => (),
            Err(e) => {
                return Err(e);
            },
        }

        match self.expect_and_trash(Token::BraceLeft, "'{'") {
            Ok(()) => (),
            Err(e) => {
                return Err(e);
            },
        }
        match self.expect_and_trash(Token::BraceRight, "'}'") {
            Ok(()) => (),
            Err(e) => {
                return Err(e);
            },
        }

        Ok(FunctionDeclaration { name, body: Vec::new() })
    }
}

} // verus!
