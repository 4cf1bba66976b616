//! The lexer: turns source text into a sequence of tokens.
//!
//! `spec_tokenize` is the mathematical definition of lexing: one pass over
//! the character sequence, dispatching on the class of the leading character
//! and taking the longest run of its class. `Tokenizer` produces one token
//! per call, and `tokenize` materializes the whole sequence; both are proved
//! against `spec_tokenize`.

use vstd::prelude::*;

use crate::classes::{
    alphanumeric_char, char_alphanumeric, char_dec_digit, char_hex_digit, char_lower_start,
    char_upper_start, char_whitespace, dec_digit, hex_digit, lower_start, upper_start,
    whitespace_char,
};
use crate::token::{Token, TokenModel};
use vstd::string::StrSliceExecFns;

verus! {

/// Why a call to the lexer failed. Each failure is fatal to the whole
/// `tokenize` call: no partial token sequence is returned.
#[derive(Debug, Clone, Copy, PartialEq, Eq)]
pub enum LexError {
    /// A `0` was followed by a character other than `x`; the character is
    /// carried here.
    InvalidRadix(char),
    /// A string literal was opened and the input ended before a closing
    /// quote.
    UnterminatedString,
    /// A `0` opened a radix-prefixed literal and the input ended before the
    /// radix character.
    UnterminatedHexLiteral,
    /// A character that opens no token class.
    UnexpectedCharacter(char),
}

/// The character classes whose longest run the lexer takes in one step.
pub enum CharClass {
    Whitespace,
    Alphanumeric,
    DecDigit,
    HexDigit,
    NotQuote,
}

/// Whether `c` belongs to the class `k`.
pub open spec fn class_holds(k: CharClass, c: char) -> bool {
    match k {
        CharClass::Whitespace => whitespace_char(c),
        CharClass::Alphanumeric => alphanumeric_char(c),
        CharClass::DecDigit => dec_digit(c),
        CharClass::HexDigit => hex_digit(c),
        CharClass::NotQuote => c != '"',
    }
}

/// Decides `class_holds`.
pub(crate) fn class_test(k: &CharClass, c: char) -> (r: bool)
    ensures
        r == class_holds(*k, c),
{
    match k {
        CharClass::Whitespace => char_whitespace(c),
        CharClass::Alphanumeric => char_alphanumeric(c),
        CharClass::DecDigit => char_dec_digit(c),
        CharClass::HexDigit => char_hex_digit(c),
        CharClass::NotQuote => c != '"',
    }
}

/// The length of the longest prefix of `s` whose characters all belong to
/// the class `k`.
pub open spec fn run_len(s: Seq<char>, k: CharClass) -> nat
    decreases s.len(),
{
    if s.len() == 0 || !class_holds(k, s[0]) {
        0
    } else {
        1 + run_len(s.skip(1), k)
    }
}

/// A run is never longer than the sequence it is taken from.
pub proof fn lemma_run_len_le(s: Seq<char>, k: CharClass)
    ensures
        run_len(s, k) <= s.len(),
    decreases s.len(),
{
    if s.len() != 0 && class_holds(k, s[0]) {
        lemma_run_len_le(s.skip(1), k);
    }
}

/// The run length is exactly the position of the first character out of
/// class, or the whole length when there is none.
pub proof fn lemma_run_len_exact(s: Seq<char>, k: CharClass, n: int)
    requires
        0 <= n <= s.len(),
        forall|i: int| 0 <= i < n ==> class_holds(k, #[trigger] s[i]),
        n == s.len() || !class_holds(k, s[n]),
    ensures
        run_len(s, k) == n,
    decreases s.len(),
{
    if n == 0 {
    } else {
        assert(class_holds(k, s[0]));
        assert forall|i: int| 0 <= i < n - 1 implies class_holds(k, #[trigger] s.skip(1)[i]) by {
            assert(s.skip(1)[i] == s[i + 1]);
        }
        if n < s.len() {
            assert(s.skip(1)[n - 1] == s[n]);
        }
        lemma_run_len_exact(s.skip(1), k, n - 1);
    }
}

/// Prepends a token to a lexing outcome, letting an error pass through.
pub open spec fn cons_token(
    t: TokenModel,
    r: Result<Seq<TokenModel>, LexError>,
) -> Result<Seq<TokenModel>, LexError> {
    match r {
        Ok(ts) => Ok(seq![t] + ts),
        Err(e) => Err(e),
    }
}

/// The token an identifier run becomes: the matching keyword where the run
/// spells one, a `LowerIdentifier` otherwise.
pub open spec fn keyword_token(word: Seq<char>) -> TokenModel {
    if word == seq!['d', 'e', 'f'] {
        TokenModel::Def
    } else if word == seq!['l', 'e', 't'] {
        TokenModel::Let
    } else {
        TokenModel::LowerIdentifier(word)
    }
}

/// What lexing the character sequence `s` yields: the token sequence, ending
/// in exactly one `EOF`, or the first lexical error.
///
/// One character-class dispatch per step, longest match per class:
/// whitespace is skipped; a lowercase or uppercase letter opens an identifier
/// that takes the following alphanumeric run (a lowercase identifier spelling
/// a keyword is reclassified); a nonzero digit opens an integer literal; `0`
/// must be followed by `x` and opens a hexadecimal literal carrying its
/// prefix; `"` opens a string literal that takes everything up to the next
/// `"`; the four delimiters and `+` stand alone; anything else is an error.
pub open spec fn spec_tokenize(s: Seq<char>) -> Result<Seq<TokenModel>, LexError>
    decreases s.len(),
{
    if s.len() == 0 {
        Ok(seq![TokenModel::EOF])
    } else {
        let c = s[0];
        if whitespace_char(c) {
            spec_tokenize(s.skip(1))
        } else if lower_start(c) {
            proof {
                lemma_run_len_le(s.skip(1), CharClass::Alphanumeric);
            }
            let k = 1 + run_len(s.skip(1), CharClass::Alphanumeric) as int;
            cons_token(keyword_token(s.take(k)), spec_tokenize(s.skip(k)))
        } else if upper_start(c) {
            proof {
                lemma_run_len_le(s.skip(1), CharClass::Alphanumeric);
            }
            let k = 1 + run_len(s.skip(1), CharClass::Alphanumeric) as int;
            cons_token(TokenModel::UpperIdentifier(s.take(k)), spec_tokenize(s.skip(k)))
        } else if dec_digit(c) && c != '0' {
            proof {
                lemma_run_len_le(s.skip(1), CharClass::DecDigit);
            }
            let k = 1 + run_len(s.skip(1), CharClass::DecDigit) as int;
            cons_token(TokenModel::IntegerLiteral(s.take(k)), spec_tokenize(s.skip(k)))
        } else if c == '0' {
            if s.len() == 1 {
                Err(LexError::UnterminatedHexLiteral)
            } else if s[1] == 'x' {
                proof {
                    lemma_run_len_le(s.skip(2), CharClass::HexDigit);
                }
                let k = 2 + run_len(s.skip(2), CharClass::HexDigit) as int;
                cons_token(TokenModel::HexIntegerLiteral(s.take(k)), spec_tokenize(s.skip(k)))
            } else {
                Err(LexError::InvalidRadix(s[1]))
            }
        } else if c == '"' {
            proof {
                lemma_run_len_le(s.skip(1), CharClass::NotQuote);
            }
            let j = run_len(s.skip(1), CharClass::NotQuote) as int;
            if 1 + j == s.len() {
                Err(LexError::UnterminatedString)
            } else {
                cons_token(
                    TokenModel::StringLiteral(s.subrange(1, 1 + j)),
                    spec_tokenize(s.skip(2 + j)),
                )
            }
        } else if c == '(' {
            cons_token(TokenModel::ParenLeft, spec_tokenize(s.skip(1)))
        } else if c == ')' {
            cons_token(TokenModel::ParenRight, spec_tokenize(s.skip(1)))
        } else if c == '{' {
            cons_token(TokenModel::BraceLeft, spec_tokenize(s.skip(1)))
        } else if c == '}' {
            cons_token(TokenModel::BraceRight, spec_tokenize(s.skip(1)))
        } else if c == '+' {
            cons_token(TokenModel::Plus, spec_tokenize(s.skip(1)))
        } else {
            Err(LexError::UnexpectedCharacter(c))
        }
    }
}

/// The one step the lexer takes on a remaining input: which token it
/// produces and how many characters the step consumes in all, or that only
/// whitespace was left, or the error it raises.
pub enum LexStep {
    /// A token, with the total count of characters the step consumes:
    /// the skipped leading whitespace plus the token's span.
    Token(TokenModel, nat),
    /// Nothing but whitespace (this many characters) was left: the step
    /// consumes it and the end-of-input token goes out.
    End(nat),
    /// The step fails with this error.
    Error(LexError),
}

/// The step the lexer takes on the remaining input `s`: leading whitespace
/// is skipped, then the character class of the first remaining character
/// decides the token and its span, by the same rules as `spec_tokenize`.
pub open spec fn spec_next_token(s: Seq<char>) -> LexStep {
    let w = run_len(s, CharClass::Whitespace) as int;
    if w >= s.len() {
        LexStep::End(s.len())
    } else {
        let t = s.skip(w);
        let c = t[0];
        if lower_start(c) {
            let k = 1 + run_len(t.skip(1), CharClass::Alphanumeric) as int;
            LexStep::Token(keyword_token(t.take(k)), (w + k) as nat)
        } else if upper_start(c) {
            let k = 1 + run_len(t.skip(1), CharClass::Alphanumeric) as int;
            LexStep::Token(TokenModel::UpperIdentifier(t.take(k)), (w + k) as nat)
        } else if dec_digit(c) && c != '0' {
            let k = 1 + run_len(t.skip(1), CharClass::DecDigit) as int;
            LexStep::Token(TokenModel::IntegerLiteral(t.take(k)), (w + k) as nat)
        } else if c == '0' {
            if t.len() == 1 {
                LexStep::Error(LexError::UnterminatedHexLiteral)
            } else if t[1] == 'x' {
                let k = 2 + run_len(t.skip(2), CharClass::HexDigit) as int;
                LexStep::Token(TokenModel::HexIntegerLiteral(t.take(k)), (w + k) as nat)
            } else {
                LexStep::Error(LexError::InvalidRadix(t[1]))
            }
        } else if c == '"' {
            let j = run_len(t.skip(1), CharClass::NotQuote) as int;
            if 1 + j == t.len() {
                LexStep::Error(LexError::UnterminatedString)
            } else {
                LexStep::Token(TokenModel::StringLiteral(t.subrange(1, 1 + j)), (w + 2 + j) as nat)
            }
        } else if c == '(' {
            LexStep::Token(TokenModel::ParenLeft, (w + 1) as nat)
        } else if c == ')' {
            LexStep::Token(TokenModel::ParenRight, (w + 1) as nat)
        } else if c == '{' {
            LexStep::Token(TokenModel::BraceLeft, (w + 1) as nat)
        } else if c == '}' {
            LexStep::Token(TokenModel::BraceRight, (w + 1) as nat)
        } else if c == '+' {
            LexStep::Token(TokenModel::Plus, (w + 1) as nat)
        } else {
            LexStep::Error(LexError::UnexpectedCharacter(c))
        }
    }
}

/// The character right after a run does not belong to the run's class.
pub proof fn lemma_run_len_stop(s: Seq<char>, k: CharClass)
    requires
        run_len(s, k) < s.len(),
    ensures
        !class_holds(k, s[run_len(s, k) as int]),
    decreases s.len(),
{
    if s.len() != 0 && class_holds(k, s[0]) {
        lemma_run_len_stop(s.skip(1), k);
        assert(s.skip(1)[run_len(s.skip(1), k) as int] == s[run_len(s, k) as int]);
    }
}

/// Skipping twice is skipping once by the sum.
pub proof fn lemma_skip_skip(s: Seq<char>, a: int, b: int)
    requires
        0 <= a,
        0 <= b,
        a + b <= s.len(),
    ensures
        s.skip(a).skip(b) == s.skip(a + b),
{
    assert(s.skip(a).skip(b) =~= s.skip(a + b));
}

/// A subrange of a skipped sequence is a subrange of the original.
pub proof fn lemma_skip_subrange(s: Seq<char>, a: int, i: int, j: int)
    requires
        0 <= a,
        0 <= i <= j,
        a + j <= s.len(),
    ensures
        s.skip(a).subrange(i, j) == s.subrange(a + i, a + j),
{
    assert(s.skip(a).subrange(i, j) =~= s.subrange(a + i, a + j));
}

/// Lexing ignores a whitespace prefix.
pub proof fn lemma_tokenize_skip_whitespace(s: Seq<char>, n: int)
    requires
        0 <= n <= s.len(),
        forall|i: int| 0 <= i < n ==> whitespace_char(#[trigger] s[i]),
    ensures
        spec_tokenize(s) == spec_tokenize(s.skip(n)),
    decreases n,
{
    if n == 0 {
        assert(s.skip(0) =~= s);
    } else {
        assert(whitespace_char(s[0]));
        assert(spec_tokenize(s) == spec_tokenize(s.skip(1)));
        assert forall|i: int| 0 <= i < n - 1 implies whitespace_char(#[trigger] s.skip(1)[i]) by {
            assert(s.skip(1)[i] == s[i + 1]);
        }
        lemma_tokenize_skip_whitespace(s.skip(1), n - 1);
        lemma_skip_skip(s, 1, n - 1);
    }
}

/// Lexing a whole input is the step `spec_next_token` takes, followed by
/// lexing what the step leaves.
pub proof fn lemma_tokenize_step(s: Seq<char>)
    ensures
        spec_tokenize(s) == (match spec_next_token(s) {
            LexStep::Token(t, n) => cons_token(t, spec_tokenize(s.skip(n as int))),
            LexStep::End(_) => Ok::<Seq<TokenModel>, LexError>(seq![TokenModel::EOF]),
            LexStep::Error(e) => Err::<Seq<TokenModel>, LexError>(e),
        }),
{
    let w = run_len(s, CharClass::Whitespace) as int;
    lemma_run_len_le(s, CharClass::Whitespace);
    assert forall|i: int| 0 <= i < w implies whitespace_char(#[trigger] s[i]) by {
        lemma_run_len_in_class(s, CharClass::Whitespace, i);
    }
    lemma_tokenize_skip_whitespace(s, w);
    let t = s.skip(w);
    if w >= s.len() {
        assert(t =~= Seq::<char>::empty());
    } else {
        lemma_run_len_stop(s, CharClass::Whitespace);
        let c = t[0];
        if lower_start(c) || upper_start(c) {
            lemma_run_len_le(t.skip(1), CharClass::Alphanumeric);
            let k = 1 + run_len(t.skip(1), CharClass::Alphanumeric) as int;
            lemma_skip_skip(s, w, k);
        } else if dec_digit(c) && c != '0' {
            lemma_run_len_le(t.skip(1), CharClass::DecDigit);
            let k = 1 + run_len(t.skip(1), CharClass::DecDigit) as int;
            lemma_skip_skip(s, w, k);
        } else if c == '0' {
            if t.len() > 1 && t[1] == 'x' {
                lemma_run_len_le(t.skip(2), CharClass::HexDigit);
                let k = 2 + run_len(t.skip(2), CharClass::HexDigit) as int;
                lemma_skip_skip(s, w, k);
            }
        } else if c == '"' {
            lemma_run_len_le(t.skip(1), CharClass::NotQuote);
            let j = run_len(t.skip(1), CharClass::NotQuote) as int;
            if 1 + j < t.len() {
                lemma_skip_skip(s, w, 2 + j);
            }
        } else if c == '(' || c == ')' || c == '{' || c == '}' || c == '+' {
            lemma_skip_skip(s, w, 1);
        }
    }
}

/// A one-token-at-a-time lexer over a borrowed piece of source text: an
/// explicit cursor into the character sequence, plus the flag that says
/// whether the closing `EOF` token has been handed out.
#[derive(Debug, Clone)]
pub struct Tokenizer<'a> {
    input: &'a str,
    len: usize,
    pos: usize,
    sent_eof: bool,
}

impl<'a> Tokenizer<'a> {
    /// The characters the source text holds.
    pub closed spec fn text(self) -> Seq<char> {
        self.input@
    }

    /// How many characters are already consumed: the cursor's position.
    pub closed spec fn cursor(self) -> int {
        self.pos as int
    }

    /// The characters not yet consumed.
    pub closed spec fn remaining(self) -> Seq<char> {
        self.input@.skip(self.pos as int)
    }

    /// Whether the `EOF` token has been handed out; after that the lexer
    /// yields nothing.
    pub closed spec fn eof_sent(self) -> bool {
        self.sent_eof
    }

    /// The cursor stands inside the text, at its end once `EOF` went out.
    pub closed spec fn wf(self) -> bool {
        &&& self.len == self.input@.len()
        &&& self.pos <= self.len
        &&& self.sent_eof ==> self.pos == self.len
    }

    /// Opens a lexer at the start of `input`.
    pub fn new(input: &'a str) -> (tkz: Tokenizer<'a>)
        ensures
            tkz.wf(),
            tkz.text() == input@,
            tkz.remaining() == input@,
            !tkz.eof_sent(),
    {
        let len = input.unicode_len();
        let tkz = Tokenizer { input, len, pos: 0, sent_eof: false };
        proof {
            assert(tkz.remaining() =~= input@);
        }
        tkz
    }

    /// Advances the cursor past the longest run of characters of class `k`.
    fn take_while(&mut self, k: CharClass)
        requires
            old(self).wf(),
        ensures
            final(self).wf(),
            final(self).input == old(self).input,
            final(self).sent_eof == old(self).sent_eof,
            old(self).pos <= final(self).pos,
            final(self).pos - old(self).pos == run_len(old(self).remaining(), k),
            final(self).pos == final(self).len || !class_holds(
                k,
                final(self).text()[final(self).pos as int],
            ),
    {
        let ghost start = self.pos as int;
        loop
            invariant
                self.wf(),
                self.input == old(self).input,
                self.len == old(self).len,
                self.sent_eof == old(self).sent_eof,
                start <= self.pos <= self.len,
                forall|i: int| start <= i < self.pos ==> class_holds(k, #[trigger] self.input@[i]),
            ensures
                self.pos == self.len || !class_holds(k, self.input@[self.pos as int]),
            decreases self.len - self.pos,
        {
            if self.pos >= self.len {
                break ;
            }
            let c = self.input.get_char(self.pos);
            if !class_test(&k, c) {
                break ;
            }
            self.pos = self.pos + 1;
        }
        proof {
            let s = old(self).remaining();
            let n = self.pos - start;
            assert forall|i: int| 0 <= i < n implies class_holds(k, #[trigger] s[i]) by {
                assert(s[i] == self.input@[start + i]);
            }
            if self.pos < self.len {
                assert(s[n] == self.input@[self.pos as int]);
            }
            lemma_run_len_exact(s, k, n);
        }
    }

    /// Advances the cursor past leading whitespace.
    fn skip_space(&mut self)
        requires
            old(self).wf(),
        ensures
            final(self).wf(),
            final(self).input == old(self).input,
            final(self).sent_eof == old(self).sent_eof,
            old(self).pos <= final(self).pos,
            final(self).pos - old(self).pos == run_len(
                old(self).remaining(),
                CharClass::Whitespace,
            ),
            final(self).pos == final(self).len || !whitespace_char(
                final(self).text()[final(self).pos as int],
            ),
            spec_tokenize(final(self).remaining()) == spec_tokenize(old(self).remaining()),
    {
        self.take_while(CharClass::Whitespace);
        proof {
            let s = old(self).remaining();
            let n = self.pos - old(self).pos;
            lemma_run_len_le(s, CharClass::Whitespace);
            assert forall|i: int| 0 <= i < n implies whitespace_char(#[trigger] s[i]) by {
                lemma_run_len_in_class(s, CharClass::Whitespace, i);
            }
            lemma_tokenize_skip_whitespace(s, n);
            lemma_skip_skip(self.input@, old(self).pos as int, n);
        }
    }

    /// Takes exactly the step `spec_next_token` names on the unconsumed
    /// input: skips its leading whitespace and produces the token of the
    /// longest lexeme there, consuming exactly that span; hands out `EOF`,
    /// once, where only whitespace was left, and `Ok(None)` on every call
    /// after that; or fails with the step's error, consuming nothing that a
    /// caller may rely on.
    pub fn next_token(&mut self) -> (r: Result<Option<Token>, LexError>)
        requires
            old(self).wf(),
        ensures
            final(self).wf(),
            final(self).text() == old(self).text(),
            match r {
                Result::Ok(Option::None) => old(self).eof_sent() && *final(self) == *old(self),
                Result::Ok(Option::Some(tok)) => {
                    &&& !old(self).eof_sent()
                    &&& match spec_next_token(old(self).remaining()) {
                        LexStep::Token(t, n) => {
                            &&& tok@ == t
                            &&& !final(self).eof_sent()
                            &&& final(self).cursor() == old(self).cursor() + n
                            &&& final(self).remaining() == old(self).remaining().skip(n as int)
                        },
                        LexStep::End(n) => {
                            &&& tok@ == TokenModel::EOF
                            &&& final(self).eof_sent()
                            &&& final(self).cursor() == old(self).cursor() + n
                            &&& final(self).remaining() == Seq::<char>::empty()
                        },
                        LexStep::Error(_) => false,
                    }
                },
                Result::Err(e) => {
                    &&& !old(self).eof_sent()
                    &&& !final(self).eof_sent()
                    &&& spec_next_token(old(self).remaining()) == LexStep::Error(e)
                },
            },
    {
        let ghost rem0 = old(self).remaining();
        self.skip_space();
        let ghost w = self.pos - old(self).pos;
        proof {
            lemma_skip_skip(self.input@, old(self).pos as int, w);
        }
        let ghost p1 = self.pos as int;
        let ghost s1 = self.remaining();
        if self.pos >= self.len {
            proof {
                assert(s1 =~= Seq::<char>::empty());
                assert(w == rem0.len());
                assert(spec_next_token(rem0) == LexStep::End(rem0.len()));
            }
            if self.sent_eof {
                Ok(None)
            } else {
                self.sent_eof = true;
                Ok(Some(Token::EOF))
            }
        } else {
            let start = self.pos;
            let c = self.input.get_char(self.pos);
            proof {
                assert(c == s1[0]);
            }
            self.pos = self.pos + 1;
            proof {
                lemma_skip_skip(self.input@, p1, 1);
                lemma_skip_skip(self.input@, old(self).pos as int, w + 1);
            }
            if char_lower_start(c) {
                self.take_while(CharClass::Alphanumeric);
                let ghost k = self.pos - p1;
                let text = self.input.substring_char(start, self.pos);
                let tok = classify_word(text);
                proof {
                    lemma_skip_subrange(self.input@, p1, 0, k);
                    lemma_skip_skip(self.input@, p1, k);
                    lemma_skip_skip(self.input@, old(self).pos as int, w + k);
                    assert(text@ == s1.take(k));
                    assert(spec_next_token(rem0) == LexStep::Token(
                        keyword_token(s1.take(k)),
                        (w + k) as nat,
                    ));
                }
                Ok(Some(tok))
            } else if char_upper_start(c) {
                self.take_while(CharClass::Alphanumeric);
                let ghost k = self.pos - p1;
                let text = self.input.substring_char(start, self.pos);
                proof {
                    lemma_skip_subrange(self.input@, p1, 0, k);
                    lemma_skip_skip(self.input@, p1, k);
                    lemma_skip_skip(self.input@, old(self).pos as int, w + k);
                    assert(text@ == s1.take(k));
                    assert(spec_next_token(rem0) == LexStep::Token(
                        TokenModel::UpperIdentifier(s1.take(k)),
                        (w + k) as nat,
                    ));
                }
                Ok(Some(Token::UpperIdentifier(text.to_owned())))
            } else if char_dec_digit(c) && c != '0' {
                self.take_while(CharClass::DecDigit);
                let ghost k = self.pos - p1;
                let text = self.input.substring_char(start, self.pos);
                proof {
                    lemma_skip_subrange(self.input@, p1, 0, k);
                    lemma_skip_skip(self.input@, p1, k);
                    lemma_skip_skip(self.input@, old(self).pos as int, w + k);
                    assert(text@ == s1.take(k));
                    assert(spec_next_token(rem0) == LexStep::Token(
                        TokenModel::IntegerLiteral(s1.take(k)),
                        (w + k) as nat,
                    ));
                }
                Ok(Some(Token::IntegerLiteral(text.to_owned())))
            } else if c == '0' {
                if self.pos >= self.len {
                    proof {
                        assert(s1.len() == 1);
                    }
                    Err(LexError::UnterminatedHexLiteral)
                } else {
                    let c2 = self.input.get_char(self.pos);
                    proof {
                        assert(c2 == s1[1]);
                    }
                    if c2 == 'x' {
                        self.pos = self.pos + 1;
                        proof {
                            lemma_skip_skip(self.input@, p1, 2);
                        }
                        self.take_while(CharClass::HexDigit);
                        let ghost k = self.pos - p1;
                        let text = self.input.substring_char(start, self.pos);
                        proof {
                            lemma_skip_subrange(self.input@, p1, 0, k);
                            lemma_skip_skip(self.input@, p1, k);
                            lemma_skip_skip(self.input@, old(self).pos as int, w + k);
                            assert(text@ == s1.take(k));
                            assert(spec_next_token(rem0) == LexStep::Token(
                                TokenModel::HexIntegerLiteral(s1.take(k)),
                                (w + k) as nat,
                            ));
                        }
                        Ok(Some(Token::HexIntegerLiteral(text.to_owned())))
                    } else {
                        Err(LexError::InvalidRadix(c2))
                    }
                }
            } else if c == '"' {
                self.take_while(CharClass::NotQuote);
                let ghost j = self.pos - p1 - 1;
                if self.pos >= self.len {
                    proof {
                        assert(1 + j == s1.len());
                    }
                    Err(LexError::UnterminatedString)
                } else {
                    let text = self.input.substring_char(start + 1, self.pos);
                    self.pos = self.pos + 1;
                    proof {
                        lemma_skip_subrange(self.input@, p1, 1, 1 + j);
                        lemma_skip_skip(self.input@, p1, 2 + j);
                        lemma_skip_skip(self.input@, old(self).pos as int, w + 2 + j);
                        assert(text@ == s1.subrange(1, 1 + j));
                        assert(spec_next_token(rem0) == LexStep::Token(
                            TokenModel::StringLiteral(s1.subrange(1, 1 + j)),
                            (w + 2 + j) as nat,
                        ));
                    }
                    Ok(Some(Token::StringLiteral(text.to_owned())))
                }
            } else if c == '(' {
                Ok(Some(Token::ParenLeft))
            } else if c == ')' {
                Ok(Some(Token::ParenRight))
            } else if c == '{' {
                Ok(Some(Token::BraceLeft))
            } else if c == '}' {
                Ok(Some(Token::BraceRight))
            } else if c == '+' {
                Ok(Some(Token::Plus))
            } else {
                Err(LexError::UnexpectedCharacter(c))
            }
        }
    }
}

/// Prepends an already-lexed token sequence to a lexing outcome, letting an
/// error pass through.
pub open spec fn prepend_tokens(
    ts: Seq<TokenModel>,
    r: Result<Seq<TokenModel>, LexError>,
) -> Result<Seq<TokenModel>, LexError> {
    match r {
        Ok(rest) => Ok(ts + rest),
        Err(e) => Err(e),
    }
}

/// Lexes `input` whole: the token sequence `spec_tokenize` assigns to it,
/// ending in `EOF`, or the first lexical error.
pub fn tokenize(input: &str) -> (r: Result<Vec<Token>, LexError>)
    ensures
        match r {
            Ok(v) => spec_tokenize(input@) == Ok::<Seq<TokenModel>, LexError>(v.deep_view()),
            Err(e) => spec_tokenize(input@) == Err::<Seq<TokenModel>, LexError>(e),
        },
{
    let mut tkz = Tokenizer::new(input);
    let mut tokens: Vec<Token> = Vec::new();
    proof {
        assert(tokens.deep_view() =~= Seq::<TokenModel>::empty());
        match spec_tokenize(input@) {
            Ok(ts) => {
                assert(Seq::<TokenModel>::empty() + ts =~= ts);
            },
            Err(_) => {},
        }
    }
    loop
        invariant
            tkz.wf(),
            tkz.text() == input@,
            !tkz.eof_sent() ==> spec_tokenize(input@) == prepend_tokens(
                tokens.deep_view(),
                spec_tokenize(tkz.remaining()),
            ),
            tkz.eof_sent() ==> spec_tokenize(input@) == Ok::<Seq<TokenModel>, LexError>(
                tokens.deep_view(),
            ),
        decreases tkz.remaining().len() + if tkz.eof_sent() {
            0int
        } else {
            1int
        },
    {
        let ghost toks_pre = tokens.deep_view();
        let ghost rem_pre = tkz.remaining();
        match tkz.next_token() {
            Ok(Some(t)) => {
                tokens.push(t);
                proof {
                    lemma_tokenize_step(rem_pre);
                    assert(tokens.deep_view() =~= toks_pre.push(t@));
                    match spec_next_token(rem_pre) {
                        LexStep::Token(_, _) => {
                            match spec_tokenize(tkz.remaining()) {
                                Ok(rest) => {
                                    assert(toks_pre + (seq![t@] + rest) =~= toks_pre.push(t@)
                                        + rest);
                                },
                                Err(_) => {},
                            }
                        },
                        LexStep::End(_) => {
                            assert(toks_pre.push(t@) =~= toks_pre + seq![TokenModel::EOF]);
                        },
                        LexStep::Error(_) => {},
                    }
                }
            },
            Ok(None) => {
                return Ok(tokens);
            },
            Err(e) => {
                proof {
                    lemma_tokenize_step(rem_pre);
                }
                return Err(e);
            },
        }
    }
}

/// The keyword or identifier token a completed identifier run becomes.
fn classify_word(text: &str) -> (t: Token)
    ensures
        t@ == keyword_token(text@),
{
    let n = text.unicode_len();
    if n == 3 {
        let c0 = text.get_char(0);
        let c1 = text.get_char(1);
        let c2 = text.get_char(2);
        if c0 == 'd' && c1 == 'e' && c2 == 'f' {
            proof {
                assert(text@ =~= seq!['d', 'e', 'f']);
            }
            return Token::Def;
        }
        if c0 == 'l' && c1 == 'e' && c2 == 't' {
            proof {
                assert(text@ =~= seq!['l', 'e', 't']);
            }
            return Token::Let;
        }
    }
    proof {
        let def_word = seq!['d', 'e', 'f'];
        let let_word = seq!['l', 'e', 't'];
        assert(def_word.len() == 3 && def_word[0] == 'd' && def_word[1] == 'e' && def_word[2]
            == 'f');
        assert(let_word.len() == 3 && let_word[0] == 'l' && let_word[1] == 'e' && let_word[2]
            == 't');
        assert(text@ != def_word && text@ != let_word);
    }
    Token::LowerIdentifier(text.to_owned())
}

/// Every character within the run belongs to the class.
pub proof fn lemma_run_len_in_class(s: Seq<char>, k: CharClass, i: int)
    requires
        0 <= i < run_len(s, k),
    ensures
        class_holds(k, s[i]),
    decreases i,
{
    lemma_run_len_le(s, k);
    if i == 0 {
    } else {
        lemma_run_len_in_class(s.skip(1), k, i - 1);
        assert(s.skip(1)[i - 1] == s[i]);
    }
}

} // verus!
