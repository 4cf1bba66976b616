//! Laws of the lexer, proved once for every input of the stated shape.

use vstd::prelude::*;

use crate::classes::{
    alphanumeric_char, dec_digit, hex_digit, lower_start, upper_start, whitespace_char,
};
use crate::token::TokenModel;
use crate::tokenizer::{
    cons_token, keyword_token, lemma_run_len_exact, lemma_run_len_le,
    lemma_tokenize_skip_whitespace, run_len, spec_tokenize, CharClass, LexError,
};

verus! {

/// Law: the empty input lexes to exactly the end-of-input token.
pub proof fn lemma_tokenize_empty()
    ensures
        spec_tokenize(Seq::<char>::empty()) == Ok::<Seq<TokenModel>, LexError>(
            seq![TokenModel::EOF],
        ),
{
}

/// Law: a run of decimal digits not beginning with `0` lexes to one integer
/// literal carrying the run, then the end-of-input token.
pub proof fn lemma_tokenize_integer_run(s: Seq<char>)
    requires
        s.len() > 0,
        s[0] != '0',
        forall|i: int| 0 <= i < s.len() ==> dec_digit(#[trigger] s[i]),
    ensures
        spec_tokenize(s) == Ok::<Seq<TokenModel>, LexError>(
            seq![TokenModel::IntegerLiteral(s), TokenModel::EOF],
        ),
{
    assert forall|i: int| 0 <= i < s.len() - 1 implies dec_digit(#[trigger] s.skip(1)[i]) by {
        assert(s.skip(1)[i] == s[i + 1]);
    }
    lemma_run_len_exact(s.skip(1), CharClass::DecDigit, s.len() - 1);
    assert(s.take(s.len() as int) =~= s);
    assert(s.skip(s.len() as int) =~= Seq::<char>::empty());
    lemma_tokenize_empty();
    assert(spec_tokenize(s) == cons_token(
        TokenModel::IntegerLiteral(s),
        spec_tokenize(s.skip(s.len() as int)),
    ));
    assert(seq![TokenModel::IntegerLiteral(s)] + seq![TokenModel::EOF] =~= seq![
        TokenModel::IntegerLiteral(s),
        TokenModel::EOF,
    ]);
}

/// Prepending a token other than `EOF` keeps `EOF` exactly once, last.
proof fn lemma_cons_keeps_eof_last(t: TokenModel, r: Result<Seq<TokenModel>, LexError>)
    requires
        t != TokenModel::EOF,
        r matches Ok(ts) ==> ts.len() >= 1 && ts.last() == TokenModel::EOF && (forall|i: int|
            0 <= i < ts.len() - 1 ==> #[trigger] ts[i] != TokenModel::EOF),
    ensures
        cons_token(t, r) matches Ok(ts) ==> ts.len() >= 1 && ts.last() == TokenModel::EOF && (
        forall|i: int| 0 <= i < ts.len() - 1 ==> #[trigger] ts[i] != TokenModel::EOF),
{
    match r {
        Ok(ts) => {
            let ts2 = seq![t] + ts;
            assert(ts2.last() == ts.last());
            assert forall|i: int| 0 <= i < ts2.len() - 1 implies #[trigger] ts2[i]
                != TokenModel::EOF by {
                if i > 0 {
                    assert(ts2[i] == ts[i - 1]);
                }
            }
        },
        Err(_) => {},
    }
}

/// Law: every token sequence the lexer produces, from any input, holds the
/// end-of-input token exactly once, and last.
pub proof fn lemma_tokenize_eof_once_last(s: Seq<char>)
    ensures
        spec_tokenize(s) matches Ok(ts) ==> ts.len() >= 1 && ts.last() == TokenModel::EOF && (
        forall|i: int| 0 <= i < ts.len() - 1 ==> #[trigger] ts[i] != TokenModel::EOF),
    decreases s.len(),
{
    if s.len() == 0 {
    } else {
        let c = s[0];
        if whitespace_char(c) {
            lemma_tokenize_eof_once_last(s.skip(1));
        } else if lower_start(c) {
            lemma_run_len_le(s.skip(1), CharClass::Alphanumeric);
            let k = 1 + run_len(s.skip(1), CharClass::Alphanumeric) as int;
            lemma_tokenize_eof_once_last(s.skip(k));
            lemma_cons_keeps_eof_last(keyword_token(s.take(k)), spec_tokenize(s.skip(k)));
        } else if upper_start(c) {
            lemma_run_len_le(s.skip(1), CharClass::Alphanumeric);
            let k = 1 + run_len(s.skip(1), CharClass::Alphanumeric) as int;
            lemma_tokenize_eof_once_last(s.skip(k));
            lemma_cons_keeps_eof_last(
                TokenModel::UpperIdentifier(s.take(k)),
                spec_tokenize(s.skip(k)),
            );
        } else if dec_digit(c) && c != '0' {
            lemma_run_len_le(s.skip(1), CharClass::DecDigit);
            let k = 1 + run_len(s.skip(1), CharClass::DecDigit) as int;
            lemma_tokenize_eof_once_last(s.skip(k));
            lemma_cons_keeps_eof_last(
                TokenModel::IntegerLiteral(s.take(k)),
                spec_tokenize(s.skip(k)),
            );
        } else if c == '0' {
            if s.len() > 1 && s[1] == 'x' {
                lemma_run_len_le(s.skip(2), CharClass::HexDigit);
                let k = 2 + run_len(s.skip(2), CharClass::HexDigit) as int;
                lemma_tokenize_eof_once_last(s.skip(k));
                lemma_cons_keeps_eof_last(
                    TokenModel::HexIntegerLiteral(s.take(k)),
                    spec_tokenize(s.skip(k)),
                );
            }
        } else if c == '"' {
            lemma_run_len_le(s.skip(1), CharClass::NotQuote);
            let j = run_len(s.skip(1), CharClass::NotQuote) as int;
            if 1 + j < s.len() {
                lemma_tokenize_eof_once_last(s.skip(2 + j));
                lemma_cons_keeps_eof_last(
                    TokenModel::StringLiteral(s.subrange(1, 1 + j)),
                    spec_tokenize(s.skip(2 + j)),
                );
            }
        } else if c == '(' || c == ')' || c == '{' || c == '}' || c == '+' {
            lemma_tokenize_eof_once_last(s.skip(1));
            let t = if c == '(' {
                TokenModel::ParenLeft
            } else if c == ')' {
                TokenModel::ParenRight
            } else if c == '{' {
                TokenModel::BraceLeft
            } else if c == '}' {
                TokenModel::BraceRight
            } else {
                TokenModel::Plus
            };
            lemma_cons_keeps_eof_last(t, spec_tokenize(s.skip(1)));
        }
    }
}

/// Law: a nonempty word of lowercase alphabetic characters, followed by
/// text that opens with no alphanumeric character, lexes to the word's token
/// followed by whatever the rest lexes to.
pub proof fn lemma_tokenize_word_prefix(word: Seq<char>, t: Seq<char>)
    requires
        word.len() > 0,
        forall|j: int| 0 <= j < word.len() ==> lower_start(#[trigger] word[j]),
        t.len() == 0 || !alphanumeric_char(t[0]),
    ensures
        spec_tokenize(word + t) == cons_token(keyword_token(word), spec_tokenize(t)),
{
    let s = word + t;
    assert(s[0] == word[0]);
    assert forall|i: int| 0 <= i < word.len() - 1 implies alphanumeric_char(
        #[trigger] s.skip(1)[i],
    ) by {
        assert(s.skip(1)[i] == word[i + 1]);
    }
    if t.len() > 0 {
        assert(s.skip(1)[word.len() - 1] == t[0]);
    }
    lemma_run_len_exact(s.skip(1), CharClass::Alphanumeric, word.len() - 1);
    assert(s.take(word.len() as int) =~= word);
    assert(s.skip(word.len() as int) =~= t);
}

/// The words joined with the separators, word first: word 0, separator 0,
/// word 1, and so on; there is one separator fewer than there are words.
pub open spec fn cat_runs(words: Seq<Seq<char>>, seps: Seq<Seq<char>>) -> Seq<char>
    decreases words.len(),
{
    if words.len() == 0 {
        Seq::empty()
    } else if words.len() == 1 {
        words[0]
    } else {
        words[0] + seps[0] + cat_runs(words.skip(1), seps.skip(1))
    }
}

/// Law: an input made of nonempty lowercase-alphabetic words, no word
/// spelling a keyword, separated by nonempty runs of whitespace, lexes to
/// one `LowerIdentifier` per word, in order, then the end-of-input token.
pub proof fn lemma_tokenize_identifier_runs(words: Seq<Seq<char>>, seps: Seq<Seq<char>>)
    requires
        words.len() == seps.len() + 1,
        forall|i: int| 0 <= i < words.len() ==> #[trigger] words[i].len() > 0,
        forall|i: int, j: int|
            0 <= i < words.len() && 0 <= j < words[i].len() ==> lower_start(
                #[trigger] words[i][j],
            ),
        forall|i: int| 0 <= i < words.len() ==> #[trigger] words[i] != seq!['d', 'e', 'f'],
        forall|i: int| 0 <= i < words.len() ==> #[trigger] words[i] != seq!['l', 'e', 't'],
        forall|i: int| 0 <= i < seps.len() ==> #[trigger] seps[i].len() > 0,
        forall|i: int, j: int|
            0 <= i < seps.len() && 0 <= j < seps[i].len() ==> whitespace_char(
                #[trigger] seps[i][j],
            ),
    ensures
        spec_tokenize(cat_runs(words, seps)) == Ok::<Seq<TokenModel>, LexError>(
            Seq::new(words.len(), |i: int| TokenModel::LowerIdentifier(words[i])).push(
                TokenModel::EOF,
            ),
        ),
    decreases words.len(),
{
    let expected = Seq::new(words.len(), |i: int| TokenModel::LowerIdentifier(words[i])).push(
        TokenModel::EOF,
    );
    if words.len() == 1 {
        lemma_tokenize_word_prefix(words[0], Seq::empty());
        assert(words[0] + Seq::<char>::empty() =~= words[0]);
        lemma_tokenize_empty();
        assert(keyword_token(words[0]) == TokenModel::LowerIdentifier(words[0]));
        assert(seq![TokenModel::LowerIdentifier(words[0])] + seq![TokenModel::EOF]
            =~= expected);
    } else {
        let rest = cat_runs(words.skip(1), seps.skip(1));
        let t = seps[0] + rest;
        assert(cat_runs(words, seps) =~= words[0] + t);
        assert(t[0] == seps[0][0]);
        lemma_tokenize_word_prefix(words[0], t);
        assert forall|i: int| 0 <= i < seps[0].len() implies whitespace_char(#[trigger] t[i]) by {
            assert(t[i] == seps[0][i]);
        }
        lemma_tokenize_skip_whitespace(t, seps[0].len() as int);
        assert(t.skip(seps[0].len() as int) =~= rest);
        assert forall|i: int| 0 <= i < words.skip(1).len() implies #[trigger] words.skip(
            1,
        )[i].len() > 0 && words.skip(1)[i] != seq!['d', 'e', 'f'] && words.skip(1)[i] != seq![
            'l',
            'e',
            't',
        ] by {
            assert(words.skip(1)[i] == words[i + 1]);
        }
        assert forall|i: int, j: int|
            0 <= i < words.skip(1).len() && 0 <= j < words.skip(1)[i].len() implies lower_start(
            #[trigger] words.skip(1)[i][j],
        ) by {
            assert(words.skip(1)[i] == words[i + 1]);
        }
        assert forall|i: int| 0 <= i < seps.skip(1).len() implies #[trigger] seps.skip(
            1,
        )[i].len() > 0 by {
            assert(seps.skip(1)[i] == seps[i + 1]);
        }
        assert forall|i: int, j: int|
            0 <= i < seps.skip(1).len() && 0 <= j < seps.skip(1)[i].len() implies whitespace_char(
            #[trigger] seps.skip(1)[i][j],
        ) by {
            assert(seps.skip(1)[i] == seps[i + 1]);
        }
        lemma_tokenize_identifier_runs(words.skip(1), seps.skip(1));
        let expected_rest = Seq::new(
            words.skip(1).len(),
            |i: int| TokenModel::LowerIdentifier(words.skip(1)[i]),
        ).push(TokenModel::EOF);
        assert(keyword_token(words[0]) == TokenModel::LowerIdentifier(words[0]));
        assert(seq![TokenModel::LowerIdentifier(words[0])] + expected_rest =~= expected);
    }
}

/// Law: `0x` followed by a run of hexadecimal digits lexes to one
/// hexadecimal literal carrying the whole span, prefix included, then the
/// end-of-input token.
pub proof fn lemma_tokenize_hex_run(h: Seq<char>)
    requires
        h.len() > 0,
        forall|i: int| 0 <= i < h.len() ==> hex_digit(#[trigger] h[i]),
    ensures
        spec_tokenize(seq!['0', 'x'] + h) == Ok::<Seq<TokenModel>, LexError>(
            seq![TokenModel::HexIntegerLiteral(seq!['0', 'x'] + h), TokenModel::EOF],
        ),
{
    let s = seq!['0', 'x'] + h;
    assert(s[0] == '0' && s[1] == 'x');
    assert(s.skip(2) =~= h);
    lemma_run_len_exact(h, CharClass::HexDigit, h.len() as int);
    assert(s.take(s.len() as int) =~= s);
    assert(s.skip(s.len() as int) =~= Seq::<char>::empty());
    lemma_tokenize_empty();
    assert(spec_tokenize(s) == cons_token(
        TokenModel::HexIntegerLiteral(s),
        spec_tokenize(s.skip(s.len() as int)),
    ));
    assert(seq![TokenModel::HexIntegerLiteral(s)] + seq![TokenModel::EOF] =~= seq![
        TokenModel::HexIntegerLiteral(s),
        TokenModel::EOF,
    ]);
}

/// Law: a quoted span whose contents hold no quote lexes to one string
/// literal carrying the contents, the quotes themselves absent, then the
/// end-of-input token.
pub proof fn lemma_tokenize_string_literal(body: Seq<char>)
    requires
        forall|i: int| 0 <= i < body.len() ==> #[trigger] body[i] != '"',
    ensures
        spec_tokenize(seq!['"'] + body + seq!['"']) == Ok::<Seq<TokenModel>, LexError>(
            seq![TokenModel::StringLiteral(body), TokenModel::EOF],
        ),
{
    let s = seq!['"'] + body + seq!['"'];
    assert(s[0] == '"');
    assert(s.skip(1) =~= body + seq!['"']);
    assert forall|i: int| 0 <= i < body.len() implies (body + seq!['"'])[i] != '"' by {
        assert((body + seq!['"'])[i] == body[i]);
    }
    assert((body + seq!['"'])[body.len() as int] == '"');
    lemma_run_len_exact(body + seq!['"'], CharClass::NotQuote, body.len() as int);
    assert(run_len(s.skip(1), CharClass::NotQuote) == body.len());
    assert(s.subrange(1, 1 + body.len() as int) =~= body);
    assert(s.skip(2 + body.len() as int) =~= Seq::<char>::empty());
    lemma_tokenize_empty();
    assert(spec_tokenize(s) == cons_token(
        TokenModel::StringLiteral(body),
        spec_tokenize(s.skip(2 + body.len() as int)),
    ));
    assert(seq![TokenModel::StringLiteral(body)] + seq![TokenModel::EOF] =~= seq![
        TokenModel::StringLiteral(body),
        TokenModel::EOF,
    ]);
}

} // verus!
