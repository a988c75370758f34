//! Lexical analysis.
//!
//! A single left-to-right scan turns the input text into tokens: words are
//! classified against the fixed preposition, keyword and possessive sets,
//! digit runs become numbers, and a double quote opens a verbatim text.
//! Whitespace and punctuation separate tokens and are dropped, as are the
//! prepositions themselves.
use vstd::prelude::*;

use crate::number::{
    decimal_fits, decimal_num, decimal_shape, digit_char, parse_decimal_range, DecimalIssue, Num,
    NumV,
};
use crate::unicode::{
    alphanumeric_char, is_alphanumeric, is_whitespace, lowercase_of, to_lowercase, whitespace_char,
};

verus! {

/// One lexical token.
#[derive(Debug, PartialEq)]
pub enum Token {
    Identifier(String),
    Keyword(String),
    Possessive(String),
    Preposition(String),
    Number(Num),
    Text(String),
}

/// The mathematical content of a token.
pub enum TokenV {
    Identifier(Seq<char>),
    Keyword(Seq<char>),
    Possessive(Seq<char>),
    Preposition(Seq<char>),
    Number(NumV),
    Text(Seq<char>),
}

impl View for Token {
    type V = TokenV;

    open spec fn view(&self) -> TokenV {
        match self {
            Token::Identifier(s) => TokenV::Identifier(s@),
            Token::Keyword(s) => TokenV::Keyword(s@),
            Token::Possessive(s) => TokenV::Possessive(s@),
            Token::Preposition(s) => TokenV::Preposition(s@),
            Token::Number(n) => TokenV::Number(n@),
            Token::Text(s) => TokenV::Text(s@),
        }
    }
}

pub open spec fn tokens_model(v: Seq<Token>) -> Seq<TokenV> {
    Seq::new(v.len(), |i: int| v[i]@)
}

/// Why tokenizing failed.
#[derive(Debug, PartialEq, Eq, Structural, Clone, Copy)]
pub enum LexIssue {
    /// A character outside every lexical class.
    Stray(char),
    /// A quoted text with no closing quote.
    UnterminatedText,
    /// A digit run with more than one decimal point.
    BadNumber,
    /// A number too large for the representation.
    HugeNumber,
}

/// A lexical error: the position (in characters) where the offending
/// construct starts, and what was wrong.
#[derive(Debug, PartialEq, Eq, Structural, Clone, Copy)]
pub struct LexError {
    pub at: usize,
    pub issue: LexIssue,
}

/// The mathematical content of a lexical error.
pub struct LexErrV {
    pub at: int,
    pub issue: LexIssue,
}

impl View for LexError {
    type V = LexErrV;

    open spec fn view(&self) -> LexErrV {
        LexErrV { at: self.at as int, issue: self.issue }
    }
}

/// Characters that may open a word.
pub open spec fn word_start_char(c: char) -> bool {
    ('a' as u32 <= c as u32 && c as u32 <= 'z' as u32) || ('A' as u32 <= c as u32 && c as u32
        <= 'Z' as u32) || c == '_'
}

/// Characters that may continue a word.
pub open spec fn word_char(c: char) -> bool {
    alphanumeric_char(c) || c == '_'
}

/// Characters that may continue a number.
pub open spec fn number_char(c: char) -> bool {
    digit_char(c) || c == '.'
}

/// The ASCII punctuation block.
pub open spec fn ascii_punct_char(c: char) -> bool {
    (0x21 <= c as u32 && c as u32 <= 0x2f) || (0x3a <= c as u32 && c as u32 <= 0x40) || (0x5b <= c
        as u32 && c as u32 <= 0x60) || (0x7b <= c as u32 && c as u32 <= 0x7e)
}

/// Characters consumed without producing a token.
pub open spec fn skip_char(c: char) -> bool {
    whitespace_char(c) || (ascii_punct_char(c) && c != '"')
}

/// The fixed preposition set, matched case-insensitively.
pub open spec fn preposition_word(w: Seq<char>) -> bool {
    let l = lowercase_of(w);
    l == "the"@ || l == "a"@ || l == "an"@ || l == "and"@ || l == "also"@
}

/// The fixed keyword set, matched case-insensitively.
pub open spec fn keyword_word(w: Seq<char>) -> bool {
    lowercase_of(w) == "is"@
}

/// The fixed possessive-marker set, matched case-insensitively.
pub open spec fn possessive_word(w: Seq<char>) -> bool {
    let l = lowercase_of(w);
    l == "s"@ || l == "of"@ || l == "has"@ || l == "have"@
}

/// How a word is classified, in priority order; the payload keeps the
/// original casing.
pub open spec fn classify_word(w: Seq<char>) -> TokenV {
    if preposition_word(w) {
        TokenV::Preposition(w)
    } else if keyword_word(w) {
        TokenV::Keyword(w)
    } else if possessive_word(w) {
        TokenV::Possessive(w)
    } else {
        TokenV::Identifier(w)
    }
}

/// Where the word run starting at `i` ends.
pub open spec fn word_end(s: Seq<char>, i: int) -> int
    decreases s.len() - i,
{
    if i < s.len() && word_char(s[i]) {
        word_end(s, i + 1)
    } else {
        i
    }
}

/// Where the number run starting at `i` ends.
pub open spec fn number_end(s: Seq<char>, i: int) -> int
    decreases s.len() - i,
{
    if i < s.len() && number_char(s[i]) {
        number_end(s, i + 1)
    } else {
        i
    }
}

/// Where the quoted text starting after `i` ends: the position of the
/// closing quote, or the end of the input.
pub open spec fn text_end(s: Seq<char>, i: int) -> int
    decreases s.len() - i,
{
    if i < s.len() && s[i] != '"' {
        text_end(s, i + 1)
    } else {
        i
    }
}

pub proof fn lemma_word_end_bounds(s: Seq<char>, i: int)
    requires
        0 <= i <= s.len(),
    ensures
        i <= word_end(s, i) <= s.len(),
    decreases s.len() - i,
{
    if i < s.len() && word_char(s[i]) {
        lemma_word_end_bounds(s, i + 1);
    }
}

pub proof fn lemma_number_end_bounds(s: Seq<char>, i: int)
    requires
        0 <= i <= s.len(),
    ensures
        i <= number_end(s, i) <= s.len(),
    decreases s.len() - i,
{
    if i < s.len() && number_char(s[i]) {
        lemma_number_end_bounds(s, i + 1);
    }
}

pub proof fn lemma_text_end_bounds(s: Seq<char>, i: int)
    requires
        0 <= i <= s.len(),
    ensures
        i <= text_end(s, i) <= s.len(),
    decreases s.len() - i,
{
    if i < s.len() && s[i] != '"' {
        lemma_text_end_bounds(s, i + 1);
    }
}

pub proof fn lemma_word_end_is(s: Seq<char>, i: int, j: int)
    requires
        0 <= i <= j <= s.len(),
        forall|k: int| i <= k < j ==> word_char(#[trigger] s[k]),
        j == s.len() || !word_char(s[j]),
    ensures
        word_end(s, i) == j,
    decreases j - i,
{
    if i < j {
        lemma_word_end_is(s, i + 1, j);
    }
}

pub proof fn lemma_number_end_is(s: Seq<char>, i: int, j: int)
    requires
        0 <= i <= j <= s.len(),
        forall|k: int| i <= k < j ==> number_char(#[trigger] s[k]),
        j == s.len() || !number_char(s[j]),
    ensures
        number_end(s, i) == j,
    decreases j - i,
{
    if i < j {
        lemma_number_end_is(s, i + 1, j);
    }
}

pub proof fn lemma_text_end_is(s: Seq<char>, i: int, j: int)
    requires
        0 <= i <= j <= s.len(),
        forall|k: int| i <= k < j ==> #[trigger] s[k] != '"',
        j == s.len() || s[j] == '"',
    ensures
        text_end(s, i) == j,
    decreases j - i,
{
    if i < j {
        lemma_text_end_is(s, i + 1, j);
    }
}

/// What tokenizing the text from position `i` on yields.
pub open spec fn spec_tokenize_from(s: Seq<char>, i: int) -> Result<Seq<TokenV>, LexErrV>
    decreases s.len() - i,
        when 0 <= i <= s.len()
{
    if i >= s.len() {
        Ok(Seq::empty())
    } else {
        let c = s[i];
        if word_start_char(c) {
            let j = word_end(s, i + 1);
            proof {
                lemma_word_end_bounds(s, i + 1);
            }
            let w = s.subrange(i, j);
            match spec_tokenize_from(s, j) {
                Ok(rest) => Ok(
                    if preposition_word(w) {
                        rest
                    } else {
                        seq![classify_word(w)] + rest
                    },
                ),
                Err(e) => Err(e),
            }
        } else if digit_char(c) {
            let j = number_end(s, i + 1);
            proof {
                lemma_number_end_bounds(s, i + 1);
            }
            let lex = s.subrange(i, j);
            if !decimal_shape(lex) {
                Err(LexErrV { at: i, issue: LexIssue::BadNumber })
            } else if !decimal_fits(lex) {
                Err(LexErrV { at: i, issue: LexIssue::HugeNumber })
            } else {
                match spec_tokenize_from(s, j) {
                    Ok(rest) => Ok(seq![TokenV::Number(decimal_num(lex))] + rest),
                    Err(e) => Err(e),
                }
            }
        } else if c == '"' {
            let j = text_end(s, i + 1);
            proof {
                lemma_text_end_bounds(s, i + 1);
            }
            if j >= s.len() {
                Err(LexErrV { at: i, issue: LexIssue::UnterminatedText })
            } else {
                match spec_tokenize_from(s, j + 1) {
                    Ok(rest) => Ok(seq![TokenV::Text(s.subrange(i + 1, j))] + rest),
                    Err(e) => Err(e),
                }
            }
        } else if skip_char(c) {
            spec_tokenize_from(s, i + 1)
        } else {
            Err(LexErrV { at: i, issue: LexIssue::Stray(c) })
        }
    }
}

/// What tokenizing the whole text yields.
pub open spec fn spec_tokenize(s: Seq<char>) -> Result<Seq<TokenV>, LexErrV> {
    spec_tokenize_from(s, 0)
}

/// Prepositions never reach the output.
pub proof fn lemma_no_preposition(s: Seq<char>, i: int)
    requires
        0 <= i <= s.len(),
    ensures
        spec_tokenize_from(s, i) matches Ok(ts) ==> forall|k: int|
            0 <= k < ts.len() ==> !(#[trigger] ts[k] is Preposition),
    decreases s.len() - i,
{
    if i >= s.len() {
    } else {
        let c = s[i];
        if word_start_char(c) {
            lemma_word_end_bounds(s, i + 1);
            lemma_no_preposition(s, word_end(s, i + 1));
        } else if digit_char(c) {
            lemma_number_end_bounds(s, i + 1);
            lemma_no_preposition(s, number_end(s, i + 1));
        } else if c == '"' {
            lemma_text_end_bounds(s, i + 1);
            if text_end(s, i + 1) < s.len() {
                lemma_no_preposition(s, text_end(s, i + 1) + 1);
            }
        } else if skip_char(c) {
            lemma_no_preposition(s, i + 1);
        }
    }
}

fn is_word_start(c: char) -> (r: bool)
    ensures
        r == word_start_char(c),
{
    let u = c as u32;
    ('a' as u32 <= u && u <= 'z' as u32) || ('A' as u32 <= u && u <= 'Z' as u32) || c == '_'
}

fn is_word_char(c: char) -> (r: bool)
    ensures
        r == word_char(c),
{
    is_alphanumeric(c) || c == '_'
}

fn is_number_char(c: char) -> (r: bool)
    ensures
        r == number_char(c),
{
    crate::number::is_digit(c) || c == '.'
}

fn is_skip(c: char) -> (r: bool)
    ensures
        r == skip_char(c),
{
    if is_whitespace(c) {
        true
    } else {
        let u = c as u32;
        let punct = (0x21 <= u && u <= 0x2f) || (0x3a <= u && u <= 0x40) || (0x5b <= u && u
            <= 0x60) || (0x7b <= u && u <= 0x7e);
        punct && c != '"'
    }
}

fn word_is(w: &String, lit: &str) -> (r: bool)
    ensures
        r == (w@ == lit@),
{
    let other = String::from_str(lit);
    *w == other
}

/// What tokenizing from `i` on with tokens `acc` already in hand yields.
pub open spec fn tokenize_cont(s: Seq<char>, i: int, acc: Seq<TokenV>) -> Result<
    Seq<TokenV>,
    LexErrV,
> {
    match spec_tokenize_from(s, i) {
        Ok(ts) => Ok(acc + ts),
        Err(e) => Err(e),
    }
}

proof fn lemma_cont_push(s: Seq<char>, i: int, j: int, acc: Seq<TokenV>, acc2: Seq<TokenV>, tv: TokenV)
    requires
        0 <= i <= s.len(),
        0 <= j <= s.len(),
        acc2 == acc.push(tv),
        spec_tokenize_from(s, i) == (match spec_tokenize_from(s, j) {
            Ok(rest) => Ok::<Seq<TokenV>, LexErrV>(seq![tv] + rest),
            Err(e) => Err::<Seq<TokenV>, LexErrV>(e),
        }),
    ensures
        tokenize_cont(s, i, acc) == tokenize_cont(s, j, acc2),
{
    match spec_tokenize_from(s, j) {
        Ok(rest) => {
            assert(acc + (seq![tv] + rest) =~= acc.push(tv) + rest);
        },
        Err(_) => {},
    }
}

/// Turns a text into its tokens, or reports the first lexical error.
///
/// Prepositions are recognized and dropped: none remains in the result.
#[verifier::loop_isolation(false)]
pub fn tokenize(text: &str) -> (r: Result<Vec<Token>, LexError>)
    ensures
        r is Ok <==> spec_tokenize(text@) is Ok,
        r matches Ok(v) ==> (spec_tokenize(text@) matches Ok(ts) && tokens_model(v@) == ts),
        r matches Err(e) ==> (spec_tokenize(text@) matches Err(se) && e@ == se),
        r matches Ok(v) ==> forall|k: int| 0 <= k < v@.len() ==> !((#[trigger] v@[k]) is Preposition),
{
    let n = text.unicode_len();
    let mut toks: Vec<Token> = Vec::new();
    let mut i: usize = 0;
    while i < n
        invariant
            i <= n,
            tokenize_cont(text@, i as int, tokens_model(toks@)) == spec_tokenize(text@),
        decreases n - i,
    {
        let ghost i0 = i as int;
        let ghost acc = tokens_model(toks@);
        let c = text.get_char(i);
        if is_word_start(c) {
            let mut j = i + 1;
            while j < n && is_word_char(text.get_char(j))
                invariant
                    i + 1 <= j <= n,
                    forall|k: int| i + 1 <= k < j ==> word_char(#[trigger] text@[k]),
                decreases n - j,
            {
                j = j + 1;
            }
            proof {
                lemma_word_end_is(text@, i0 + 1, j as int);
            }
            let wstr = text.substring_char(i, j);
            let lw = to_lowercase(wstr);
            let ghost w = text@.subrange(i0, j as int);
            if word_is(&lw, "the") || word_is(&lw, "a") || word_is(&lw, "an") || word_is(
                &lw,
                "and",
            ) || word_is(&lw, "also") {
                proof {
                    assert(preposition_word(w));
                }
            } else {
                let payload = String::from_str(wstr);
                let tok = if word_is(&lw, "is") {
                    Token::Keyword(payload)
                } else if word_is(&lw, "s") || word_is(&lw, "of") || word_is(&lw, "has")
                    || word_is(&lw, "have") {
                    Token::Possessive(payload)
                } else {
                    Token::Identifier(payload)
                };
                proof {
                    assert(tok@ == classify_word(w));
                }
                let ghost tv = tok@;
                toks.push(tok);
                proof {
                    assert(tokens_model(toks@) =~= acc.push(tv));
                    lemma_cont_push(text@, i0, j as int, acc, tokens_model(toks@), tv);
                }
            }
            i = j;
        } else if crate::number::is_digit(c) {
            let mut j = i + 1;
            while j < n && is_number_char(text.get_char(j))
                invariant
                    i + 1 <= j <= n,
                    forall|k: int| i + 1 <= k < j ==> number_char(#[trigger] text@[k]),
                decreases n - j,
            {
                j = j + 1;
            }
            proof {
                lemma_number_end_is(text@, i0 + 1, j as int);
            }
            let ghost lex = text@.subrange(i0, j as int);
            match parse_decimal_range(text, i, j) {
                Ok(num) => {
                    let tok = Token::Number(num);
                    let ghost tv = tok@;
                    toks.push(tok);
                    proof {
                        assert(tokens_model(toks@) =~= acc.push(tv));
                        lemma_cont_push(text@, i0, j as int, acc, tokens_model(toks@), tv);
                    }
                    i = j;
                },
                Err(DecimalIssue::BadShape) => {
                    return Err(LexError { at: i, issue: LexIssue::BadNumber });
                },
                Err(DecimalIssue::TooLarge) => {
                    return Err(LexError { at: i, issue: LexIssue::HugeNumber });
                },
            }
        } else if c == '"' {
            let mut j = i + 1;
            while j < n && text.get_char(j) != '"'
                invariant
                    i + 1 <= j <= n,
                    forall|k: int| i + 1 <= k < j ==> #[trigger] text@[k] != '"',
                decreases n - j,
            {
                j = j + 1;
            }
            proof {
                lemma_text_end_is(text@, i0 + 1, j as int);
            }
            if j >= n {
                return Err(LexError { at: i, issue: LexIssue::UnterminatedText });
            }
            let payload = String::from_str(text.substring_char(i + 1, j));
            let tok = Token::Text(payload);
            let ghost tv = tok@;
            toks.push(tok);
            proof {
                assert(tokens_model(toks@) =~= acc.push(tv));
                lemma_cont_push(text@, i0, j as int + 1, acc, tokens_model(toks@), tv);
            }
            i = j + 1;
        } else if is_skip(c) {
            i = i + 1;
        } else {
            return Err(LexError { at: i, issue: LexIssue::Stray(c) });
        }
    }
    proof {
        assert(spec_tokenize_from(text@, n as int) == Ok::<Seq<TokenV>, LexErrV>(Seq::empty()));
        assert(tokens_model(toks@) + Seq::<TokenV>::empty() =~= tokens_model(toks@));
        lemma_no_preposition(text@, 0);
        if spec_tokenize(text@) is Ok {
            let ts = spec_tokenize(text@)->Ok_0;
            assert forall|k: int| 0 <= k < toks@.len() implies !((#[trigger] toks@[k])
                is Preposition) by {
                assert(ts[k] == toks@[k]@);
            }
        }
    }
    Ok(toks)
}

} // verus!
