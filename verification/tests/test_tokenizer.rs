use touhoulang::number::Num;
use touhoulang::tokenizer::{tokenize, Token};

fn ident(s: &str) -> Token {
    Token::Identifier(s.to_string())
}

fn kword(s: &str) -> Token {
    Token::Keyword(s.to_string())
}

fn poss(s: &str) -> Token {
    Token::Possessive(s.to_string())
}

fn text(s: &str) -> Token {
    Token::Text(s.to_string())
}

fn num(mantissa: u64, scale: usize) -> Token {
    Token::Number(Num::new(mantissa, scale))
}

fn expect(input: &str, tokens: Vec<Token>) {
    assert_eq!(tokenize(input).unwrap(), tokens);
}

#[test]
fn empty_is_empty_list() {
    expect("", vec![]);
}

#[test]
fn recognizes_identifiers() {
    expect("abc", vec![ident("abc")]);
}

#[test]
fn ignores_whitespace() {
    expect("    abc    ", vec![ident("abc")]);
}

#[test]
fn recognizes_string() {
    expect(r#""marisa""#, vec![text("marisa")]);
}

#[test]
fn recognizes_numbers() {
    expect("123", vec![num(123, 0)]);
    expect("1.23", vec![num(123, 2)]);
}

#[test]
fn recognizes_keywords() {
    expect("is marisa", vec![kword("is"), ident("marisa")]);
}

#[test]
fn excludes_prepositions() {
    expect("the a an", vec![]);
}

#[test]
fn multiple_tokens() {
    expect("abc 123", vec![ident("abc"), num(123, 0)]);

    expect(
        "reimu age is 17",
        vec![ident("reimu"), ident("age"), kword("is"), num(17, 0)],
    );
}

#[test]
fn recognizes_posesives() {
    expect("mcdonald's", vec![ident("mcdonald"), poss("s")]);
    expect("minecraft has", vec![ident("minecraft"), poss("has")]);
    expect("age of reimu", vec![ident("age"), poss("of"), ident("reimu")]);
}

#[test]
fn recognizes_multiple_phrases() {
    expect(
        "reimu's age is 17, and marisa's age is 18",
        vec![
            ident("reimu"),
            poss("s"),
            ident("age"),
            kword("is"),
            num(17, 0),
            //
            ident("marisa"),
            poss("s"),
            ident("age"),
            kword("is"),
            num(18, 0),
        ],
    )
}
