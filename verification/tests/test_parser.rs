use touhoulang::number::Num;
use touhoulang::parser::parse;
use touhoulang::tokenizer::Token;
use touhoulang::value::{Store, Value};

fn ident(s: &str) -> Token {
    Token::Identifier(s.to_string())
}

fn kword(s: &str) -> Token {
    Token::Keyword(s.to_string())
}

fn poss(s: &str) -> Token {
    Token::Possessive(s.to_string())
}

fn text(s: &str) -> Token {
    Token::Text(s.to_string())
}

fn num(mantissa: u64, scale: usize) -> Token {
    Token::Number(Num::new(mantissa, scale))
}

fn val_num(mantissa: u64, scale: usize) -> Value {
    Value::Number(Num::new(mantissa, scale))
}

fn val_text(s: &str) -> Value {
    Value::Text(s.to_string())
}

fn val_obj(entries: Vec<(&str, Value)>) -> Value {
    let mut st = Store::new();
    for (k, v) in entries {
        st.insert(k.to_string(), v);
    }
    Value::Object(st)
}

fn expect(tokens: Vec<Token>, expected: Vec<(&str, Value)>) {
    let store = parse(tokens).unwrap();
    for (key, val) in expected {
        assert_eq!(store.get(&key.to_string()).unwrap(), &val);
    }
}

#[test]
fn parses_single_value() {
    expect(
        vec![ident("age"), kword("is"), num(17, 0)],
        vec![("age", val_num(17, 0))],
    );
}

#[test]
fn parses_string() {
    expect(
        vec![ident("marisa"), kword("is"), text("marisa")],
        vec![("marisa", val_text("marisa"))],
    );
}

#[test]
fn parses_multiple_values() {
    expect(
        vec![
            ident("age"),
            kword("is"),
            num(17, 0),
            //
            ident("marisa"),
            kword("is"),
            num(18, 0),
        ],
        vec![("age", val_num(17, 0)), ("marisa", val_num(18, 0))],
    );
}

#[test]
fn parses_variable() {
    expect(
        vec![
            ident("age"),
            kword("is"),
            num(17, 0),
            //
            ident("marisa"),
            kword("is"),
            ident("age"),
        ],
        vec![("age", val_num(17, 0)), ("marisa", val_num(17, 0))],
    );
}

#[test]
fn updates_by_variable() {
    expect(
        vec![
            ident("age"),
            kword("is"),
            num(17, 0),
            //
            ident("age"),
            kword("is"),
            num(18, 0),
        ],
        vec![("age", val_num(18, 0))],
    );

    expect(
        vec![
            ident("age"),
            kword("is"),
            num(18, 0),
            //
            ident("marisa"),
            kword("is"),
            num(17, 0),
            //
            ident("marisa"),
            kword("is"),
            ident("age"),
        ],
        vec![("age", val_num(18, 0)), ("marisa", val_num(18, 0))],
    );
}

#[test]
fn parses_attribute() {
    expect(
        vec![
            ident("marisa"),
            poss("s"),
            ident("age"),
            kword("is"),
            num(18, 0),
        ],
        vec![("marisa", val_obj(vec![("age", val_num(18, 0))]))],
    );

    expect(
        vec![ident("marisa"), poss("has"), ident("age"), num(15, 0)],
        vec![("marisa", val_obj(vec![("age", val_num(15, 0))]))],
    );

    expect(
        vec![
            ident("age"),
            poss("of"),
            ident("marisa"),
            kword("is"),
            num(15, 0),
        ],
        vec![("marisa", val_obj(vec![("age", val_num(15, 0))]))],
    );
}

#[test]
fn parses_attribute_variable() {
    expect(
        vec![
            ident("age"),
            kword("is"),
            num(17, 0),
            //
            ident("marisa"),
            poss("s"),
            ident("age"),
            kword("is"),
            ident("age"),
        ],
        vec![
            ("age", val_num(17, 0)),
            ("marisa", val_obj(vec![("age", val_num(17, 0))])),
        ],
    );
}

#[test]
fn updates_attribute() {
    expect(
        vec![
            ident("marisa"),
            poss("s"),
            ident("age"),
            kword("is"),
            num(17, 0),
            //
            ident("marisa"),
            poss("s"),
            ident("age"),
            kword("is"),
            num(18, 0),
        ],
        vec![("marisa", val_obj(vec![("age", val_num(18, 0))]))],
    );

    expect(
        vec![
            ident("age"),
            kword("is"),
            num(18, 0),
            //
            ident("marisa"),
            poss("s"),
            ident("age"),
            kword("is"),
            num(17, 0),
            //
            ident("marisa"),
            poss("s"),
            ident("age"),
            kword("is"),
            ident("age"),
        ],
        vec![
            ("age", val_num(18, 0)),
            ("marisa", val_obj(vec![("age", val_num(18, 0))])),
        ],
    );
}
