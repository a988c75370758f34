use touhoulang::evaluator::{bind, EvalError, FieldDesc, FieldType, Target};
use touhoulang::number::Num;
use touhoulang::parser::{parse, ParseError};
use touhoulang::tokenizer::{tokenize, LexError, LexIssue, Token};
use touhoulang::value::{Store, Value};

fn field(name: &str, ty: FieldType) -> FieldDesc {
    FieldDesc {
        name: name.to_string(),
        ty,
    }
}

#[test]
fn lex_stray_character() {
    assert_eq!(
        tokenize("\u{2603}"),
        Err(LexError {
            at: 0,
            issue: LexIssue::Stray('\u{2603}')
        })
    );
}

#[test]
fn lex_stray_character_position() {
    assert_eq!(
        tokenize("age \u{2603}"),
        Err(LexError {
            at: 4,
            issue: LexIssue::Stray('\u{2603}')
        })
    );
}

#[test]
fn lex_unterminated_text() {
    assert_eq!(
        tokenize("\"abc"),
        Err(LexError {
            at: 0,
            issue: LexIssue::UnterminatedText
        })
    );
}

#[test]
fn lex_number_with_two_points() {
    assert_eq!(
        tokenize("1.2.3"),
        Err(LexError {
            at: 0,
            issue: LexIssue::BadNumber
        })
    );
}

#[test]
fn lex_number_too_large() {
    assert_eq!(
        tokenize("99999999999999999999"),
        Err(LexError {
            at: 0,
            issue: LexIssue::HugeNumber
        })
    );
}

#[test]
fn parse_undefined_variable() {
    let tokens = vec![
        Token::Identifier("b".to_string()),
        Token::Keyword("is".to_string()),
        Token::Identifier("a".to_string()),
    ];
    assert_eq!(
        parse(tokens),
        Err(ParseError::UndefinedVariable {
            name: "a".to_string()
        })
    );
}

#[test]
fn parse_type_conflict_object_then_scalar() {
    let tokens = tokenize("marisa's age is 18, marisa is 5").unwrap();
    assert_eq!(
        parse(tokens),
        Err(ParseError::TypeConflict {
            name: "marisa".to_string()
        })
    );
}

#[test]
fn parse_type_conflict_scalar_then_property() {
    let tokens = tokenize("marisa is 5, marisa's age is 18").unwrap();
    assert_eq!(
        parse(tokens),
        Err(ParseError::TypeConflict {
            name: "marisa".to_string()
        })
    );
}

#[test]
fn parse_unexpected_window() {
    let tokens = vec![
        Token::Number(Num::new(1, 0)),
        Token::Number(Num::new(2, 0)),
        Token::Number(Num::new(3, 0)),
    ];
    assert_eq!(parse(tokens), Err(ParseError::Unexpected { at: 0 }));
}

#[test]
fn parse_truncated_possessive() {
    let tokens = vec![
        Token::Identifier("marisa".to_string()),
        Token::Possessive("s".to_string()),
        Token::Identifier("age".to_string()),
    ];
    assert_eq!(parse(tokens), Err(ParseError::Unexpected { at: 0 }));
}

#[test]
fn bind_number_format_error() {
    let mut store = Store::new();
    store.insert("age".to_string(), Value::Text("abc".to_string()));
    let target = Target {
        section: None,
        fields: vec![field("age", FieldType::Number)],
    };
    assert_eq!(
        bind(&store, &target),
        Err(EvalError::NumberFormat {
            field: "age".to_string()
        })
    );
}

#[test]
fn bind_field_type_mismatch() {
    let mut store = Store::new();
    store.insert("age".to_string(), Value::List(vec![]));
    let target = Target {
        section: None,
        fields: vec![field("age", FieldType::Number)],
    };
    assert_eq!(
        bind(&store, &target),
        Err(EvalError::FieldTypeMismatch {
            field: "age".to_string()
        })
    );
}

#[test]
fn bind_shape_error_on_scalar_section() {
    let mut store = Store::new();
    store.insert("reimu".to_string(), Value::Number(Num::new(5, 0)));
    let target = Target {
        section: Some("Reimu".to_string()),
        fields: vec![field("age", FieldType::Number)],
    };
    assert_eq!(
        bind(&store, &target),
        Err(EvalError::BindingShape {
            name: "Reimu".to_string()
        })
    );
}
