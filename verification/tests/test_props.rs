use touhoulang::evaluator::{bind, BoundValue, FieldDesc, FieldType, Target};
use touhoulang::number::Num;
use touhoulang::parser::parse;
use touhoulang::tokenizer::{tokenize, Token};
use touhoulang::value::{Store, Value};

fn field(name: &str, ty: FieldType) -> FieldDesc {
    FieldDesc {
        name: name.to_string(),
        ty,
    }
}

fn store_of(input: &str) -> Store {
    parse(tokenize(input).unwrap()).unwrap()
}

#[test]
fn no_prepositions_remain() {
    let tokens = tokenize("the age of reimu is 17 and also an item").unwrap();
    for t in &tokens {
        assert!(!matches!(t, Token::Preposition(_)));
    }
    assert_eq!(tokens.len(), 6);
}

#[test]
fn reassignment_keeps_only_the_last_value() {
    let store = store_of("age is 17, age is 18");
    assert_eq!(store.len(), 1);
    assert_eq!(
        store.get(&"age".to_string()).unwrap(),
        &Value::Number(Num::new(18, 0))
    );
}

#[test]
fn possessive_merge_is_additive() {
    let store = store_of("marisa's age is 18, marisa's name is \"Marisa\"");
    assert_eq!(store.len(), 1);
    let mut expected = Store::new();
    expected.insert("age".to_string(), Value::Number(Num::new(18, 0)));
    expected.insert("name".to_string(), Value::Text("Marisa".to_string()));
    assert_eq!(
        store.get(&"marisa".to_string()).unwrap(),
        &Value::Object(expected)
    );
}

#[test]
fn variable_copy_does_not_alias() {
    let store = store_of("age is 17, marisa is age, age is 18");
    assert_eq!(
        store.get(&"marisa".to_string()).unwrap(),
        &Value::Number(Num::new(17, 0))
    );
    assert_eq!(
        store.get(&"age".to_string()).unwrap(),
        &Value::Number(Num::new(18, 0))
    );
}

#[test]
fn binder_ignores_unknown_keys() {
    let mut store = Store::new();
    store.insert("age".to_string(), Value::Number(Num::new(17, 0)));
    store.insert("unused".to_string(), Value::Number(Num::new(5, 0)));
    let target = Target {
        section: None,
        fields: vec![field("age", FieldType::Number)],
    };
    let bound = bind(&store, &target).unwrap();
    assert_eq!(bound, vec![Some(BoundValue::Number(Num::new(17, 0)))]);
}

#[test]
fn binder_defaults_absent_section() {
    let store = store_of("age is 17");
    let target = Target {
        section: Some("Reimu".to_string()),
        fields: vec![field("age", FieldType::Number), field("item", FieldType::Text)],
    };
    let bound = bind(&store, &target).unwrap();
    assert_eq!(bound, vec![None, None]);
}

#[test]
fn number_renders_as_decimal_text() {
    assert_eq!(Num::new(125, 1).to_text(), "12.5");
    assert_eq!(Num::new(5, 3).to_text(), "0.005");
    assert_eq!(Num::new(17, 0).to_text(), "17");
    assert_eq!(Num::new(10, 1).to_text(), "1");
    assert_eq!(Num::new(0, 0).to_text(), "0");
}

#[test]
fn binder_converts_between_number_and_text() {
    let mut store = Store::new();
    store.insert("damage".to_string(), Value::Number(Num::new(125, 1)));
    store.insert("age".to_string(), Value::Text("42".to_string()));
    let target = Target {
        section: None,
        fields: vec![field("damage", FieldType::Text), field("age", FieldType::Number)],
    };
    let bound = bind(&store, &target).unwrap();
    assert_eq!(bound[0], Some(BoundValue::Text("12.5".to_string())));
    assert_eq!(bound[1], Some(BoundValue::Number(Num::new(42, 0))));
}

#[test]
fn keys_are_case_normalized() {
    let store = store_of("AGE is 17, Reimu's Item is \"bow\"");
    assert_eq!(
        store.get(&"age".to_string()).unwrap(),
        &Value::Number(Num::new(17, 0))
    );
    let mut expected = Store::new();
    expected.insert("item".to_string(), Value::Text("bow".to_string()));
    assert_eq!(
        store.get(&"reimu".to_string()).unwrap(),
        &Value::Object(expected)
    );
}

#[test]
fn unicode_whitespace_separates_tokens() {
    let tokens = tokenize("x\u{00a0}y").unwrap();
    assert_eq!(
        tokens,
        vec![
            Token::Identifier("x".to_string()),
            Token::Identifier("y".to_string())
        ]
    );
}

#[test]
fn unicode_letters_stay_inside_words() {
    let tokens = tokenize("ab\u{00e9}").unwrap();
    assert_eq!(tokens, vec![Token::Identifier("ab\u{00e9}".to_string())]);
}

#[test]
fn number_parses_leading_fraction_forms() {
    let store = store_of("half is \"0.5\", trailing is \".5\", whole is \"5.\"");
    let target = Target {
        section: None,
        fields: vec![
            field("half", FieldType::Number),
            field("trailing", FieldType::Number),
            field("whole", FieldType::Number),
        ],
    };
    let bound = bind(&store, &target).unwrap();
    assert_eq!(bound[0], Some(BoundValue::Number(Num::new(5, 1))));
    assert_eq!(bound[1], Some(BoundValue::Number(Num::new(5, 1))));
    assert_eq!(bound[2], Some(BoundValue::Number(Num::new(5, 0))));
}
