use touhoulang::evaluator::{bind, BoundValue, FieldDesc, FieldType, Target};
use touhoulang::number::Num;
use touhoulang::parser::parse;
use touhoulang::tokenizer::tokenize;
use touhoulang::value::{Store, Value};

fn field(name: &str, ty: FieldType) -> FieldDesc {
    FieldDesc {
        name: name.to_string(),
        ty,
    }
}

fn store_of(input: &str) -> Store {
    parse(tokenize(input).unwrap()).unwrap()
}

#[test]
fn integrates_from_start_to_finish() {
    let input = "
        the age is 17, and item is \"Minecraft\".
        the age of marisa is 18, and reimu's age is age, also reimu has an item item
        ";

    let store = store_of(input);

    let globals = Target {
        section: None,
        fields: vec![field("age", FieldType::Number)],
    };
    let reimu = Target {
        section: Some("Reimu".to_string()),
        fields: vec![field("age", FieldType::Number), field("item", FieldType::Text)],
    };
    let marisa = Target {
        section: Some("Marisa".to_string()),
        fields: vec![
            field("age", FieldType::Number),
            field("items", FieldType::List(Box::new(FieldType::Text))),
        ],
    };

    let globals_bound = bind(&store, &globals).unwrap();
    let reimu_bound = bind(&store, &reimu).unwrap();
    let marisa_bound = bind(&store, &marisa).unwrap();

    assert_eq!(globals_bound[0], Some(BoundValue::Number(Num::new(17, 0))));

    assert_eq!(reimu_bound[0], Some(BoundValue::Number(Num::new(17, 0))));
    assert_eq!(reimu_bound[1], Some(BoundValue::Text("Minecraft".to_string())));

    assert_eq!(marisa_bound[0], Some(BoundValue::Number(Num::new(18, 0))));
    assert_eq!(marisa_bound[1], None);
}

#[test]
fn pipeline_builds_nested_store() {
    let store = store_of("reimu's age is 17, reimu's item is \"bow\"");

    let mut expected = Store::new();
    expected.insert("age".to_string(), Value::Number(Num::new(17, 0)));
    expected.insert("item".to_string(), Value::Text("bow".to_string()));

    assert_eq!(store.len(), 1);
    assert_eq!(
        store.get(&"reimu".to_string()).unwrap(),
        &Value::Object(expected)
    );
}
