use touhoulang::evaluator::{bind, BoundValue, FieldDesc, FieldType, Target};
use touhoulang::number::Num;
use touhoulang::value::{Store, Value};

fn field(name: &str, ty: FieldType) -> FieldDesc {
    FieldDesc {
        name: name.to_string(),
        ty,
    }
}

#[test]
fn evaluates_globals() {
    let mut store = Store::new();
    store.insert("text".to_string(), Value::Text("hi mom!".to_string()));
    store.insert("number".to_string(), Value::Number(Num::new(69, 0)));

    let target = Target {
        section: None,
        fields: vec![
            field("text", FieldType::Text),
            field("number", FieldType::Number),
        ],
    };
    let bound = bind(&store, &target).unwrap();

    assert_eq!(bound[0], Some(BoundValue::Text("hi mom!".to_string())));
    assert_eq!(bound[1], Some(BoundValue::Number(Num::new(69, 0))));
}

#[test]
fn evaluates_objects() {
    let mut reimu = Store::new();
    reimu.insert("age".to_string(), Value::Number(Num::new(17, 0)));
    reimu.insert(
        "items".to_string(),
        Value::List(vec![
            Value::Text("bow".to_string()),
            Value::Text("arrow".to_string()),
        ]),
    );
    reimu.insert(
        "numbers".to_string(),
        Value::List(vec![
            Value::Number(Num::new(1, 0)),
            Value::Number(Num::new(2, 0)),
            Value::Number(Num::new(3, 0)),
        ]),
    );
    let mut store = Store::new();
    store.insert("reimu".to_string(), Value::Object(reimu));

    let target = Target {
        section: Some("Reimu".to_string()),
        fields: vec![
            field("age", FieldType::Number),
            field("items", FieldType::List(Box::new(FieldType::Text))),
            field("numbers", FieldType::List(Box::new(FieldType::Number))),
        ],
    };
    let bound = bind(&store, &target).unwrap();

    assert_eq!(bound[0], Some(BoundValue::Number(Num::new(17, 0))));
    assert_eq!(
        bound[1],
        Some(BoundValue::List(vec![
            BoundValue::Text("bow".to_string()),
            BoundValue::Text("arrow".to_string()),
        ]))
    );
    assert_eq!(
        bound[2],
        Some(BoundValue::List(vec![
            BoundValue::Number(Num::new(1, 0)),
            BoundValue::Number(Num::new(2, 0)),
            BoundValue::Number(Num::new(3, 0)),
        ]))
    );
}
