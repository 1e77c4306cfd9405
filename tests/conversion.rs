use matrix_job::conv::{to_json_model, to_liquid_model, ConvError, JsonValue, TemplateValue};
use matrix_job::pipeline::{convert_map, json_scope};
use matrix_job::value::{Number, SourceValue};

const NAN_BITS: u64 = 0x7ff8_0000_0000_0000;
const INF_BITS: u64 = 0x7ff0_0000_0000_0000;

#[test]
fn scalars_to_json() {
    assert!(matches!(to_json_model(&SourceValue::Null), Ok(JsonValue::Null)));
    assert!(matches!(to_json_model(&SourceValue::Bool(true)), Ok(JsonValue::Bool(true))));
    match to_json_model(&SourceValue::String("a \"b\"".to_string())) {
        Ok(JsonValue::String(x)) => assert_eq!(x, "a \"b\""),
        other => panic!("unexpected {:?}", other),
    }
    assert!(matches!(
        to_json_model(&SourceValue::Number(Number::PosInt(u64::MAX))),
        Ok(JsonValue::Number(Number::PosInt(u64::MAX)))
    ));
    assert!(matches!(
        to_json_model(&SourceValue::Number(Number::NegInt(-5))),
        Ok(JsonValue::Number(Number::NegInt(-5)))
    ));
    assert!(matches!(
        to_json_model(&SourceValue::Number(Number::NegInt(7))),
        Ok(JsonValue::Number(Number::PosInt(7)))
    ));
    let one_and_half = 1.5f64.to_bits();
    assert!(matches!(
        to_json_model(&SourceValue::Number(Number::Float(one_and_half))),
        Ok(JsonValue::Number(Number::Float(b))) if b == one_and_half
    ));
}

#[test]
fn json_rejects_nan_and_infinity() {
    assert_eq!(
        to_json_model(&SourceValue::Number(Number::Float(NAN_BITS))).unwrap_err(),
        ConvError::InvalidNumber
    );
    assert_eq!(
        to_json_model(&SourceValue::Number(Number::Float(INF_BITS))).unwrap_err(),
        ConvError::InvalidNumber
    );
}

#[test]
fn template_numbers() {
    assert!(matches!(
        to_liquid_model(&SourceValue::Number(Number::PosInt(42))),
        Ok(TemplateValue::Integer(42))
    ));
    assert!(matches!(
        to_liquid_model(&SourceValue::Number(Number::PosInt(i64::MAX as u64))),
        Ok(TemplateValue::Integer(i64::MAX))
    ));
    assert_eq!(
        to_liquid_model(&SourceValue::Number(Number::PosInt(i64::MAX as u64 + 1))).unwrap_err(),
        ConvError::InvalidNumber
    );
    assert!(matches!(
        to_liquid_model(&SourceValue::Number(Number::NegInt(i64::MIN))),
        Ok(TemplateValue::Integer(i64::MIN))
    ));
    assert!(matches!(
        to_liquid_model(&SourceValue::Number(Number::Float(NAN_BITS))),
        Ok(TemplateValue::Float(NAN_BITS))
    ));
}

#[test]
fn nested_trees_convert() {
    let v = SourceValue::Mapping(vec![
        (
            SourceValue::String("list".to_string()),
            SourceValue::Sequence(vec![SourceValue::Bool(false), SourceValue::Null]),
        ),
        (
            SourceValue::String("n".to_string()),
            SourceValue::Number(Number::PosInt(3)),
        ),
    ]);
    match to_json_model(&v) {
        Ok(JsonValue::Object(o)) => {
            assert_eq!(o.len(), 2);
            assert_eq!(o[0].0, "list");
            assert!(matches!(&o[0].1, JsonValue::Array(a) if a.len() == 2));
            assert!(matches!(o[1].1, JsonValue::Number(Number::PosInt(3))));
        }
        other => panic!("unexpected {:?}", other),
    }
    match to_liquid_model(&v) {
        Ok(TemplateValue::Object(o)) => {
            assert_eq!(o[1].0, "n");
            assert!(matches!(o[1].1, TemplateValue::Integer(3)));
            assert!(matches!(&o[0].1, TemplateValue::Array(a) if matches!(a[1], TemplateValue::Nil)));
        }
        other => panic!("unexpected {:?}", other),
    }
}

#[test]
fn non_string_key_rejected() {
    let v = SourceValue::Mapping(vec![(SourceValue::Number(Number::PosInt(1)), SourceValue::Null)]);
    assert_eq!(to_json_model(&v).unwrap_err(), ConvError::NonStringKey);
    assert_eq!(to_liquid_model(&v).unwrap_err(), ConvError::NonStringKey);
}

#[test]
fn tag_rejected_at_any_depth() {
    let v = SourceValue::Sequence(vec![SourceValue::Null, SourceValue::Tagged]);
    assert_eq!(to_json_model(&v).unwrap_err(), ConvError::UnsupportedTag);
    assert_eq!(to_liquid_model(&v).unwrap_err(), ConvError::UnsupportedTag);
}

#[test]
fn environment_scopes() {
    let env = vec![
        ("os".to_string(), SourceValue::String("mac".to_string())),
        ("v".to_string(), SourceValue::Number(Number::NegInt(-1))),
    ];
    match json_scope(&env) {
        Ok(JsonValue::Object(o)) => {
            assert_eq!(o[0].0, "os");
            assert!(matches!(&o[0].1, JsonValue::String(x) if x == "mac"));
            assert!(matches!(o[1].1, JsonValue::Number(Number::NegInt(-1))));
        }
        other => panic!("unexpected {:?}", other),
    }
    let t = convert_map(&env).unwrap();
    assert_eq!(t[1].0, "v");
    assert!(matches!(t[1].1, TemplateValue::Integer(-1)));
    let bad = vec![("x".to_string(), SourceValue::Tagged)];
    assert_eq!(json_scope(&bad).unwrap_err(), ConvError::UnsupportedTag);
}

#[test]
fn deep_copy_keeps_tree() {
    let v = SourceValue::Sequence(vec![SourceValue::String("a".to_string())]);
    match v.deep_copy() {
        SourceValue::Sequence(items) => assert!(matches!(&items[0], SourceValue::String(x) if x == "a")),
        other => panic!("unexpected {:?}", other),
    }
}

#[test]
fn first_failure_wins() {
    let v = SourceValue::Sequence(vec![
        SourceValue::Number(Number::Float(NAN_BITS)),
        SourceValue::Tagged,
    ]);
    assert_eq!(to_json_model(&v).unwrap_err(), ConvError::InvalidNumber);
    assert_eq!(to_liquid_model(&v).unwrap_err(), ConvError::UnsupportedTag);
}

#[test]
fn entry_order_differs_by_target() {
    let v = SourceValue::Mapping(vec![(SourceValue::Bool(true), SourceValue::Tagged)]);
    assert_eq!(to_json_model(&v).unwrap_err(), ConvError::UnsupportedTag);
    assert_eq!(to_liquid_model(&v).unwrap_err(), ConvError::NonStringKey);
}
