use solar_front::ast::{IntLiteral, IntTypeSuffix};
use solar_front::value::Value;
use solar_front::error::CompilationError;
use solar_front::scope::Scope;
use solar_front::types::{BuildinTypeId, Type};
use solar_front::util::eval_int;
use solar_front::value::Int;

fn s(x: &str) -> String {
    x.to_string()
}

fn ids() -> BuildinTypeId {
    BuildinTypeId {
        bool_id: 0,
        int8_id: 1,
        int16_id: 2,
        int32_id: 3,
        int_id: 4,
        uint8_id: 5,
        uint16_id: 6,
        uint32_id: 7,
        uint_id: 8,
        float32_id: 9,
        float_id: 10,
        string_id: 11,
    }
}

fn lit(digits: &str, radix: u32, suffix: Option<IntTypeSuffix>) -> IntLiteral {
    IntLiteral { digits: s(digits), radix, type_suffix: suffix }
}

#[test]
fn decimal_default_is_signed_64_bit() {
    let t = ids();
    let (v, ty) = eval_int(&lit("7", 10, None), &t).expect("parse");
    assert!(matches!(v, Int::Int64(7)));
    assert_eq!(ty, t.int_id);
}

#[test]
fn hexadecimal_digits_evaluate() {
    let t = ids();
    let (v, ty) = eval_int(&lit("ff", 16, Some(IntTypeSuffix::Uint8)), &t).expect("parse");
    assert!(matches!(v, Int::Uint8(255)));
    assert_eq!(ty, t.uint8_id);
}

#[test]
fn negative_bound_of_a_width_fits() {
    let t = ids();
    let (v, ty) = eval_int(&lit("-128", 10, Some(IntTypeSuffix::Int8)), &t).expect("parse");
    assert!(matches!(v, Int::Int8(-128)));
    assert_eq!(ty, t.int8_id);
}

#[test]
fn overflow_and_bad_digits_are_conversion_errors() {
    let t = ids();
    match eval_int(&lit("128", 10, Some(IntTypeSuffix::Int8)), &t) {
        Err(CompilationError::IntConversion { literal }) => assert_eq!(literal, "128"),
        other => panic!("expected overflow error, got {:?}", other),
    }
    assert!(eval_int(&lit("12x", 10, None), &t).is_err());
    assert!(eval_int(&lit("", 10, None), &t).is_err());
    assert!(eval_int(&lit("-", 10, None), &t).is_err());
    assert!(eval_int(&lit("19", 8, None), &t).is_err());
    // a minus sign never fits an unsigned width, not even on zero
    assert!(eval_int(&lit("-0", 10, Some(IntTypeSuffix::Uint)), &t).is_err());
    assert!(eval_int(&lit("-1", 10, Some(IntTypeSuffix::Uint8)), &t).is_err());
    // a plus sign is fine on any width
    let (v, _) = eval_int(&lit("+7", 10, Some(IntTypeSuffix::Uint)), &t).expect("parse");
    assert!(matches!(v, Int::Uint64(7)));
}

#[test]
fn binary_and_largest_values() {
    let t = ids();
    let (v, _) = eval_int(&lit("101", 2, None), &t).expect("parse");
    assert!(matches!(v, Int::Int64(5)));
    let (v, _) = eval_int(&lit("ffffffffffffffff", 16, Some(IntTypeSuffix::Uint)), &t)
        .expect("parse");
    assert!(matches!(v, Int::Uint64(u64::MAX)));
    assert!(eval_int(&lit("8000000000000000", 16, None), &t).is_err());
    let (v, _) = eval_int(&lit("-8000000000000000", 16, None), &t).expect("parse");
    assert!(matches!(v, Int::Int64(i64::MIN)));
}

#[test]
fn scope_lookup_respects_shadowing_and_slots() {
    let mut scope = Scope::new();
    let a = scope.push(s("x"), 4);
    let b = scope.push(s("y"), 11);
    let c = scope.push(s("x"), 11);
    assert_eq!((a, b, c), (0, 1, 2));
    assert_eq!(scope.get(&s("x")), Some((11, 2)));
    assert_eq!(scope.get(&s("y")), Some((11, 1)));
    assert_eq!(scope.get(&s("z")), None);
    let popped = scope.pop();
    assert_eq!(popped, (11, 2));
    assert_eq!(scope.get(&s("x")), Some((4, 0)));
    // slots keep counting after a pop
    let d = scope.push(s("w"), 0);
    assert_eq!(d, 3);
    assert_eq!(scope.len(), 3);
}

#[test]
fn field_lookup_reports_offset_length_and_type() {
    let ty = Type {
        info_name: s("Pair"),
        module: vec![s("self")],
        size_in_bytes: 12,
        field_layout: vec![(s("first"), 0, 4), (s("second"), 8, 5)],
    };
    assert_eq!(ty.get_field(&s("first")), Ok((0, 8, 4)));
    assert_eq!(ty.get_field(&s("second")), Ok((8, 4, 5)));
    assert_eq!(ty.get_field(&s("third")), Err(()));
}

#[test]
fn value_kind_names() {
    assert_eq!(Value::Void.type_as_str(), "Void");
    assert_eq!(Value::Bool(true).type_as_str(), "Bool");
    assert_eq!(Value::Int(Int::Int8(1)).type_as_str(), "Int");
    assert_eq!(Value::Float(0).type_as_str(), "Float");
    assert_eq!(Value::String(s("a")).type_as_str(), "String");
}
