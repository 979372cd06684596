use cell_lang::value::Value;

// The two coercion tables are intentionally inverted for booleans: `as_num`
// maps `true` to 0 and `false` to 1, while truthiness keeps `true` true.
// Both directions are asserted independently.
#[test]
fn bool_coercions_are_inverted() {
    assert_eq!(Value::Bool(true).as_num_opt(), Some(0));
    assert_eq!(Value::Bool(false).as_num_opt(), Some(1));
    assert!(Value::Bool(true).as_bool());
    assert!(!Value::Bool(false).as_bool());
}

// Integer division truncates toward zero: 7 / 2 is 3.
#[test]
fn division_truncates() {
    let v = Value::Int(7).div(&Value::Int(2)).unwrap();
    assert!(matches!(v, Value::Int(3)));
}

#[test]
fn division_by_zero_is_undefined() {
    assert!(Value::Int(7).div(&Value::Int(0)).is_none());
    assert!(Value::Int(7).modulus(&Value::Int(0)).is_none());
}

#[test]
fn addition_wraps() {
    let v = Value::Int(255).add(&Value::Int(3)).unwrap();
    assert!(matches!(v, Value::Int(2)));
}

#[test]
fn string_addition_concatenates() {
    let v = Value::String("ab".to_string()).add(&Value::String("cd".to_string())).unwrap();
    match v {
        Value::String(s) => assert_eq!(s, "abcd"),
        other => panic!("expected a string, got {:?}", other),
    }
}

#[test]
fn subtraction_wraps() {
    let v = Value::Int(1).sub(&Value::Int(3)).unwrap();
    assert!(matches!(v, Value::Int(254)));
}

#[test]
fn multiplication_of_bool_and_array() {
    let v = Value::Bool(true).mul(&Value::Int(7)).unwrap();
    assert!(matches!(v, Value::Int(7)));
    let w = Value::Bool(false).mul(&Value::Int(7)).unwrap();
    assert!(matches!(w, Value::Int(0)));
    let arr = Value::Array(vec![Value::Int(1), Value::Int(2)]);
    let r = arr.mul(&Value::Int(3)).unwrap();
    match r {
        Value::Array(items) => {
            assert_eq!(items.len(), 6);
            assert!(matches!(items[0], Value::Int(1)));
            assert!(matches!(items[5], Value::Int(2)));
        },
        other => panic!("expected an array, got {:?}", other),
    }
}

#[test]
fn modulus_of_integers() {
    let v = Value::Int(7).modulus(&Value::Int(3)).unwrap();
    assert!(matches!(v, Value::Int(1)));
}

#[test]
fn undefined_operand_pairings() {
    assert!(Value::Int(1).add(&Value::Bool(true)).is_none());
    assert!(Value::String("a".to_string()).sub(&Value::Int(1)).is_none());
    assert!(Value::Unit.mul(&Value::Int(2)).is_none());
}

#[test]
fn logic_uses_truthiness() {
    let v = Value::Int(2).and(&Value::String("x".to_string())).unwrap();
    assert!(matches!(v, Value::Bool(true)));
    let w = Value::Int(0).or(&Value::Unit).unwrap();
    assert!(matches!(w, Value::Bool(false)));
}

#[test]
fn truthiness_table() {
    assert!(Value::Int(1).as_bool());
    assert!(!Value::Int(0).as_bool());
    assert!(Value::String("x".to_string()).as_bool());
    assert!(!Value::String(String::new()).as_bool());
    assert!(Value::Char('a').as_bool());
    assert!(!Value::Char('\0').as_bool());
    assert!(Value::Array(vec![Value::Unit]).as_bool());
    assert!(!Value::Array(vec![]).as_bool());
    assert!(Value::Function("f".to_string()).as_bool());
    assert!(!Value::Unit.as_bool());
    assert!(Value::Unknown.as_bool());
}

#[test]
fn numeric_coercion_table() {
    assert_eq!(Value::Int(9).as_num_opt(), Some(9));
    assert_eq!(Value::Char('A').as_num_opt(), Some(65));
    assert_eq!(Value::Unit.as_num_opt(), Some(0));
    assert_eq!(Value::Unknown.as_num_opt(), Some(0));
    assert_eq!(Value::String("1".to_string()).as_num_opt(), None);
    assert_eq!(Value::Array(vec![]).as_num_opt(), None);
}

#[test]
fn comparisons_follow_the_total_order() {
    assert!(Value::Int(1).compare(&Value::Int(2)) < 0);
    assert!(Value::Int(2).compare(&Value::Int(2)) == 0);
    assert!(Value::Int(3).compare(&Value::Int(2)) > 0);
    // Across variants, the declaration order of the union decides.
    assert!(Value::Int(200).compare(&Value::String(String::new())) < 0);
    assert!(Value::Bool(false).compare(&Value::Bool(true)) < 0);
    assert!(
        Value::String("ab".to_string()).compare(&Value::String("b".to_string())) < 0
    );
    assert!(Value::Unknown.compare(&Value::Unknown) == 0);
}

#[test]
fn equality_is_structural() {
    let a = Value::Array(vec![Value::Int(1), Value::String("x".to_string())]);
    let b = Value::Array(vec![Value::Int(1), Value::String("x".to_string())]);
    let c = Value::Array(vec![Value::Int(2), Value::String("x".to_string())]);
    assert!(a.equals(&b));
    assert!(!a.equals(&c));
    assert!(!a.equals(&Value::Int(1)));
    let d = a.clone();
    assert!(a.equals(&d));
}
