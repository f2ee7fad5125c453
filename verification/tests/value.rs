use sudoku_core::value::{from_val, options, to_val, Value};

#[test]
fn options_lists_the_nine_digits_in_order() {
    let opts = options();
    assert_eq!(opts.len(), 9);
    assert_eq!(
        opts,
        vec![
            Value::One,
            Value::Two,
            Value::Three,
            Value::Four,
            Value::Five,
            Value::Six,
            Value::Seven,
            Value::Eight,
            Value::Nine,
        ]
    );
    assert!(!opts.contains(&Value::Unknown));
}

#[test]
fn to_val_maps_digits_and_rejects_the_rest() {
    assert_eq!(to_val(0), Value::Unknown);
    assert_eq!(to_val(1), Value::One);
    assert_eq!(to_val(5), Value::Five);
    assert_eq!(to_val(9), Value::Nine);
    assert_eq!(to_val(10), Value::Unknown);
    assert_eq!(to_val(255), Value::Unknown);
}

#[test]
fn from_val_maps_each_variant_to_its_digit() {
    assert_eq!(from_val(Value::One), 1);
    assert_eq!(from_val(Value::Five), 5);
    assert_eq!(from_val(Value::Nine), 9);
    assert_eq!(from_val(Value::Unknown), 0);
}

#[test]
fn val_round_trips() {
    for n in 0u8..=9 {
        assert_eq!(from_val(to_val(n)), n);
    }
    for v in options() {
        assert_eq!(to_val(from_val(v)), v);
    }
    assert_eq!(to_val(from_val(Value::Unknown)), Value::Unknown);
}

#[test]
fn values_sort_in_domain_order() {
    let mut vs = vec![Value::Nine, Value::Unknown, Value::One, Value::Five];
    vs.sort();
    assert_eq!(vs, vec![Value::One, Value::Five, Value::Nine, Value::Unknown]);
}
