//! The value domain of a cell: nine digits plus an "empty/unknown" sentinel.

use vstd::prelude::*;

verus! {

/// One of the ten possible cell contents.  `Unknown` stands for "no digit
/// placed", so that an empty cell is a distinct domain value rather than a
/// digit.
#[derive(Clone, Copy, PartialEq, Eq, Structural, Debug, Hash, PartialOrd, Ord, Default)]
pub enum Value {
    One,
    Two,
    Three,
    Four,
    Five,
    Six,
    Seven,
    Eight,
    Nine,
    #[default]
    Unknown,
}

/// The digit that a domain value stands for; `Unknown` stands for 0.
pub open spec fn spec_from_val(v: Value) -> u8 {
    match v {
        Value::One => 1,
        Value::Two => 2,
        Value::Three => 3,
        Value::Four => 4,
        Value::Five => 5,
        Value::Six => 6,
        Value::Seven => 7,
        Value::Eight => 8,
        Value::Nine => 9,
        Value::Unknown => 0,
    }
}

/// The domain value of a digit; anything outside 1..=9 maps to `Unknown`.
pub open spec fn spec_to_val(n: u8) -> Value {
    if n == 1 {
        Value::One
    } else if n == 2 {
        Value::Two
    } else if n == 3 {
        Value::Three
    } else if n == 4 {
        Value::Four
    } else if n == 5 {
        Value::Five
    } else if n == 6 {
        Value::Six
    } else if n == 7 {
        Value::Seven
    } else if n == 8 {
        Value::Eight
    } else if n == 9 {
        Value::Nine
    } else {
        Value::Unknown
    }
}

/// The nine digit values, in ascending order; `Unknown` is not among them.
pub fn options() -> (r: Vec<Value>)
    ensures
        r@ == seq![
            Value::One,
            Value::Two,
            Value::Three,
            Value::Four,
            Value::Five,
            Value::Six,
            Value::Seven,
            Value::Eight,
            Value::Nine,
        ],
{
    let mut r: Vec<Value> = Vec::new();
    r.push(Value::One);
    r.push(Value::Two);
    r.push(Value::Three);
    r.push(Value::Four);
    r.push(Value::Five);
    r.push(Value::Six);
    r.push(Value::Seven);
    r.push(Value::Eight);
    r.push(Value::Nine);
    proof {
        assert(r@ =~= seq![
            Value::One,
            Value::Two,
            Value::Three,
            Value::Four,
            Value::Five,
            Value::Six,
            Value::Seven,
            Value::Eight,
            Value::Nine,
        ]);
    }
    r
}

/// Converts a stored digit to its domain value; anything outside 1..=9
/// becomes `Unknown`.
pub fn to_val(n: u8) -> (r: Value)
    ensures
        r == spec_to_val(n),
{
    match n {
        1 => Value::One,
        2 => Value::Two,
        3 => Value::Three,
        4 => Value::Four,
        5 => Value::Five,
        6 => Value::Six,
        7 => Value::Seven,
        8 => Value::Eight,
        9 => Value::Nine,
        _ => Value::Unknown,
    }
}

/// Converts a domain value to the digit it stands for; `Unknown` becomes 0.
pub fn from_val(v: Value) -> (r: u8)
    ensures
        r == spec_from_val(v),
{
    match v {
        Value::One => 1,
        Value::Two => 2,
        Value::Three => 3,
        Value::Four => 4,
        Value::Five => 5,
        Value::Six => 6,
        Value::Seven => 7,
        Value::Eight => 8,
        Value::Nine => 9,
        Value::Unknown => 0,
    }
}

} // verus!
