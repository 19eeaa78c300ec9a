//! What the operators of the language do to values.

use crate::error::{Error, SpecError};
use crate::float::{
    difference_of_bits, float_difference, float_equal, float_less, float_negated,
    float_of_int, float_product, float_quotient, float_remainder, float_sum, product_of_bits,
    quotient_of_bits, remainder_of_bits, sum_of_bits, Float,
};
use crate::function::outcome_view;
use crate::value::{
    field_views, lemma_array_view, lemma_object_view, same, views, SpecField, SpecValue, Value,
};
use vstd::prelude::*;

verus! {

/// The number of values that 64 bits can hold.
pub open spec fn modulus() -> int {
    0x1_0000_0000_0000_0000
}

/// The 64-bit signed integer that agrees with `x` in its low 64 bits: what
/// integer arithmetic gives where the exact result does not fit.
pub open spec fn wrapped(x: int) -> int {
    let low = x % modulus();
    if low > i64::MAX {
        low - modulus()
    } else {
        low
    }
}

/// The quotient of `x` by `d`, rounded toward zero.
pub open spec fn truncated_quotient(x: int, d: int) -> int
    recommends
        d != 0,
{
    if x >= 0 && d > 0 {
        x / d
    } else if x < 0 && d < 0 {
        (-x) / (-d)
    } else if x < 0 {
        -((-x) / d)
    } else {
        -(x / (-d))
    }
}

/// What is left of `x` after the division by `d` that rounds toward zero:
/// it has the sign of `x`.
pub open spec fn truncated_remainder(x: int, d: int) -> int
    recommends
        d != 0,
{
    let size = if d < 0 {
        -d
    } else {
        d
    };
    if x >= 0 {
        x % size
    } else {
        -((-x) % size)
    }
}

/// The four rules of arithmetic, and the remainder.
#[derive(Clone, Copy, Debug, PartialEq, Eq, Structural)]
pub enum Arithmetic {
    Add,
    Sub,
    Mul,
    Div,
    Mod,
}

/// The four comparisons of numbers by order.
#[derive(Clone, Copy, Debug, PartialEq, Eq, Structural)]
pub enum Comparison {
    Lt,
    Gt,
    Leq,
    Geq,
}

/// The value is an `Int` or a `Float`.
pub open spec fn is_number(v: SpecValue) -> bool {
    v is Int || v is Float
}

/// The bits of a number as a `Float`: an `Int` is rounded to the nearest
/// one.
pub open spec fn promoted(v: SpecValue) -> int
    recommends
        is_number(v),
{
    match v {
        SpecValue::Int(x) => float_of_int(x as i64) as int,
        SpecValue::Float(bits) => bits,
        _ => 0,
    }
}

/// Integer arithmetic: sums, differences, products and quotients wrap to 64
/// bits; quotient and remainder are those of the division that rounds toward
/// zero, and there is none by zero.
pub open spec fn integer_arithmetic(op: Arithmetic, x: int, y: int) -> Result<SpecValue, SpecError> {
    match op {
        Arithmetic::Add => Ok(SpecValue::Int(wrapped(x + y))),
        Arithmetic::Sub => Ok(SpecValue::Int(wrapped(x - y))),
        Arithmetic::Mul => Ok(SpecValue::Int(wrapped(x * y))),
        Arithmetic::Div => if y == 0 {
            Err(SpecError::DivisionByZero)
        } else {
            Ok(SpecValue::Int(wrapped(truncated_quotient(x, y))))
        },
        Arithmetic::Mod => if y == 0 {
            Err(SpecError::DivisionByZero)
        } else {
            Ok(SpecValue::Int(truncated_remainder(x, y)))
        },
    }
}

/// Arithmetic on the bits of two `Float`s.
pub open spec fn float_arithmetic(op: Arithmetic, a: int, b: int) -> int {
    match op {
        Arithmetic::Add => float_sum(a as u64, b as u64) as int,
        Arithmetic::Sub => float_difference(a as u64, b as u64) as int,
        Arithmetic::Mul => float_product(a as u64, b as u64) as int,
        Arithmetic::Div => float_quotient(a as u64, b as u64) as int,
        Arithmetic::Mod => float_remainder(a as u64, b as u64) as int,
    }
}

/// A binary arithmetic operator: both operands must be numbers, the left
/// one is looked at first. Two `Int`s give an `Int`; as soon as one operand
/// is a `Float` the other is promoted and the result is a `Float`.
pub open spec fn arithmetic(op: Arithmetic, a: SpecValue, b: SpecValue) -> Result<
    SpecValue,
    SpecError,
> {
    if !is_number(a) {
        Err(SpecError::ExpectedNumber { actual: a })
    } else if !is_number(b) {
        Err(SpecError::ExpectedNumber { actual: b })
    } else {
        match (a, b) {
            (SpecValue::Int(x), SpecValue::Int(y)) => integer_arithmetic(op, x, y),
            _ => Ok(SpecValue::Float(float_arithmetic(op, promoted(a), promoted(b)))),
        }
    }
}

/// The order of two numbers: `Int`s are compared as integers; as soon as
/// one is a `Float` both are compared as `Float`s.
pub open spec fn number_less(a: SpecValue, b: SpecValue) -> bool
    recommends
        is_number(a),
        is_number(b),
{
    match (a, b) {
        (SpecValue::Int(x), SpecValue::Int(y)) => x < y,
        _ => float_less(promoted(a) as u64, promoted(b) as u64),
    }
}

/// Equality of two numbers, with the promotion of [`number_less`].
pub open spec fn number_equal(a: SpecValue, b: SpecValue) -> bool
    recommends
        is_number(a),
        is_number(b),
{
    match (a, b) {
        (SpecValue::Int(x), SpecValue::Int(y)) => x == y,
        _ => float_equal(promoted(a) as u64, promoted(b) as u64),
    }
}

/// A comparison by order: both operands must be numbers, the left one is
/// looked at first.
pub open spec fn comparison(op: Comparison, a: SpecValue, b: SpecValue) -> Result<
    SpecValue,
    SpecError,
> {
    if !is_number(a) {
        Err(SpecError::ExpectedNumber { actual: a })
    } else if !is_number(b) {
        Err(SpecError::ExpectedNumber { actual: b })
    } else {
        Ok(
            SpecValue::Boolean(
                match op {
                    Comparison::Lt => number_less(a, b),
                    Comparison::Gt => number_less(b, a),
                    Comparison::Leq => number_less(a, b) || number_equal(a, b),
                    Comparison::Geq => number_less(b, a) || number_equal(a, b),
                },
            ),
        )
    }
}

/// What `==` decides: two numbers are equal if they are equal as numbers,
/// an `Int` beside a `Float` being promoted; any other two values are equal
/// if they are the [`same`]. Values of different kinds are unequal.
pub open spec fn equal(a: SpecValue, b: SpecValue) -> bool {
    if is_number(a) && is_number(b) {
        number_equal(a, b)
    } else {
        same(a, b)
    }
}

/// `&&` and `||`: both operands must be truth values, the left one is
/// looked at first.
pub open spec fn logical(conjunction: bool, a: SpecValue, b: SpecValue) -> Result<
    SpecValue,
    SpecError,
> {
    match (a, b) {
        (SpecValue::Boolean(x), SpecValue::Boolean(y)) => Ok(
            SpecValue::Boolean(
                if conjunction {
                    x && y
                } else {
                    x || y
                },
            ),
        ),
        (SpecValue::Boolean(_), _) => Err(SpecError::ExpectedBoolean { actual: b }),
        _ => Err(SpecError::ExpectedBoolean { actual: a }),
    }
}

/// Unary minus: a number with the opposite sign.
pub open spec fn negated(v: SpecValue) -> Result<SpecValue, SpecError> {
    match v {
        SpecValue::Int(x) => Ok(SpecValue::Int(wrapped(-x))),
        SpecValue::Float(bits) => Ok(SpecValue::Float(float_negated(bits as u64) as int)),
        _ => Err(SpecError::ExpectedNumber { actual: v }),
    }
}

/// `!`: the other truth value.
pub open spec fn inverted(v: SpecValue) -> Result<SpecValue, SpecError> {
    match v {
        SpecValue::Boolean(b) => Ok(SpecValue::Boolean(!b)),
        _ => Err(SpecError::ExpectedBoolean { actual: v }),
    }
}

/// The integers from `low` up to `high`, `high` left out, in ascending
/// order.
pub open spec fn integers(low: int, high: int) -> Seq<SpecValue> {
    Seq::new(
        if high > low {
            (high - low) as nat
        } else {
            0
        },
        |i: int| SpecValue::Int(low + i),
    )
}

/// `a..b`: both bounds must be `Int`s, the lower one is looked at first.
pub open spec fn range(a: SpecValue, b: SpecValue) -> Result<SpecValue, SpecError> {
    match (a, b) {
        (SpecValue::Int(low), SpecValue::Int(high)) => Ok(SpecValue::Array(integers(low, high))),
        (SpecValue::Int(_), _) => Err(SpecError::ExpectedNumber { actual: b }),
        _ => Err(SpecError::ExpectedNumber { actual: a }),
    }
}

/// The value of the first field at or after `from` that has the name.
pub open spec fn field_value(fields: Seq<SpecField>, name: Seq<char>, from: int) -> Option<
    SpecValue,
>
    decreases fields.len() - from,
{
    if 0 <= from < fields.len() {
        if fields[from].name == name {
            Some(fields[from].value)
        } else {
            field_value(fields, name, from + 1)
        }
    } else {
        None
    }
}

/// `.name`: the value of the field of that name. Only an object has fields.
pub open spec fn member(v: SpecValue, name: Seq<char>) -> Result<SpecValue, SpecError> {
    match v {
        SpecValue::Object(fields) => match field_value(fields, name, 0) {
            Some(value) => Ok(value),
            None => Err(SpecError::FieldNotFound(name)),
        },
        _ => Err(SpecError::FieldNotFound(name)),
    }
}

/// `base[index]`: the element of an array at a position, counted from
/// zero. Only an array has elements, the index must be an `Int`, and there is
/// no element at a negative position or behind the last.
pub open spec fn element(base: SpecValue, index: SpecValue) -> Result<SpecValue, SpecError> {
    match base {
        SpecValue::Array(elements) => match index {
            SpecValue::Int(i) => if 0 <= i < elements.len() {
                Ok(elements[i])
            } else {
                Err(SpecError::IndexOutOfBounds)
            },
            _ => Err(SpecError::ExpectedNumber { actual: index }),
        },
        _ => Err(SpecError::IndexOutOfBounds),
    }
}

fn is_number_value(v: &Value) -> (r: bool)
    ensures
        r == is_number(v@),
{
    match v {
        Value::Int(_) => true,
        Value::Float(_) => true,
        _ => false,
    }
}

fn promote(v: &Value) -> (r: Float)
    requires
        is_number(v@),
    ensures
        r.bits as int == promoted(v@),
{
    match v {
        Value::Int(x) => Float::from_int(*x),
        Value::Float(x) => *x,
        _ => Float::from_bits(0),
    }
}

fn integer_operation(op: Arithmetic, x: i64, y: i64) -> (r: Result<Value, Error>)
    ensures
        outcome_view(r) == integer_arithmetic(op, x as int, y as int),
{
    match op {
        Arithmetic::Add => {
            let sum = x.wrapping_add(y);
            assert(sum == wrapped(x + y));
            Ok(Value::Int(sum))
        },
        Arithmetic::Sub => {
            let difference = x.wrapping_sub(y);
            assert(difference == wrapped(x - y));
            Ok(Value::Int(difference))
        },
        Arithmetic::Mul => {
            let product = x.wrapping_mul(y);
            assert(product == wrapped(x * y));
            Ok(Value::Int(product))
        },
        Arithmetic::Div => {
            if y == 0 {
                Err(Error::DivisionByZero)
            } else {
                match x.checked_div(y) {
                    Some(quotient) => {
                        assert(quotient == wrapped(truncated_quotient(x as int, y as int)));
                        Ok(Value::Int(quotient))
                    },
                    None => {
                        assert(i64::MIN == wrapped(truncated_quotient(x as int, y as int)));
                        Ok(Value::Int(i64::MIN))
                    },
                }
            }
        },
        Arithmetic::Mod => {
            if y == 0 {
                Err(Error::DivisionByZero)
            } else {
                match x.checked_rem(y) {
                    Some(remainder) => {
                        assert(remainder == truncated_remainder(x as int, y as int));
                        Ok(Value::Int(remainder))
                    },
                    None => {
                        assert(0 == truncated_remainder(x as int, y as int));
                        Ok(Value::Int(0))
                    },
                }
            }
        },
    }
}

fn float_operation(op: Arithmetic, a: Float, b: Float) -> (r: Float)
    ensures
        r.bits as int == float_arithmetic(op, a.bits as int, b.bits as int),
{
    match op {
        Arithmetic::Add => Float::from_bits(sum_of_bits(a.to_bits(), b.to_bits())),
        Arithmetic::Sub => Float::from_bits(difference_of_bits(a.to_bits(), b.to_bits())),
        Arithmetic::Mul => Float::from_bits(product_of_bits(a.to_bits(), b.to_bits())),
        Arithmetic::Div => Float::from_bits(quotient_of_bits(a.to_bits(), b.to_bits())),
        Arithmetic::Mod => Float::from_bits(remainder_of_bits(a.to_bits(), b.to_bits())),
    }
}

/// Applies a binary arithmetic operator.
pub fn apply_arithmetic(op: Arithmetic, a: &Value, b: &Value) -> (r: Result<Value, Error>)
    ensures
        outcome_view(r) == arithmetic(op, a@, b@),
{
    if !is_number_value(a) {
        return Err(Error::expected_number(a.clone()));
    }
    if !is_number_value(b) {
        return Err(Error::expected_number(b.clone()));
    }
    match (a, b) {
        (Value::Int(x), Value::Int(y)) => integer_operation(op, *x, *y),
        _ => Ok(Value::Float(float_operation(op, promote(a), promote(b)))),
    }
}

fn less_than(a: &Value, b: &Value) -> (r: bool)
    requires
        is_number(a@),
        is_number(b@),
    ensures
        r == number_less(a@, b@),
{
    match (a, b) {
        (Value::Int(x), Value::Int(y)) => *x < *y,
        _ => promote(a).less_than(promote(b)),
    }
}

fn equal_numbers(a: &Value, b: &Value) -> (r: bool)
    requires
        is_number(a@),
        is_number(b@),
    ensures
        r == number_equal(a@, b@),
{
    match (a, b) {
        (Value::Int(x), Value::Int(y)) => *x == *y,
        _ => promote(a).equal_to(promote(b)),
    }
}

/// Applies a comparison by order.
pub fn apply_comparison(op: Comparison, a: &Value, b: &Value) -> (r: Result<Value, Error>)
    ensures
        outcome_view(r) == comparison(op, a@, b@),
{
    if !is_number_value(a) {
        return Err(Error::expected_number(a.clone()));
    }
    if !is_number_value(b) {
        return Err(Error::expected_number(b.clone()));
    }
    let holds = match op {
        Comparison::Lt => less_than(a, b),
        Comparison::Gt => less_than(b, a),
        Comparison::Leq => less_than(a, b) || equal_numbers(a, b),
        Comparison::Geq => less_than(b, a) || equal_numbers(a, b),
    };
    Ok(Value::Boolean(holds))
}

/// Decides `==`.
pub fn apply_equal(a: &Value, b: &Value) -> (r: bool)
    ensures
        r == equal(a@, b@),
{
    if is_number_value(a) && is_number_value(b) {
        equal_numbers(a, b)
    } else {
        a.equals(b)
    }
}

/// Applies `&&` (where `conjunction` holds) or `||`.
pub fn apply_logical(conjunction: bool, a: &Value, b: &Value) -> (r: Result<Value, Error>)
    ensures
        outcome_view(r) == logical(conjunction, a@, b@),
{
    match (a, b) {
        (Value::Boolean(x), Value::Boolean(y)) => Ok(
            Value::Boolean(
                if conjunction {
                    *x && *y
                } else {
                    *x || *y
                },
            ),
        ),
        (Value::Boolean(_), _) => Err(Error::expected_boolean(b.clone())),
        _ => Err(Error::expected_boolean(a.clone())),
    }
}

/// Applies unary minus.
pub fn apply_negated(v: &Value) -> (r: Result<Value, Error>)
    ensures
        outcome_view(r) == negated(v@),
{
    match v {
        Value::Int(x) => {
            let zero: i64 = 0;
            let opposite = zero.wrapping_sub(*x);
            assert(opposite == wrapped(-(*x as int)));
            Ok(Value::Int(opposite))
        },
        Value::Float(x) => Ok(Value::Float(x.negated())),
        _ => Err(Error::expected_number(v.clone())),
    }
}

/// Applies `!`.
pub fn apply_inverted(v: &Value) -> (r: Result<Value, Error>)
    ensures
        outcome_view(r) == inverted(v@),
{
    match v {
        Value::Boolean(b) => Ok(Value::Boolean(!*b)),
        _ => Err(Error::expected_boolean(v.clone())),
    }
}

/// Applies `..`.
pub fn apply_range(a: &Value, b: &Value) -> (r: Result<Value, Error>)
    ensures
        outcome_view(r) == range(a@, b@),
{
    match (a, b) {
        (Value::Int(low), Value::Int(high)) => {
            let mut elements: Vec<Value> = Vec::new();
            let mut next: i64 = *low;
            while next < *high
                invariant
                    *low <= next <= *high || (*high < *low && next == *low),
                    elements.len() == next - *low,
                    forall|i: int| 0 <= i < elements.len() ==> elements[i]@ == SpecValue::Int(low + i),
                decreases *high - next,
            {
                elements.push(Value::Int(next));
                next = next + 1;
            }
            proof {
                lemma_array_view(elements);
                assert(views(elements@) =~= integers(*low as int, *high as int));
            }
            Ok(Value::Array(elements))
        },
        (Value::Int(_), _) => Err(Error::expected_number(b.clone())),
        _ => Err(Error::expected_number(a.clone())),
    }
}

/// Looks a field up by its name.
pub fn apply_member(v: &Value, name: &String) -> (r: Result<Value, Error>)
    ensures
        outcome_view(r) == member(v@, name@),
{
    match v {
        Value::Object(fields) => {
            proof {
                lemma_object_view(*fields);
            }
            let mut i: usize = 0;
            while i < fields.len()
                invariant
                    i <= fields.len(),
                    v@ == SpecValue::Object(field_views(fields@)),
                    field_value(field_views(fields@), name@, 0) == field_value(
                        field_views(fields@),
                        name@,
                        i as int,
                    ),
                decreases fields.len() - i,
            {
                assert(field_views(fields@)[i as int].name == fields[i as int].0@);
                assert(field_views(fields@)[i as int].value == fields[i as int].1@);
                if fields[i].0 == *name {
                    return Ok(fields[i].1.clone());
                }
                i += 1;
            }
            Err(Error::FieldNotFound(name.clone()))
        },
        _ => Err(Error::FieldNotFound(name.clone())),
    }
}

/// Takes the element of an array at a position.
pub fn apply_element(base: &Value, index: &Value) -> (r: Result<Value, Error>)
    ensures
        outcome_view(r) == element(base@, index@),
{
    match base {
        Value::Array(elements) => {
            proof {
                lemma_array_view(*elements);
            }
            match index {
                Value::Int(i) => {
                    if 0 <= *i && (*i as u64) < elements.len() as u64 {
                        Ok(elements[*i as usize].clone())
                    } else {
                        Err(Error::IndexOutOfBounds)
                    }
                },
                _ => Err(Error::expected_number(index.clone())),
            }
        },
        _ => Err(Error::IndexOutOfBounds),
    }
}

} // verus!
