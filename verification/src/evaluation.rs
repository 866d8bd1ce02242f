//! The typed value comparator: operator semantics over heterogeneous value
//! kinds, with no coercion across kinds.
//!
//! Floating-point operands are compared exactly, by their IEEE 754 bit
//! patterns: two numbers compare as the standard prescribes, a NaN compares
//! unequal to everything (itself included), and the two zeroes compare equal.

use vstd::prelude::*;

use crate::node::{Value, ValueV};
use crate::parser::Operator;
use crate::text::{
    seq_contains, seq_ends_with, seq_starts_with, str_contains, str_ends_with, str_eq,
    str_starts_with,
};

verus! {

/// Holds when the bit pattern encodes a NaN.
pub open spec fn float_is_nan(bits: u64) -> bool {
    (bits >> 52) & 0x7ff == 0x7ff && bits & 0xf_ffff_ffff_ffff != 0
}

/// Orders non-NaN bit patterns as the encoded numbers order: the magnitude
/// bits, negated for negative numbers, so that the two zeroes coincide.
pub open spec fn float_key(bits: u64) -> int {
    if bits >> 63 == 1 {
        -((bits & 0x7fff_ffff_ffff_ffff) as int)
    } else {
        (bits & 0x7fff_ffff_ffff_ffff) as int
    }
}

/// IEEE equality of two double-precision bit patterns.
pub open spec fn float_eq(a: u64, b: u64) -> bool {
    !float_is_nan(a) && !float_is_nan(b) && float_key(a) == float_key(b)
}

/// IEEE strict order of two double-precision bit patterns.
pub open spec fn float_lt(a: u64, b: u64) -> bool {
    !float_is_nan(a) && !float_is_nan(b) && float_key(a) < float_key(b)
}

/// IEEE non-strict order of two double-precision bit patterns.
pub open spec fn float_le(a: u64, b: u64) -> bool {
    !float_is_nan(a) && !float_is_nan(b) && float_key(a) <= float_key(b)
}

/// Decides [`float_is_nan`].
fn is_nan_bits(bits: u64) -> (r: bool)
    ensures
        r == float_is_nan(bits),
{
    (bits >> 52) & 0x7ff == 0x7ff && bits & 0xf_ffff_ffff_ffff != 0
}

/// Decides [`float_eq`].
fn float_eq_bits(a: u64, b: u64) -> (r: bool)
    ensures
        r == float_eq(a, b),
{
    if is_nan_bits(a) || is_nan_bits(b) {
        return false;
    }
    let ma = a & 0x7fff_ffff_ffff_ffff;
    let mb = b & 0x7fff_ffff_ffff_ffff;
    proof {
        assert(a >> 63 == 0 || a >> 63 == 1) by (bit_vector);
        assert(b >> 63 == 0 || b >> 63 == 1) by (bit_vector);
    }
    if (a >> 63) == (b >> 63) {
        ma == mb
    } else {
        ma == 0 && mb == 0
    }
}

/// Decides [`float_lt`].
fn float_lt_bits(a: u64, b: u64) -> (r: bool)
    ensures
        r == float_lt(a, b),
{
    if is_nan_bits(a) || is_nan_bits(b) {
        return false;
    }
    let sa = a >> 63;
    let sb = b >> 63;
    let ma = a & 0x7fff_ffff_ffff_ffff;
    let mb = b & 0x7fff_ffff_ffff_ffff;
    proof {
        assert(sa == 0 || sa == 1) by (bit_vector)
            requires
                sa == a >> 63,
        ;
        assert(sb == 0 || sb == 1) by (bit_vector)
            requires
                sb == b >> 63,
        ;
    }
    if sa == sb {
        if sa == 1 {
            mb < ma
        } else {
            ma < mb
        }
    } else {
        sa == 1 && !(ma == 0 && mb == 0)
    }
}

/// Decides [`float_le`].
fn float_le_bits(a: u64, b: u64) -> (r: bool)
    ensures
        r == float_le(a, b),
{
    if is_nan_bits(a) || is_nan_bits(b) {
        return false;
    }
    let sa = a >> 63;
    let sb = b >> 63;
    let ma = a & 0x7fff_ffff_ffff_ffff;
    let mb = b & 0x7fff_ffff_ffff_ffff;
    proof {
        assert(sa == 0 || sa == 1) by (bit_vector)
            requires
                sa == a >> 63,
        ;
        assert(sb == 0 || sb == 1) by (bit_vector)
            requires
                sb == b >> 63,
        ;
    }
    if sa == sb {
        if sa == 1 {
            mb <= ma
        } else {
            ma <= mb
        }
    } else if sa == 1 {
        true
    } else {
        ma == 0 && mb == 0
    }
}

/// Equality: defined between same-kind operands only; a NaN equals nothing,
/// two nulls are equal.
pub open spec fn eval_equal(lhs: ValueV, rhs: ValueV) -> bool {
    match (lhs, rhs) {
        (ValueV::Int(a), ValueV::Int(b)) => a == b,
        (ValueV::Float(a), ValueV::Float(b)) => float_eq(a, b),
        (ValueV::Text(a), ValueV::Text(b)) => a == b,
        (ValueV::Bool(a), ValueV::Bool(b)) => a == b,
        (ValueV::Null, ValueV::Null) => true,
        _ => false,
    }
}

/// Inequality: defined between same-kind operands only; a null is unequal to
/// nothing, while a NaN is unequal to every float.
pub open spec fn eval_not_equal(lhs: ValueV, rhs: ValueV) -> bool {
    match (lhs, rhs) {
        (ValueV::Int(a), ValueV::Int(b)) => a != b,
        (ValueV::Float(a), ValueV::Float(b)) => !float_eq(a, b),
        (ValueV::Text(a), ValueV::Text(b)) => a != b,
        (ValueV::Bool(a), ValueV::Bool(b)) => a != b,
        _ => false,
    }
}

/// Strict greater-than: defined for integer and float pairs only.
pub open spec fn eval_greater_than(lhs: ValueV, rhs: ValueV) -> bool {
    match (lhs, rhs) {
        (ValueV::Int(a), ValueV::Int(b)) => a > b,
        (ValueV::Float(a), ValueV::Float(b)) => float_lt(b, a),
        _ => false,
    }
}

/// Greater-than-or-equal: defined for integer and float pairs only.
pub open spec fn eval_greater_than_or_equal_to(lhs: ValueV, rhs: ValueV) -> bool {
    match (lhs, rhs) {
        (ValueV::Int(a), ValueV::Int(b)) => a >= b,
        (ValueV::Float(a), ValueV::Float(b)) => float_le(b, a),
        _ => false,
    }
}

/// Strict less-than: defined for integer and float pairs only.
pub open spec fn eval_less_than(lhs: ValueV, rhs: ValueV) -> bool {
    match (lhs, rhs) {
        (ValueV::Int(a), ValueV::Int(b)) => a < b,
        (ValueV::Float(a), ValueV::Float(b)) => float_lt(a, b),
        _ => false,
    }
}

/// Less-than-or-equal: defined for integer and float pairs only.
pub open spec fn eval_less_than_or_equal_to(lhs: ValueV, rhs: ValueV) -> bool {
    match (lhs, rhs) {
        (ValueV::Int(a), ValueV::Int(b)) => a <= b,
        (ValueV::Float(a), ValueV::Float(b)) => float_le(a, b),
        _ => false,
    }
}

/// Substring test: defined for string pairs only.
pub open spec fn eval_contains(lhs: ValueV, rhs: ValueV) -> bool {
    match (lhs, rhs) {
        (ValueV::Text(a), ValueV::Text(b)) => seq_contains(a, b),
        _ => false,
    }
}

/// Prefix test: defined for string pairs only.
pub open spec fn eval_starts_with(lhs: ValueV, rhs: ValueV) -> bool {
    match (lhs, rhs) {
        (ValueV::Text(a), ValueV::Text(b)) => seq_starts_with(a, b),
        _ => false,
    }
}

/// Suffix test: defined for string pairs only.
pub open spec fn eval_ends_with(lhs: ValueV, rhs: ValueV) -> bool {
    match (lhs, rhs) {
        (ValueV::Text(a), ValueV::Text(b)) => seq_ends_with(a, b),
        _ => false,
    }
}

/// The comparator: `lhs op rhs`, total over every pair of value kinds.
pub open spec fn eval(lhs: ValueV, op: Operator, rhs: ValueV) -> bool {
    match op {
        Operator::Contains => eval_contains(lhs, rhs),
        Operator::EndsWith => eval_ends_with(lhs, rhs),
        Operator::Equal => eval_equal(lhs, rhs),
        Operator::GreaterThan => eval_greater_than(lhs, rhs),
        Operator::GreaterThanOrEqualTo => eval_greater_than_or_equal_to(lhs, rhs),
        Operator::LessThan => eval_less_than(lhs, rhs),
        Operator::LessThanOrEqualTo => eval_less_than_or_equal_to(lhs, rhs),
        Operator::NotEqual => eval_not_equal(lhs, rhs),
        Operator::StartsWith => eval_starts_with(lhs, rhs),
    }
}

/// Applies the operator to the two values.
pub fn evaluate(lhs: &Value, operator: &Operator, rhs: &Value) -> (r: bool)
    ensures
        r == eval(lhs@, *operator, rhs@),
{
    match operator {
        Operator::Contains => contains(lhs, rhs),
        Operator::EndsWith => ends_with(lhs, rhs),
        Operator::Equal => equal(lhs, rhs),
        Operator::GreaterThan => greater_than(lhs, rhs),
        Operator::GreaterThanOrEqualTo => greater_than_or_equal_to(lhs, rhs),
        Operator::LessThan => less_than(lhs, rhs),
        Operator::LessThanOrEqualTo => less_than_or_equal_to(lhs, rhs),
        Operator::NotEqual => not_equal(lhs, rhs),
        Operator::StartsWith => starts_with(lhs, rhs),
    }
}

fn contains(lhs: &Value, rhs: &Value) -> (r: bool)
    ensures
        r == eval_contains(lhs@, rhs@),
{
    match (lhs, rhs) {
        (Value::Text(a), Value::Text(b)) => str_contains(a.as_str(), b.as_str()),
        _ => false,
    }
}

fn ends_with(lhs: &Value, rhs: &Value) -> (r: bool)
    ensures
        r == eval_ends_with(lhs@, rhs@),
{
    match (lhs, rhs) {
        (Value::Text(a), Value::Text(b)) => str_ends_with(a.as_str(), b.as_str()),
        _ => false,
    }
}

fn equal(lhs: &Value, rhs: &Value) -> (r: bool)
    ensures
        r == eval_equal(lhs@, rhs@),
{
    match (lhs, rhs) {
        (Value::Int(a), Value::Int(b)) => a == b,
        (Value::Float(a), Value::Float(b)) => float_eq_bits(*a, *b),
        (Value::Text(a), Value::Text(b)) => str_eq(a.as_str(), b.as_str()),
        (Value::Bool(a), Value::Bool(b)) => a == b,
        (Value::Null, Value::Null) => true,
        _ => false,
    }
}

fn greater_than(lhs: &Value, rhs: &Value) -> (r: bool)
    ensures
        r == eval_greater_than(lhs@, rhs@),
{
    match (lhs, rhs) {
        (Value::Int(a), Value::Int(b)) => a > b,
        (Value::Float(a), Value::Float(b)) => float_lt_bits(*b, *a),
        _ => false,
    }
}

fn greater_than_or_equal_to(lhs: &Value, rhs: &Value) -> (r: bool)
    ensures
        r == eval_greater_than_or_equal_to(lhs@, rhs@),
{
    match (lhs, rhs) {
        (Value::Int(a), Value::Int(b)) => a >= b,
        (Value::Float(a), Value::Float(b)) => float_le_bits(*b, *a),
        _ => false,
    }
}

fn less_than(lhs: &Value, rhs: &Value) -> (r: bool)
    ensures
        r == eval_less_than(lhs@, rhs@),
{
    match (lhs, rhs) {
        (Value::Int(a), Value::Int(b)) => a < b,
        (Value::Float(a), Value::Float(b)) => float_lt_bits(*a, *b),
        _ => false,
    }
}

fn less_than_or_equal_to(lhs: &Value, rhs: &Value) -> (r: bool)
    ensures
        r == eval_less_than_or_equal_to(lhs@, rhs@),
{
    match (lhs, rhs) {
        (Value::Int(a), Value::Int(b)) => a <= b,
        (Value::Float(a), Value::Float(b)) => float_le_bits(*a, *b),
        _ => false,
    }
}

fn not_equal(lhs: &Value, rhs: &Value) -> (r: bool)
    ensures
        r == eval_not_equal(lhs@, rhs@),
{
    match (lhs, rhs) {
        (Value::Int(a), Value::Int(b)) => a != b,
        (Value::Float(a), Value::Float(b)) => !float_eq_bits(*a, *b),
        (Value::Text(a), Value::Text(b)) => !str_eq(a.as_str(), b.as_str()),
        (Value::Bool(a), Value::Bool(b)) => a != b,
        _ => false,
    }
}

fn starts_with(lhs: &Value, rhs: &Value) -> (r: bool)
    ensures
        r == eval_starts_with(lhs@, rhs@),
{
    match (lhs, rhs) {
        (Value::Text(a), Value::Text(b)) => str_starts_with(a.as_str(), b.as_str()),
        _ => false,
    }
}

} // verus!
