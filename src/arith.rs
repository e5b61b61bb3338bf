use vstd::prelude::*;
use crate::ast::BinOpKind;
use crate::eval_error::EvalErrorKind;

verus! {

/// What a binary operator yields on two integers.
#[derive(Debug, Clone, Copy, PartialEq, Eq, Structural)]
pub enum IntValue {
    Int(i64),
    Bool(bool),
}

/// An integer result, or the overflow error where it does not fit an `i64`.
pub open spec fn fitting(v: int) -> Result<IntValue, EvalErrorKind> {
    if i64::MIN <= v <= i64::MAX {
        Ok(IntValue::Int(v as i64))
    } else {
        Err(EvalErrorKind::Custom)
    }
}

/// A binary operator applied to two integers: arithmetic is exact, and a
/// result that does not fit is an error, never a wrapped value; division
/// truncates toward zero and a zero divisor is `DivisionByZero`, found
/// before dividing; comparisons compare; `&&` and `||` do not take
/// integers.
pub open spec fn int_binop_result(op: BinOpKind, a: i64, b: i64) -> Result<IntValue, EvalErrorKind> {
    match op {
        BinOpKind::Add => fitting(a + b),
        BinOpKind::Sub => fitting(a - b),
        BinOpKind::Mul => fitting(a * b),
        BinOpKind::Div => if b == 0 {
            Err(EvalErrorKind::DivisionByZero)
        } else {
            match a.checked_div(b) {
                Some(q) => Ok(IntValue::Int(q)),
                None => Err(EvalErrorKind::Custom),
            }
        },
        BinOpKind::Eq => Ok(IntValue::Bool(a == b)),
        BinOpKind::Neq => Ok(IntValue::Bool(a != b)),
        BinOpKind::Lt => Ok(IntValue::Bool(a < b)),
        BinOpKind::Leq => Ok(IntValue::Bool(a <= b)),
        BinOpKind::Gt => Ok(IntValue::Bool(a > b)),
        BinOpKind::Geq => Ok(IntValue::Bool(a >= b)),
        BinOpKind::And | BinOpKind::Or => Err(EvalErrorKind::TypeError),
        BinOpKind::Pipe => Err(EvalErrorKind::Custom),
    }
}

/// Applies a binary operator to two integers.
pub fn int_binop(op: BinOpKind, a: i64, b: i64) -> (r: Result<IntValue, EvalErrorKind>)
    ensures
        r == int_binop_result(op, a, b),
{
    match op {
        BinOpKind::Add => match a.checked_add(b) {
            Some(v) => Ok(IntValue::Int(v)),
            None => Err(EvalErrorKind::Custom),
        },
        BinOpKind::Sub => match a.checked_sub(b) {
            Some(v) => Ok(IntValue::Int(v)),
            None => Err(EvalErrorKind::Custom),
        },
        BinOpKind::Mul => match a.checked_mul(b) {
            Some(v) => Ok(IntValue::Int(v)),
            None => Err(EvalErrorKind::Custom),
        },
        BinOpKind::Div => {
            if b == 0 {
                Err(EvalErrorKind::DivisionByZero)
            } else {
                match a.checked_div(b) {
                    Some(q) => Ok(IntValue::Int(q)),
                    None => Err(EvalErrorKind::Custom),
                }
            }
        },
        BinOpKind::Eq => Ok(IntValue::Bool(a == b)),
        BinOpKind::Neq => Ok(IntValue::Bool(a != b)),
        BinOpKind::Lt => Ok(IntValue::Bool(a < b)),
        BinOpKind::Leq => Ok(IntValue::Bool(a <= b)),
        BinOpKind::Gt => Ok(IntValue::Bool(a > b)),
        BinOpKind::Geq => Ok(IntValue::Bool(a >= b)),
        BinOpKind::And | BinOpKind::Or => Err(EvalErrorKind::TypeError),
        BinOpKind::Pipe => Err(EvalErrorKind::Custom),
    }
}

/// Integer division by zero is reported as `DivisionByZero` before any
/// division happens, whatever the dividend.
pub proof fn lemma_int_division_by_zero(a: i64)
    ensures
        int_binop_result(BinOpKind::Div, a, 0) == Err::<IntValue, EvalErrorKind>(EvalErrorKind::DivisionByZero),
{
}

} // verus!
