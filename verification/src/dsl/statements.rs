//! Convenience constructors for `Statement` trees.

use vstd::prelude::*;
use crate::dsl::{Expr, Statement};

verus! {

/// The empty statement.
pub fn void() -> (r: Statement)
    ensures
        r == Statement::Void,
{
    Statement::Void
}

/// Assigns an expression's value to the `result` output variable.
pub fn set_result(expr: Expr) -> (r: Statement)
    ensures
        r == Statement::SetResult(expr),
{
    Statement::SetResult(expr)
}

/// A conditional with both branches always present.
pub fn if_then_else(condition: Expr, if_true_then: Statement, if_false_then: Statement) -> (r:
    Statement)
    ensures
        r == (Statement::IfThenElse {
            condition,
            if_true_then: Box::new(if_true_then),
            if_false_then: Box::new(if_false_then),
        }),
{
    Statement::IfThenElse {
        condition,
        if_true_then: Box::new(if_true_then),
        if_false_then: Box::new(if_false_then),
    }
}

} // verus!
