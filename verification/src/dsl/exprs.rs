//! Convenience constructors for `Expr` trees.

use vstd::prelude::*;
use crate::dsl::Expr;

verus! {

/// A literal constant.
pub fn const_u32(value: u32) -> (r: Expr)
    ensures
        r == Expr::U32(value),
{
    Expr::U32(value)
}

/// The "is this cell alive" input.
pub fn alive() -> (r: Expr)
    ensures
        r == Expr::Alive,
{
    Expr::Alive
}

/// The live-neighbor-count input.
pub fn neighbors() -> (r: Expr)
    ensures
        r == Expr::Neighbors,
{
    Expr::Neighbors
}

/// A strict greater-than comparison.
pub fn gt(lhs: Expr, rhs: Expr) -> (r: Expr)
    ensures
        r == Expr::Gt(Box::new(lhs), Box::new(rhs)),
{
    Expr::Gt(Box::new(lhs), Box::new(rhs))
}

/// A greater-or-equal comparison.
pub fn gte(lhs: Expr, rhs: Expr) -> (r: Expr)
    ensures
        r == Expr::Gte(Box::new(lhs), Box::new(rhs)),
{
    Expr::Gte(Box::new(lhs), Box::new(rhs))
}

/// A strict less-than comparison.
pub fn lt(lhs: Expr, rhs: Expr) -> (r: Expr)
    ensures
        r == Expr::Lt(Box::new(lhs), Box::new(rhs)),
{
    Expr::Lt(Box::new(lhs), Box::new(rhs))
}

/// A less-or-equal comparison.
pub fn lte(lhs: Expr, rhs: Expr) -> (r: Expr)
    ensures
        r == Expr::Lte(Box::new(lhs), Box::new(rhs)),
{
    Expr::Lte(Box::new(lhs), Box::new(rhs))
}

/// A bitwise conjunction of two `0`/`1` values.
pub fn and(lhs: Expr, rhs: Expr) -> (r: Expr)
    ensures
        r == Expr::And(Box::new(lhs), Box::new(rhs)),
{
    Expr::And(Box::new(lhs), Box::new(rhs))
}

/// A bitwise disjunction of two `0`/`1` values.
pub fn or(lhs: Expr, rhs: Expr) -> (r: Expr)
    ensures
        r == Expr::Or(Box::new(lhs), Box::new(rhs)),
{
    Expr::Or(Box::new(lhs), Box::new(rhs))
}

/// An equality comparison.
pub fn equal(lhs: Expr, rhs: Expr) -> (r: Expr)
    ensures
        r == Expr::Equal(Box::new(lhs), Box::new(rhs)),
{
    Expr::Equal(Box::new(lhs), Box::new(rhs))
}

} // verus!
