//! Canonical rule trees built from the language's constructors.

use vstd::prelude::*;
use crate::dsl::exprs::{alive, const_u32, equal, neighbors, or};
use crate::dsl::statements::{if_then_else, set_result};
use crate::dsl::{Expr, Statement};

verus! {

/// The rule tree of Conway's game of life: a live cell survives with exactly
/// two or three live neighbors; a dead cell becomes alive with exactly three.
pub open spec fn spec_conways_game_of_life() -> Statement {
    Statement::IfThenElse {
        condition: Expr::Alive,
        if_true_then: Box::new(
            Statement::SetResult(
                Expr::Or(
                    Box::new(Expr::Equal(Box::new(Expr::Neighbors), Box::new(Expr::U32(2)))),
                    Box::new(Expr::Equal(Box::new(Expr::Neighbors), Box::new(Expr::U32(3)))),
                ),
            ),
        ),
        if_false_then: Box::new(
            Statement::SetResult(
                Expr::Equal(Box::new(Expr::Neighbors), Box::new(Expr::U32(3))),
            ),
        ),
    }
}

/// Builds Conway's game of life in the rule language.
pub fn conways_game_of_life() -> (r: Statement)
    ensures
        r == spec_conways_game_of_life(),
{
    if_then_else(
        alive(),
        set_result(
            or(equal(neighbors(), const_u32(2)), equal(neighbors(), const_u32(3))),
        ),
        set_result(equal(neighbors(), const_u32(3))),
    )
}

} // verus!
