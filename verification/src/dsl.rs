//! A small language of expressions and statements describing cellular-automaton
//! update rules, compiled to WGSL source text.

use vstd::prelude::*;
use crate::text::{dec_digits, format_u32};
use vstd::string::*;

pub mod exprs;
pub mod laws;
pub mod parse;
pub mod rulesets;
pub mod statements;

verus! {

/// An expression over the current cell's state: arithmetic comparisons and
/// bitwise combinations of constants, the cell's alive flag and its live
/// neighbor count.  Comparisons produce `0`/`1` values in the generated code;
/// `And`/`Or` combine such values bitwise, never with short-circuit operators.
#[derive(Debug)]
pub enum Expr {
    U32(u32),
    Alive,
    Neighbors,
    Gt(Box<Expr>, Box<Expr>),
    Gte(Box<Expr>, Box<Expr>),
    Lt(Box<Expr>, Box<Expr>),
    Lte(Box<Expr>, Box<Expr>),
    And(Box<Expr>, Box<Expr>),
    Or(Box<Expr>, Box<Expr>),
    Equal(Box<Expr>, Box<Expr>),
}

/// The exact WGSL text that compiling an expression produces.  Every
/// subexpression is wrapped in its own parentheses, so the printed text
/// associates exactly as the tree does, whatever the target language's
/// precedence table says.
pub open spec fn expr_shader(e: Expr) -> Seq<char>
    decreases e,
{
    match e {
        Expr::U32(v) => dec_digits(v as nat) + "u"@,
        Expr::Alive => "is_alive"@,
        Expr::Neighbors => "num_neighbors"@,
        Expr::Gt(l, r) => "u32(("@ + expr_shader(*l) + ") > ("@ + expr_shader(*r) + "))"@,
        Expr::Gte(l, r) => "u32(("@ + expr_shader(*l) + ") >= ("@ + expr_shader(*r) + "))"@,
        Expr::Lt(l, r) => "u32(("@ + expr_shader(*l) + ") < ("@ + expr_shader(*r) + "))"@,
        Expr::Lte(l, r) => "u32(("@ + expr_shader(*l) + ") <= ("@ + expr_shader(*r) + "))"@,
        Expr::And(l, r) => "(("@ + expr_shader(*l) + ") & ("@ + expr_shader(*r) + "))"@,
        Expr::Or(l, r) => "(("@ + expr_shader(*l) + ") | ("@ + expr_shader(*r) + "))"@,
        Expr::Equal(l, r) => "u32(("@ + expr_shader(*l) + ") == ("@ + expr_shader(*r) + "))"@,
    }
}

impl Expr {
    /// Compiles the expression to a WGSL code fragment.  Total: every tree
    /// compiles, and the result is exactly `expr_shader`.
    pub fn to_shader(&self) -> (r: String)
        ensures
            r@ == expr_shader(*self),
        decreases *self,
    {
        match self {
            Expr::U32(val) => {
                let mut s = format_u32(*val);
                s.append("u");
                s
            },
            Expr::Alive => String::from_str("is_alive"),
            Expr::Neighbors => String::from_str("num_neighbors"),
            Expr::Gt(lhs, rhs) => {
                let mut s = String::from_str("u32((");
                let l = lhs.to_shader();
                s.append(l.as_str());
                s.append(") > (");
                let r = rhs.to_shader();
                s.append(r.as_str());
                s.append("))");
                s
            },
            Expr::Gte(lhs, rhs) => {
                let mut s = String::from_str("u32((");
                let l = lhs.to_shader();
                s.append(l.as_str());
                s.append(") >= (");
                let r = rhs.to_shader();
                s.append(r.as_str());
                s.append("))");
                s
            },
            Expr::Lt(lhs, rhs) => {
                let mut s = String::from_str("u32((");
                let l = lhs.to_shader();
                s.append(l.as_str());
                s.append(") < (");
                let r = rhs.to_shader();
                s.append(r.as_str());
                s.append("))");
                s
            },
            Expr::Lte(lhs, rhs) => {
                let mut s = String::from_str("u32((");
                let l = lhs.to_shader();
                s.append(l.as_str());
                s.append(") <= (");
                let r = rhs.to_shader();
                s.append(r.as_str());
                s.append("))");
                s
            },
            Expr::And(lhs, rhs) => {
                let mut s = String::from_str("((");
                let l = lhs.to_shader();
                s.append(l.as_str());
                s.append(") & (");
                let r = rhs.to_shader();
                s.append(r.as_str());
                s.append("))");
                s
            },
            Expr::Or(lhs, rhs) => {
                let mut s = String::from_str("((");
                let l = lhs.to_shader();
                s.append(l.as_str());
                s.append(") | (");
                let r = rhs.to_shader();
                s.append(r.as_str());
                s.append("))");
                s
            },
            Expr::Equal(lhs, rhs) => {
                let mut s = String::from_str("u32((");
                let l = lhs.to_shader();
                s.append(l.as_str());
                s.append(") == (");
                let r = rhs.to_shader();
                s.append(r.as_str());
                s.append("))");
                s
            },
        }
    }
}

/// A statement of the rule language: do nothing, assign an expression's value
/// to the `result` output variable, or branch on a condition with both
/// branches always present.
#[derive(Debug)]
pub enum Statement {
    Void,
    SetResult(Expr),
    IfThenElse { condition: Expr, if_true_then: Box<Statement>, if_false_then: Box<Statement> },
}

/// The exact WGSL text that compiling a statement produces.  `Void` compiles
/// to empty text, and an `IfThenElse` always prints both blocks, even when a
/// branch is empty.
pub open spec fn stmt_shader(s: Statement) -> Seq<char>
    decreases s,
{
    match s {
        Statement::Void => Seq::empty(),
        Statement::SetResult(e) => "result = "@ + expr_shader(e) + ";"@,
        Statement::IfThenElse { condition, if_true_then, if_false_then } => "if ("@ + expr_shader(
            condition,
        ) + ") { "@ + stmt_shader(*if_true_then) + " } else { "@ + stmt_shader(*if_false_then)
            + " }"@,
    }
}

impl Statement {
    /// Compiles the statement to a WGSL statement that can be spliced into a
    /// statement context of a shader template.  Total: every tree compiles,
    /// and the result is exactly `stmt_shader`.
    pub fn to_shader(&self) -> (r: String)
        ensures
            r@ == stmt_shader(*self),
        decreases *self,
    {
        match self {
            Statement::Void => {
                let s = String::new();
                proof {
                    assert(s@ =~= stmt_shader(Statement::Void));
                }
                s
            },
            Statement::SetResult(expr) => {
                let mut s = String::from_str("result = ");
                let e = expr.to_shader();
                s.append(e.as_str());
                s.append(";");
                s
            },
            Statement::IfThenElse { condition, if_true_then, if_false_then } => {
                let mut s = String::from_str("if (");
                let c = condition.to_shader();
                s.append(c.as_str());
                s.append(") { ");
                let t = if_true_then.to_shader();
                s.append(t.as_str());
                s.append(" } else { ");
                let f = if_false_then.to_shader();
                s.append(f.as_str());
                s.append(" }");
                s
            },
        }
    }
}

} // verus!
