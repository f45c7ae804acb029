//! A reference parser for compiled expression text, and the proof that
//! compilation round-trips through it.
//!
//! The compiler wraps every subexpression in its own parentheses, so the
//! emitted text can be re-parsed without knowing any operator-precedence
//! table: this module defines a deterministic recursive-descent reading of
//! that text and proves that parsing the compiled form of any tree yields
//! that same tree, consuming exactly the compiled text.

use vstd::prelude::*;
use crate::dsl::{expr_shader, Expr};
use crate::text::{
    dec_digits, dec_value, digit_run_len, has_prefix, is_digit, lemma_dec_digits, lemma_digit_run_concat,
    lemma_not_prefix_at,
};

verus! {

/// Parses one expression from the front of `s`.  Returns the tree and the
/// number of characters consumed, or `None` when `s` does not begin with
/// well-formed compiled text.
pub open spec fn parse_expr(s: Seq<char>) -> Option<(Expr, int)>
    decreases s.len(), 2int,
{
    if s.len() == 0 {
        None
    } else if is_digit(s[0]) {
        let k = digit_run_len(s);
        let v = dec_value(s.subrange(0, k));
        if k < s.len() && s[k] == 'u' && v < 0x1_0000_0000 {
            Some((Expr::U32(v as u32), k + 1))
        } else {
            None
        }
    } else if has_prefix(s, "is_alive"@) {
        Some((Expr::Alive, "is_alive"@.len() as int))
    } else if has_prefix(s, "num_neighbors"@) {
        Some((Expr::Neighbors, "num_neighbors"@.len() as int))
    } else if has_prefix(s, "u32(("@) {
        parse_cmp(s)
    } else if has_prefix(s, "(("@) {
        parse_bitop(s)
    } else {
        None
    }
}

/// Parses the body of a `u32((lhs) <op> (rhs))` comparison, `s` included its
/// `u32((` opening.
pub open spec fn parse_cmp(s: Seq<char>) -> Option<(Expr, int)>
    decreases s.len(), 1int,
{
    if s.len() < 5 {
        None
    } else {
        match parse_expr(s.skip(5)) {
            Option::None => None,
            Option::Some((e1, n1)) => {
                if 0 <= n1 <= s.len() - 5 {
                    let t = s.skip(5 + n1);
                    if has_prefix(t, ") >= ("@) {
                        match parse_tail(s, 5 + n1 + 6) {
                            Option::None => None,
                            Option::Some((e2, total)) => Some(
                                (Expr::Gte(Box::new(e1), Box::new(e2)), total),
                            ),
                        }
                    } else if has_prefix(t, ") <= ("@) {
                        match parse_tail(s, 5 + n1 + 6) {
                            Option::None => None,
                            Option::Some((e2, total)) => Some(
                                (Expr::Lte(Box::new(e1), Box::new(e2)), total),
                            ),
                        }
                    } else if has_prefix(t, ") == ("@) {
                        match parse_tail(s, 5 + n1 + 6) {
                            Option::None => None,
                            Option::Some((e2, total)) => Some(
                                (Expr::Equal(Box::new(e1), Box::new(e2)), total),
                            ),
                        }
                    } else if has_prefix(t, ") > ("@) {
                        match parse_tail(s, 5 + n1 + 5) {
                            Option::None => None,
                            Option::Some((e2, total)) => Some(
                                (Expr::Gt(Box::new(e1), Box::new(e2)), total),
                            ),
                        }
                    } else if has_prefix(t, ") < ("@) {
                        match parse_tail(s, 5 + n1 + 5) {
                            Option::None => None,
                            Option::Some((e2, total)) => Some(
                                (Expr::Lt(Box::new(e1), Box::new(e2)), total),
                            ),
                        }
                    } else {
                        None
                    }
                } else {
                    None
                }
            },
        }
    }
}

/// Parses the body of a `((lhs) <bitop> (rhs))` combination, `s` included its
/// `((` opening.
pub open spec fn parse_bitop(s: Seq<char>) -> Option<(Expr, int)>
    decreases s.len(), 1int,
{
    if s.len() < 2 {
        None
    } else {
        match parse_expr(s.skip(2)) {
            Option::None => None,
            Option::Some((e1, n1)) => {
                if 0 <= n1 <= s.len() - 2 {
                    let t = s.skip(2 + n1);
                    if has_prefix(t, ") & ("@) {
                        match parse_tail(s, 2 + n1 + 5) {
                            Option::None => None,
                            Option::Some((e2, total)) => Some(
                                (Expr::And(Box::new(e1), Box::new(e2)), total),
                            ),
                        }
                    } else if has_prefix(t, ") | ("@) {
                        match parse_tail(s, 2 + n1 + 5) {
                            Option::None => None,
                            Option::Some((e2, total)) => Some(
                                (Expr::Or(Box::new(e1), Box::new(e2)), total),
                            ),
                        }
                    } else {
                        None
                    }
                } else {
                    None
                }
            },
        }
    }
}

/// Parses the right operand starting at `s[used]`, expecting the closing
/// `))` right after it; returns the operand and the total count consumed,
/// the closing included.
pub open spec fn parse_tail(s: Seq<char>, used: int) -> Option<(Expr, int)>
    decreases s.len(), 0int,
{
    if 1 <= used <= s.len() {
        match parse_expr(s.skip(used)) {
            Option::None => None,
            Option::Some((e2, n2)) => {
                if 0 <= n2 <= s.len() - used && has_prefix(s.skip(used + n2), "))"@) {
                    Some((e2, used + n2 + 2))
                } else {
                    None
                }
            },
        }
    } else {
        None
    }
}

/// Parsing the right operand and the closing `))` at position `used`
/// succeeds once the operand itself is known to parse back.
proof fn lemma_parse_tail_at(s: Seq<char>, used: int, e2: Expr, rest: Seq<char>)
    requires
        1 <= used <= s.len(),
        s.len() == used + expr_shader(e2).len() + 2 + rest.len(),
        s.skip(used) == expr_shader(e2) + "))"@ + rest,
        parse_expr(expr_shader(e2) + ("))"@ + rest)) == Some((e2, expr_shader(e2).len() as int)),
    ensures
        parse_tail(s, used) == Some((e2, used + expr_shader(e2).len() + 2)),
{
    reveal_strlit("))");
    let b = expr_shader(e2);
    assert(b + "))"@ + rest =~= b + ("))"@ + rest));
    let n2 = b.len() as int;
    assert(parse_expr(s.skip(used)) == Some((e2, n2)));
    assert(0 <= n2 <= s.len() - used);
    assert(s.skip(used + n2) =~= "))"@ + rest) by {
        assert forall|i: int| 0 <= i < s.len() - used - n2 implies s.skip(used + n2)[i] == ("))"@
            + rest)[i] by {
            assert(s.skip(used + n2)[i] == s[used + n2 + i]);
            assert(s[used + n2 + i] == s.skip(used)[n2 + i]);
        }
    }
    assert(s.skip(used + n2).subrange(0, 2) =~= "))"@);
    assert(has_prefix(s.skip(used + n2), "))"@));
}

/// The `Gt` case of `lemma_parse_expr_shader`, with the recursive
/// facts about the operands supplied as hypotheses.
#[verifier::spinoff_prover]
proof fn lemma_parse_case_gt(l: Expr, r: Expr, rest: Seq<char>)
    requires
        parse_expr(expr_shader(l) + (") > ("@ + expr_shader(r) + "))"@ + rest)) == Some(
            (l, expr_shader(l).len() as int),
        ),
        parse_expr(expr_shader(r) + ("))"@ + rest)) == Some((r, expr_shader(r).len() as int)),
    ensures
        parse_expr(expr_shader(Expr::Gt(Box::new(l), Box::new(r))) + rest) == Some(
            (
                Expr::Gt(Box::new(l), Box::new(r)),
                expr_shader(Expr::Gt(Box::new(l), Box::new(r))).len() as int,
            ),
        ),
{
    reveal_strlit("is_alive");
    reveal_strlit("num_neighbors");
    reveal_strlit("u32((");
    reveal_strlit("((");
    reveal_strlit(") > (");
    reveal_strlit(") >= (");
    reveal_strlit(") < (");
    reveal_strlit(") <= (");
    reveal_strlit(") == (");
    reveal_strlit(") & (");
    reveal_strlit(") | (");
    reveal_strlit(") > (");
    reveal_strlit("))");
    let a = expr_shader(l);
    let b = expr_shader(r);
    let sh = "u32(("@ + a + ") > ("@ + b + "))"@;
    assert(expr_shader(Expr::Gt(Box::new(l), Box::new(r))) == sh);
    let s = sh + rest;
    let rest1 = ") > ("@ + b + "))"@ + rest;
    assert(rest1 =~= ") > ("@ + (b + ("))"@ + rest)));
    assert(s.subrange(0, 5) =~= "u32(("@);
    assert(s[0] == "u32(("@[0]);
    assert(!is_digit(s[0]));
    lemma_not_prefix_at(s, "is_alive"@, 0);
    lemma_not_prefix_at(s, "num_neighbors"@, 0);
    assert(has_prefix(s, "u32(("@));
    assert(s.skip(5) =~= a + rest1);
    let n1 = a.len() as int;
    assert(0 <= n1 <= s.len() - 5);
    let t = s.skip(5 + n1);
    assert(t =~= ") > ("@ + (b + ("))"@ + rest))) by {
        assert forall|i: int| 0 <= i < s.len() - 5 - n1 implies t[i] == (") > ("@ + (b + (
        "))"@ + rest)))[i] by {
            assert(t[i] == s[5 + n1 + i]);
            assert(s[5 + n1 + i] == s.skip(5)[n1 + i]);
            assert(s.skip(5)[n1 + i] == rest1[i]);
        }
    }
    lemma_not_prefix_at(t, ") >= ("@, 3);
    lemma_not_prefix_at(t, ") <= ("@, 2);
    lemma_not_prefix_at(t, ") == ("@, 2);
    assert(t.subrange(0, 5) =~= ") > ("@);
    assert(has_prefix(t, ") > ("@));
    let used = 5 + n1 + 5;
    assert(s.skip(used) =~= b + "))"@ + rest) by {
        assert forall|i: int| 0 <= i < s.len() - used implies s.skip(used)[i] == (b + "))"@
            + rest)[i] by {
            assert(s.skip(used)[i] == s[used + i]);
            assert(s[used + i] == t[5 + i]);
        }
    }
    lemma_parse_tail_at(s, used, r, rest);
    assert(parse_expr(s) == parse_cmp(s));
    assert(parse_cmp(s) == Some((Expr::Gt(Box::new(l), Box::new(r)), used + b.len()
        + 2)));
    assert(sh.len() as int == used + b.len() + 2);
}

/// The `Gte` case of `lemma_parse_expr_shader`, with the recursive
/// facts about the operands supplied as hypotheses.
#[verifier::spinoff_prover]
proof fn lemma_parse_case_gte(l: Expr, r: Expr, rest: Seq<char>)
    requires
        parse_expr(expr_shader(l) + (") >= ("@ + expr_shader(r) + "))"@ + rest)) == Some(
            (l, expr_shader(l).len() as int),
        ),
        parse_expr(expr_shader(r) + ("))"@ + rest)) == Some((r, expr_shader(r).len() as int)),
    ensures
        parse_expr(expr_shader(Expr::Gte(Box::new(l), Box::new(r))) + rest) == Some(
            (
                Expr::Gte(Box::new(l), Box::new(r)),
                expr_shader(Expr::Gte(Box::new(l), Box::new(r))).len() as int,
            ),
        ),
{
    reveal_strlit("is_alive");
    reveal_strlit("num_neighbors");
    reveal_strlit("u32((");
    reveal_strlit("((");
    reveal_strlit(") > (");
    reveal_strlit(") >= (");
    reveal_strlit(") < (");
    reveal_strlit(") <= (");
    reveal_strlit(") == (");
    reveal_strlit(") & (");
    reveal_strlit(") | (");
    reveal_strlit(") >= (");
    reveal_strlit("))");
    let a = expr_shader(l);
    let b = expr_shader(r);
    let sh = "u32(("@ + a + ") >= ("@ + b + "))"@;
    assert(expr_shader(Expr::Gte(Box::new(l), Box::new(r))) == sh);
    let s = sh + rest;
    let rest1 = ") >= ("@ + b + "))"@ + rest;
    assert(rest1 =~= ") >= ("@ + (b + ("))"@ + rest)));
    assert(s.subrange(0, 5) =~= "u32(("@);
    assert(s[0] == "u32(("@[0]);
    assert(!is_digit(s[0]));
    lemma_not_prefix_at(s, "is_alive"@, 0);
    lemma_not_prefix_at(s, "num_neighbors"@, 0);
    assert(has_prefix(s, "u32(("@));
    assert(s.skip(5) =~= a + rest1);
    let n1 = a.len() as int;
    assert(0 <= n1 <= s.len() - 5);
    let t = s.skip(5 + n1);
    assert(t =~= ") >= ("@ + (b + ("))"@ + rest))) by {
        assert forall|i: int| 0 <= i < s.len() - 5 - n1 implies t[i] == (") >= ("@ + (b + (
        "))"@ + rest)))[i] by {
            assert(t[i] == s[5 + n1 + i]);
            assert(s[5 + n1 + i] == s.skip(5)[n1 + i]);
            assert(s.skip(5)[n1 + i] == rest1[i]);
        }
    }
    assert(t.subrange(0, 6) =~= ") >= ("@);
    assert(has_prefix(t, ") >= ("@));
    let used = 5 + n1 + 6;
    assert(s.skip(used) =~= b + "))"@ + rest) by {
        assert forall|i: int| 0 <= i < s.len() - used implies s.skip(used)[i] == (b + "))"@
            + rest)[i] by {
            assert(s.skip(used)[i] == s[used + i]);
            assert(s[used + i] == t[6 + i]);
        }
    }
    lemma_parse_tail_at(s, used, r, rest);
    assert(parse_expr(s) == parse_cmp(s));
    assert(parse_cmp(s) == Some((Expr::Gte(Box::new(l), Box::new(r)), used + b.len()
        + 2)));
    assert(sh.len() as int == used + b.len() + 2);
}

/// The `Lt` case of `lemma_parse_expr_shader`, with the recursive
/// facts about the operands supplied as hypotheses.
#[verifier::spinoff_prover]
proof fn lemma_parse_case_lt(l: Expr, r: Expr, rest: Seq<char>)
    requires
        parse_expr(expr_shader(l) + (") < ("@ + expr_shader(r) + "))"@ + rest)) == Some(
            (l, expr_shader(l).len() as int),
        ),
        parse_expr(expr_shader(r) + ("))"@ + rest)) == Some((r, expr_shader(r).len() as int)),
    ensures
        parse_expr(expr_shader(Expr::Lt(Box::new(l), Box::new(r))) + rest) == Some(
            (
                Expr::Lt(Box::new(l), Box::new(r)),
                expr_shader(Expr::Lt(Box::new(l), Box::new(r))).len() as int,
            ),
        ),
{
    reveal_strlit("is_alive");
    reveal_strlit("num_neighbors");
    reveal_strlit("u32((");
    reveal_strlit("((");
    reveal_strlit(") > (");
    reveal_strlit(") >= (");
    reveal_strlit(") < (");
    reveal_strlit(") <= (");
    reveal_strlit(") == (");
    reveal_strlit(") & (");
    reveal_strlit(") | (");
    reveal_strlit(") < (");
    reveal_strlit("))");
    let a = expr_shader(l);
    let b = expr_shader(r);
    let sh = "u32(("@ + a + ") < ("@ + b + "))"@;
    assert(expr_shader(Expr::Lt(Box::new(l), Box::new(r))) == sh);
    let s = sh + rest;
    let rest1 = ") < ("@ + b + "))"@ + rest;
    assert(rest1 =~= ") < ("@ + (b + ("))"@ + rest)));
    assert(s.subrange(0, 5) =~= "u32(("@);
    assert(s[0] == "u32(("@[0]);
    assert(!is_digit(s[0]));
    lemma_not_prefix_at(s, "is_alive"@, 0);
    lemma_not_prefix_at(s, "num_neighbors"@, 0);
    assert(has_prefix(s, "u32(("@));
    assert(s.skip(5) =~= a + rest1);
    let n1 = a.len() as int;
    assert(0 <= n1 <= s.len() - 5);
    let t = s.skip(5 + n1);
    assert(t =~= ") < ("@ + (b + ("))"@ + rest))) by {
        assert forall|i: int| 0 <= i < s.len() - 5 - n1 implies t[i] == (") < ("@ + (b + (
        "))"@ + rest)))[i] by {
            assert(t[i] == s[5 + n1 + i]);
            assert(s[5 + n1 + i] == s.skip(5)[n1 + i]);
            assert(s.skip(5)[n1 + i] == rest1[i]);
        }
    }
    lemma_not_prefix_at(t, ") >= ("@, 2);
    lemma_not_prefix_at(t, ") <= ("@, 3);
    lemma_not_prefix_at(t, ") == ("@, 2);
    lemma_not_prefix_at(t, ") > ("@, 2);
    assert(t.subrange(0, 5) =~= ") < ("@);
    assert(has_prefix(t, ") < ("@));
    let used = 5 + n1 + 5;
    assert(s.skip(used) =~= b + "))"@ + rest) by {
        assert forall|i: int| 0 <= i < s.len() - used implies s.skip(used)[i] == (b + "))"@
            + rest)[i] by {
            assert(s.skip(used)[i] == s[used + i]);
            assert(s[used + i] == t[5 + i]);
        }
    }
    lemma_parse_tail_at(s, used, r, rest);
    assert(parse_expr(s) == parse_cmp(s));
    assert(parse_cmp(s) == Some((Expr::Lt(Box::new(l), Box::new(r)), used + b.len()
        + 2)));
    assert(sh.len() as int == used + b.len() + 2);
}

/// The `Lte` case of `lemma_parse_expr_shader`, with the recursive
/// facts about the operands supplied as hypotheses.
#[verifier::spinoff_prover]
proof fn lemma_parse_case_lte(l: Expr, r: Expr, rest: Seq<char>)
    requires
        parse_expr(expr_shader(l) + (") <= ("@ + expr_shader(r) + "))"@ + rest)) == Some(
            (l, expr_shader(l).len() as int),
        ),
        parse_expr(expr_shader(r) + ("))"@ + rest)) == Some((r, expr_shader(r).len() as int)),
    ensures
        parse_expr(expr_shader(Expr::Lte(Box::new(l), Box::new(r))) + rest) == Some(
            (
                Expr::Lte(Box::new(l), Box::new(r)),
                expr_shader(Expr::Lte(Box::new(l), Box::new(r))).len() as int,
            ),
        ),
{
    reveal_strlit("is_alive");
    reveal_strlit("num_neighbors");
    reveal_strlit("u32((");
    reveal_strlit("((");
    reveal_strlit(") > (");
    reveal_strlit(") >= (");
    reveal_strlit(") < (");
    reveal_strlit(") <= (");
    reveal_strlit(") == (");
    reveal_strlit(") & (");
    reveal_strlit(") | (");
    reveal_strlit(") <= (");
    reveal_strlit("))");
    let a = expr_shader(l);
    let b = expr_shader(r);
    let sh = "u32(("@ + a + ") <= ("@ + b + "))"@;
    assert(expr_shader(Expr::Lte(Box::new(l), Box::new(r))) == sh);
    let s = sh + rest;
    let rest1 = ") <= ("@ + b + "))"@ + rest;
    assert(rest1 =~= ") <= ("@ + (b + ("))"@ + rest)));
    assert(s.subrange(0, 5) =~= "u32(("@);
    assert(s[0] == "u32(("@[0]);
    assert(!is_digit(s[0]));
    lemma_not_prefix_at(s, "is_alive"@, 0);
    lemma_not_prefix_at(s, "num_neighbors"@, 0);
    assert(has_prefix(s, "u32(("@));
    assert(s.skip(5) =~= a + rest1);
    let n1 = a.len() as int;
    assert(0 <= n1 <= s.len() - 5);
    let t = s.skip(5 + n1);
    assert(t =~= ") <= ("@ + (b + ("))"@ + rest))) by {
        assert forall|i: int| 0 <= i < s.len() - 5 - n1 implies t[i] == (") <= ("@ + (b + (
        "))"@ + rest)))[i] by {
            assert(t[i] == s[5 + n1 + i]);
            assert(s[5 + n1 + i] == s.skip(5)[n1 + i]);
            assert(s.skip(5)[n1 + i] == rest1[i]);
        }
    }
    lemma_not_prefix_at(t, ") >= ("@, 2);
    assert(t.subrange(0, 6) =~= ") <= ("@);
    assert(has_prefix(t, ") <= ("@));
    let used = 5 + n1 + 6;
    assert(s.skip(used) =~= b + "))"@ + rest) by {
        assert forall|i: int| 0 <= i < s.len() - used implies s.skip(used)[i] == (b + "))"@
            + rest)[i] by {
            assert(s.skip(used)[i] == s[used + i]);
            assert(s[used + i] == t[6 + i]);
        }
    }
    lemma_parse_tail_at(s, used, r, rest);
    assert(parse_expr(s) == parse_cmp(s));
    assert(parse_cmp(s) == Some((Expr::Lte(Box::new(l), Box::new(r)), used + b.len()
        + 2)));
    assert(sh.len() as int == used + b.len() + 2);
}

/// The `And` case of `lemma_parse_expr_shader`, with the recursive
/// facts about the operands supplied as hypotheses.
#[verifier::spinoff_prover]
proof fn lemma_parse_case_and(l: Expr, r: Expr, rest: Seq<char>)
    requires
        parse_expr(expr_shader(l) + (") & ("@ + expr_shader(r) + "))"@ + rest)) == Some(
            (l, expr_shader(l).len() as int),
        ),
        parse_expr(expr_shader(r) + ("))"@ + rest)) == Some((r, expr_shader(r).len() as int)),
    ensures
        parse_expr(expr_shader(Expr::And(Box::new(l), Box::new(r))) + rest) == Some(
            (
                Expr::And(Box::new(l), Box::new(r)),
                expr_shader(Expr::And(Box::new(l), Box::new(r))).len() as int,
            ),
        ),
{
    reveal_strlit("is_alive");
    reveal_strlit("num_neighbors");
    reveal_strlit("u32((");
    reveal_strlit("((");
    reveal_strlit(") > (");
    reveal_strlit(") >= (");
    reveal_strlit(") < (");
    reveal_strlit(") <= (");
    reveal_strlit(") == (");
    reveal_strlit(") & (");
    reveal_strlit(") | (");
    reveal_strlit(") & (");
    reveal_strlit("))");
    let a = expr_shader(l);
    let b = expr_shader(r);
    let sh = "(("@ + a + ") & ("@ + b + "))"@;
    assert(expr_shader(Expr::And(Box::new(l), Box::new(r))) == sh);
    let s = sh + rest;
    let rest1 = ") & ("@ + b + "))"@ + rest;
    assert(rest1 =~= ") & ("@ + (b + ("))"@ + rest)));
    assert(s.subrange(0, 2) =~= "(("@);
    assert(s[0] == "(("@[0]);
    assert(!is_digit(s[0]));
    lemma_not_prefix_at(s, "is_alive"@, 0);
    lemma_not_prefix_at(s, "num_neighbors"@, 0);
    lemma_not_prefix_at(s, "u32(("@, 0);
    assert(has_prefix(s, "(("@));
    assert(s.skip(2) =~= a + rest1);
    let n1 = a.len() as int;
    assert(0 <= n1 <= s.len() - 2);
    let t = s.skip(2 + n1);
    assert(t =~= ") & ("@ + (b + ("))"@ + rest))) by {
        assert forall|i: int| 0 <= i < s.len() - 2 - n1 implies t[i] == (") & ("@ + (b + (
        "))"@ + rest)))[i] by {
            assert(t[i] == s[2 + n1 + i]);
            assert(s[2 + n1 + i] == s.skip(2)[n1 + i]);
            assert(s.skip(2)[n1 + i] == rest1[i]);
        }
    }
    assert(t.subrange(0, 5) =~= ") & ("@);
    assert(has_prefix(t, ") & ("@));
    let used = 2 + n1 + 5;
    assert(s.skip(used) =~= b + "))"@ + rest) by {
        assert forall|i: int| 0 <= i < s.len() - used implies s.skip(used)[i] == (b + "))"@
            + rest)[i] by {
            assert(s.skip(used)[i] == s[used + i]);
            assert(s[used + i] == t[5 + i]);
        }
    }
    lemma_parse_tail_at(s, used, r, rest);
    assert(parse_expr(s) == parse_bitop(s));
    assert(parse_bitop(s) == Some((Expr::And(Box::new(l), Box::new(r)), used + b.len()
        + 2)));
    assert(sh.len() as int == used + b.len() + 2);
}

/// The `Or` case of `lemma_parse_expr_shader`, with the recursive
/// facts about the operands supplied as hypotheses.
#[verifier::spinoff_prover]
proof fn lemma_parse_case_or(l: Expr, r: Expr, rest: Seq<char>)
    requires
        parse_expr(expr_shader(l) + (") | ("@ + expr_shader(r) + "))"@ + rest)) == Some(
            (l, expr_shader(l).len() as int),
        ),
        parse_expr(expr_shader(r) + ("))"@ + rest)) == Some((r, expr_shader(r).len() as int)),
    ensures
        parse_expr(expr_shader(Expr::Or(Box::new(l), Box::new(r))) + rest) == Some(
            (
                Expr::Or(Box::new(l), Box::new(r)),
                expr_shader(Expr::Or(Box::new(l), Box::new(r))).len() as int,
            ),
        ),
{
    reveal_strlit("is_alive");
    reveal_strlit("num_neighbors");
    reveal_strlit("u32((");
    reveal_strlit("((");
    reveal_strlit(") > (");
    reveal_strlit(") >= (");
    reveal_strlit(") < (");
    reveal_strlit(") <= (");
    reveal_strlit(") == (");
    reveal_strlit(") & (");
    reveal_strlit(") | (");
    reveal_strlit("))");
    let a = expr_shader(l);
    let b = expr_shader(r);
    let sh = "(("@ + a + ") | ("@ + b + "))"@;
    assert(expr_shader(Expr::Or(Box::new(l), Box::new(r))) == sh);
    let s = sh + rest;
    let rest1 = ") | ("@ + b + "))"@ + rest;
    assert(rest1 =~= ") | ("@ + (b + ("))"@ + rest)));
    assert(s.subrange(0, 2) =~= "(("@);
    assert(s[0] == "(("@[0]);
    assert(!is_digit(s[0]));
    lemma_not_prefix_at(s, "is_alive"@, 0);
    lemma_not_prefix_at(s, "num_neighbors"@, 0);
    lemma_not_prefix_at(s, "u32(("@, 0);
    assert(has_prefix(s, "(("@));
    assert(s.skip(2) =~= a + rest1);
    let n1 = a.len() as int;
    assert(0 <= n1 <= s.len() - 2);
    let t = s.skip(2 + n1);
    assert(t =~= ") | ("@ + (b + ("))"@ + rest))) by {
        assert forall|i: int| 0 <= i < s.len() - 2 - n1 implies t[i] == (") | ("@ + (b + (
        "))"@ + rest)))[i] by {
            assert(t[i] == s[2 + n1 + i]);
            assert(s[2 + n1 + i] == s.skip(2)[n1 + i]);
            assert(s.skip(2)[n1 + i] == rest1[i]);
        }
    }
    lemma_not_prefix_at(t, ") & ("@, 2);
    assert(t.subrange(0, 5) =~= ") | ("@);
    assert(has_prefix(t, ") | ("@));
    let used = 2 + n1 + 5;
    assert(s.skip(used) =~= b + "))"@ + rest) by {
        assert forall|i: int| 0 <= i < s.len() - used implies s.skip(used)[i] == (b + "))"@
            + rest)[i] by {
            assert(s.skip(used)[i] == s[used + i]);
            assert(s[used + i] == t[5 + i]);
        }
    }
    lemma_parse_tail_at(s, used, r, rest);
    assert(parse_expr(s) == parse_bitop(s));
    assert(parse_bitop(s) == Some((Expr::Or(Box::new(l), Box::new(r)), used + b.len()
        + 2)));
    assert(sh.len() as int == used + b.len() + 2);
}

/// The `Equal` case of `lemma_parse_expr_shader`, with the recursive
/// facts about the operands supplied as hypotheses.
#[verifier::spinoff_prover]
proof fn lemma_parse_case_equal(l: Expr, r: Expr, rest: Seq<char>)
    requires
        parse_expr(expr_shader(l) + (") == ("@ + expr_shader(r) + "))"@ + rest)) == Some(
            (l, expr_shader(l).len() as int),
        ),
        parse_expr(expr_shader(r) + ("))"@ + rest)) == Some((r, expr_shader(r).len() as int)),
    ensures
        parse_expr(expr_shader(Expr::Equal(Box::new(l), Box::new(r))) + rest) == Some(
            (
                Expr::Equal(Box::new(l), Box::new(r)),
                expr_shader(Expr::Equal(Box::new(l), Box::new(r))).len() as int,
            ),
        ),
{
    reveal_strlit("is_alive");
    reveal_strlit("num_neighbors");
    reveal_strlit("u32((");
    reveal_strlit("((");
    reveal_strlit(") > (");
    reveal_strlit(") >= (");
    reveal_strlit(") < (");
    reveal_strlit(") <= (");
    reveal_strlit(") == (");
    reveal_strlit(") & (");
    reveal_strlit(") | (");
    reveal_strlit(") == (");
    reveal_strlit("))");
    let a = expr_shader(l);
    let b = expr_shader(r);
    let sh = "u32(("@ + a + ") == ("@ + b + "))"@;
    assert(expr_shader(Expr::Equal(Box::new(l), Box::new(r))) == sh);
    let s = sh + rest;
    let rest1 = ") == ("@ + b + "))"@ + rest;
    assert(rest1 =~= ") == ("@ + (b + ("))"@ + rest)));
    assert(s.subrange(0, 5) =~= "u32(("@);
    assert(s[0] == "u32(("@[0]);
    assert(!is_digit(s[0]));
    lemma_not_prefix_at(s, "is_alive"@, 0);
    lemma_not_prefix_at(s, "num_neighbors"@, 0);
    assert(has_prefix(s, "u32(("@));
    assert(s.skip(5) =~= a + rest1);
    let n1 = a.len() as int;
    assert(0 <= n1 <= s.len() - 5);
    let t = s.skip(5 + n1);
    assert(t =~= ") == ("@ + (b + ("))"@ + rest))) by {
        assert forall|i: int| 0 <= i < s.len() - 5 - n1 implies t[i] == (") == ("@ + (b + (
        "))"@ + rest)))[i] by {
            assert(t[i] == s[5 + n1 + i]);
            assert(s[5 + n1 + i] == s.skip(5)[n1 + i]);
            assert(s.skip(5)[n1 + i] == rest1[i]);
        }
    }
    lemma_not_prefix_at(t, ") >= ("@, 2);
    lemma_not_prefix_at(t, ") <= ("@, 2);
    assert(t.subrange(0, 6) =~= ") == ("@);
    assert(has_prefix(t, ") == ("@));
    let used = 5 + n1 + 6;
    assert(s.skip(used) =~= b + "))"@ + rest) by {
        assert forall|i: int| 0 <= i < s.len() - used implies s.skip(used)[i] == (b + "))"@
            + rest)[i] by {
            assert(s.skip(used)[i] == s[used + i]);
            assert(s[used + i] == t[6 + i]);
        }
    }
    lemma_parse_tail_at(s, used, r, rest);
    assert(parse_expr(s) == parse_cmp(s));
    assert(parse_cmp(s) == Some((Expr::Equal(Box::new(l), Box::new(r)), used + b.len()
        + 2)));
    assert(sh.len() as int == used + b.len() + 2);
}

/// Compiled expression text, followed by anything, parses back to exactly
/// the tree it was compiled from, consuming exactly the compiled text.
pub proof fn lemma_parse_expr_shader(e: Expr, rest: Seq<char>)
    ensures
        parse_expr(expr_shader(e) + rest) == Some((e, expr_shader(e).len() as int)),
    decreases e,
{
    reveal_strlit("u");
    reveal_strlit("is_alive");
    reveal_strlit("num_neighbors");
    match e {
        Expr::U32(v) => {
            lemma_dec_digits(v as nat);
            let d = dec_digits(v as nat);
            let sh = d + "u"@;
            let s = sh + rest;
            assert(s =~= d + ("u"@ + rest));
            assert(s[0] == d[0]);
            assert(is_digit(s[0]));
            assert(("u"@ + rest)[0] == 'u');
            lemma_digit_run_concat(d, "u"@ + rest);
            let k = digit_run_len(s);
            assert(k == d.len());
            assert(s.subrange(0, k) =~= d);
            assert(dec_value(s.subrange(0, k)) == v as nat);
            assert(s[k] == ("u"@ + rest)[0]);
            assert(s[k] == 'u');
            assert(k < s.len());
            assert(parse_expr(s) == Some((Expr::U32(v), k + 1)));
            assert(sh.len() as int == k + 1);
        },
        Expr::Alive => {
            let s = "is_alive"@ + rest;
            assert(s.subrange(0, 8) =~= "is_alive"@);
            assert(s[0] == 'i');
            assert(!is_digit(s[0]));
            assert(has_prefix(s, "is_alive"@));
        },
        Expr::Neighbors => {
            let s = "num_neighbors"@ + rest;
            assert(s.subrange(0, 13) =~= "num_neighbors"@);
            assert(s[0] == 'n');
            assert(!is_digit(s[0]));
            lemma_not_prefix_at(s, "is_alive"@, 0);
            assert(has_prefix(s, "num_neighbors"@));
        },
        Expr::Gt(l, r) => {
            lemma_parse_expr_shader(*l, ") > ("@ + expr_shader(*r) + "))"@ + rest);
            lemma_parse_expr_shader(*r, "))"@ + rest);
            lemma_parse_case_gt(*l, *r, rest);
        },
        Expr::Gte(l, r) => {
            lemma_parse_expr_shader(*l, ") >= ("@ + expr_shader(*r) + "))"@ + rest);
            lemma_parse_expr_shader(*r, "))"@ + rest);
            lemma_parse_case_gte(*l, *r, rest);
        },
        Expr::Lt(l, r) => {
            lemma_parse_expr_shader(*l, ") < ("@ + expr_shader(*r) + "))"@ + rest);
            lemma_parse_expr_shader(*r, "))"@ + rest);
            lemma_parse_case_lt(*l, *r, rest);
        },
        Expr::Lte(l, r) => {
            lemma_parse_expr_shader(*l, ") <= ("@ + expr_shader(*r) + "))"@ + rest);
            lemma_parse_expr_shader(*r, "))"@ + rest);
            lemma_parse_case_lte(*l, *r, rest);
        },
        Expr::And(l, r) => {
            lemma_parse_expr_shader(*l, ") & ("@ + expr_shader(*r) + "))"@ + rest);
            lemma_parse_expr_shader(*r, "))"@ + rest);
            lemma_parse_case_and(*l, *r, rest);
        },
        Expr::Or(l, r) => {
            lemma_parse_expr_shader(*l, ") | ("@ + expr_shader(*r) + "))"@ + rest);
            lemma_parse_expr_shader(*r, "))"@ + rest);
            lemma_parse_case_or(*l, *r, rest);
        },
        Expr::Equal(l, r) => {
            lemma_parse_expr_shader(*l, ") == ("@ + expr_shader(*r) + "))"@ + rest);
            lemma_parse_expr_shader(*r, "))"@ + rest);
            lemma_parse_case_equal(*l, *r, rest);
        },
    }
}

/// Re-parsing compiled expression text yields the source tree: the emitted
/// parenthesization pins the association completely.
pub proof fn lemma_compile_parses_back(e: Expr)
    ensures
        parse_expr(expr_shader(e)) == Some((e, expr_shader(e).len() as int)),
{
    lemma_parse_expr_shader(e, Seq::empty());
    assert(expr_shader(e) + Seq::<char>::empty() =~= expr_shader(e));
}

/// Compilation is injective: two trees with the same compiled text are the
/// same tree.
pub proof fn lemma_compile_injective(a: Expr, b: Expr)
    requires
        expr_shader(a) == expr_shader(b),
    ensures
        a == b,
{
    lemma_compile_parses_back(a);
    lemma_compile_parses_back(b);
}

} // verus!
