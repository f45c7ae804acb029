//! Proved facts about the shape of compiled rule text.

use vstd::prelude::*;
use crate::dsl::{expr_shader, stmt_shader, Expr, Statement};
use crate::text::{dec_digits, dec_value, is_digit, occurs_at};

verus! {

/// Whether `c` is one of the two bitwise-combination characters.
pub open spec fn is_bitop_char(c: char) -> bool {
    c == '&' || c == '|'
}

/// Whether `s` is free of the short-circuit operator tokens `&&` and `||`:
/// no two adjacent characters are both `'&'` or both `'|'`.
pub open spec fn sc_free(s: Seq<char>) -> bool {
    forall|i: int|
        0 <= i && i + 1 < s.len() ==> !((#[trigger] s[i] == '&' && s[i + 1] == '&') || (s[i] == '|'
            && s[i + 1] == '|'))
}

proof fn lemma_sc_free_concat(a: Seq<char>, b: Seq<char>)
    requires
        sc_free(a),
        sc_free(b),
        a.len() > 0 && b.len() > 0 ==> !(is_bitop_char(a.last()) && is_bitop_char(b[0])),
    ensures
        sc_free(a + b),
{
    assert forall|i: int| 0 <= i && i + 1 < (a + b).len() implies !((#[trigger] (a + b)[i] == '&'
        && (a + b)[i + 1] == '&') || ((a + b)[i] == '|' && (a + b)[i + 1] == '|')) by {
        if i + 1 < a.len() {
            assert((a + b)[i] == a[i] && (a + b)[i + 1] == a[i + 1]);
        } else if i + 1 == a.len() {
            assert((a + b)[i] == a.last() && (a + b)[i + 1] == b[0]);
        } else {
            assert((a + b)[i] == b[i - a.len()] && (a + b)[i + 1] == b[i + 1 - a.len()]);
        }
    }
}

/// Compiled expression text never contains a short-circuit operator token:
/// `And` and `Or` emit only the bitwise forms `&` and `|`, each surrounded by
/// spaces.  The text is also never empty and never begins or ends with a
/// bitwise-operator character.
pub proof fn lemma_no_short_circuit_tokens(e: Expr)
    ensures
        sc_free(expr_shader(e)),
        expr_shader(e).len() > 0,
        !is_bitop_char(expr_shader(e)[0]),
        !is_bitop_char(expr_shader(e).last()),
    decreases e,
{
    reveal_strlit("u");
    reveal_strlit("is_alive");
    reveal_strlit("num_neighbors");
    reveal_strlit("u32((");
    reveal_strlit("((");
    reveal_strlit(") > (");
    reveal_strlit(") >= (");
    reveal_strlit(") < (");
    reveal_strlit(") <= (");
    reveal_strlit(") == (");
    reveal_strlit(") & (");
    reveal_strlit(") | (");
    reveal_strlit("))");
    match e {
        Expr::U32(v) => {
            crate::text::lemma_dec_digits(v as nat);
            let s = dec_digits(v as nat) + "u"@;
            assert forall|i: int| 0 <= i < s.len() implies !is_bitop_char(#[trigger] s[i]) by {
                if i < dec_digits(v as nat).len() {
                    assert(is_digit(dec_digits(v as nat)[i]));
                }
            }
            assert(sc_free(s));
        },
        Expr::Alive => {
            let s = "is_alive"@;
            assert forall|i: int| 0 <= i && i + 1 < s.len() implies !((#[trigger] s[i] == '&'
                && s[i + 1] == '&') || (s[i] == '|' && s[i + 1] == '|')) by {}
        },
        Expr::Neighbors => {
            let s = "num_neighbors"@;
            assert forall|i: int| 0 <= i && i + 1 < s.len() implies !((#[trigger] s[i] == '&'
                && s[i + 1] == '&') || (s[i] == '|' && s[i + 1] == '|')) by {}
        },
        Expr::Gt(l, r) => {
            lemma_no_short_circuit_tokens(*l);
            lemma_no_short_circuit_tokens(*r);
            lemma_binary_sc_free(*l, *r, "u32(("@, ") > ("@);
        },
        Expr::Gte(l, r) => {
            lemma_no_short_circuit_tokens(*l);
            lemma_no_short_circuit_tokens(*r);
            lemma_binary_sc_free(*l, *r, "u32(("@, ") >= ("@);
        },
        Expr::Lt(l, r) => {
            lemma_no_short_circuit_tokens(*l);
            lemma_no_short_circuit_tokens(*r);
            lemma_binary_sc_free(*l, *r, "u32(("@, ") < ("@);
        },
        Expr::Lte(l, r) => {
            lemma_no_short_circuit_tokens(*l);
            lemma_no_short_circuit_tokens(*r);
            lemma_binary_sc_free(*l, *r, "u32(("@, ") <= ("@);
        },
        Expr::And(l, r) => {
            lemma_no_short_circuit_tokens(*l);
            lemma_no_short_circuit_tokens(*r);
            lemma_binary_sc_free(*l, *r, "(("@, ") & ("@);
        },
        Expr::Or(l, r) => {
            lemma_no_short_circuit_tokens(*l);
            lemma_no_short_circuit_tokens(*r);
            lemma_binary_sc_free(*l, *r, "(("@, ") | ("@);
        },
        Expr::Equal(l, r) => {
            lemma_no_short_circuit_tokens(*l);
            lemma_no_short_circuit_tokens(*r);
            lemma_binary_sc_free(*l, *r, "u32(("@, ") == ("@);
        },
    }
}

/// The concatenation `head + shader(l) + mid + shader(r) + "))"` stays free
/// of short-circuit tokens when the fixed pieces are.
proof fn lemma_binary_sc_free(l: Expr, r: Expr, head: Seq<char>, mid: Seq<char>)
    requires
        sc_free(head),
        sc_free(mid),
        head.len() > 0,
        mid.len() > 0,
        !is_bitop_char(head[0]),
        !is_bitop_char(head.last()),
        !is_bitop_char(mid[0]),
        !is_bitop_char(mid.last()),
        sc_free(expr_shader(l)),
        expr_shader(l).len() > 0,
        !is_bitop_char(expr_shader(l)[0]),
        !is_bitop_char(expr_shader(l).last()),
        sc_free(expr_shader(r)),
        expr_shader(r).len() > 0,
        !is_bitop_char(expr_shader(r)[0]),
        !is_bitop_char(expr_shader(r).last()),
    ensures
        sc_free(head + expr_shader(l) + mid + expr_shader(r) + "))"@),
        (head + expr_shader(l) + mid + expr_shader(r) + "))"@).len() > 0,
        !is_bitop_char((head + expr_shader(l) + mid + expr_shader(r) + "))"@)[0]),
        !is_bitop_char((head + expr_shader(l) + mid + expr_shader(r) + "))"@).last()),
{
    reveal_strlit("))");
    let a = head + expr_shader(l);
    lemma_sc_free_concat(head, expr_shader(l));
    let b = a + mid;
    lemma_sc_free_concat(a, mid);
    let c = b + expr_shader(r);
    lemma_sc_free_concat(b, expr_shader(r));
    assert(sc_free("))"@)) by {
        assert forall|i: int| 0 <= i && i + 1 < "))"@.len() implies !((#[trigger] "))"@[i] == '&'
            && "))"@[i + 1] == '&') || ("))"@[i] == '|' && "))"@[i + 1] == '|')) by {}
    }
    lemma_sc_free_concat(c, "))"@);
}

/// A compiled conditional contains the `if (` opening at its start and the
/// ` } else { ` block divider at the position right after the true branch:
/// both blocks are always textually present, even for `Void` branches.
pub proof fn lemma_if_then_else_blocks(c: Expr, t: Statement, f: Statement)
    ensures
        occurs_at(
            stmt_shader(
                Statement::IfThenElse {
                    condition: c,
                    if_true_then: Box::new(t),
                    if_false_then: Box::new(f),
                },
            ),
            "if ("@,
            0,
        ),
        occurs_at(
            stmt_shader(
                Statement::IfThenElse {
                    condition: c,
                    if_true_then: Box::new(t),
                    if_false_then: Box::new(f),
                },
            ),
            " } else { "@,
            "if ("@.len() + expr_shader(c).len() + ") { "@.len() + stmt_shader(t).len() as int,
        ),
{
    let s = stmt_shader(
        Statement::IfThenElse {
            condition: c,
            if_true_then: Box::new(t),
            if_false_then: Box::new(f),
        },
    );
    let i: int = "if ("@.len() + expr_shader(c).len() + ") { "@.len() + stmt_shader(t).len() as int;
    assert(s.subrange(0, "if ("@.len() as int) =~= "if ("@);
    assert(s.subrange(i, i + " } else { "@.len()) =~= " } else { "@);
}

/// A compiled constant is the decimal text of its value followed by the
/// unsigned suffix `u`; the digits read back as the value itself.
pub proof fn lemma_const_compiles_to_literal(n: u32)
    ensures
        expr_shader(Expr::U32(n)) == dec_digits(n as nat) + "u"@,
        dec_value(dec_digits(n as nat)) == n,
        forall|i: int|
            0 <= i < dec_digits(n as nat).len() ==> is_digit(#[trigger] dec_digits(n as nat)[i]),
{
    crate::text::lemma_dec_digits(n as nat);
}

} // verus!
