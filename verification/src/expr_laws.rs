//! Laws of the expression grammar: what the operators of the language mean.
use vstd::prelude::*;
use crate::expr::{BinaryOp, ExprV, UnaryOp};
use crate::expr_grammar::{
    comp_op, eq_ic, ident, is_alpha, is_digit, is_word, is_ws, kw_at, parse_spec, sp_add_rest,
    sp_addition, sp_and, sp_and_rest, sp_between, sp_comp_tail, sp_comparison, sp_expression, sp_mult,
    sp_mult_rest, sp_not, sp_or, sp_or_rest, sp_primary, sp_unary, sp_word, word_end, ws_end,
};

verus! {

/// `w` and `k` are the same word, ignoring the case of ASCII letters.
pub open spec fn same_word_ic(w: Seq<char>, k: Seq<char>) -> bool {
    &&& w.len() == k.len()
    &&& forall|i: int| 0 <= i < w.len() ==> eq_ic(#[trigger] w[i], k[i])
}

/// A bare column name: a letter or `_`, then letters, digits and `_`; and none of the words
/// that begin another form (`NULL`, `TRUE`, `FALSE`, `CASE`, `CAST`, `NOT`), in any case.
pub open spec fn is_bare_name(w: Seq<char>) -> bool {
    &&& w.len() > 0
    &&& (is_alpha(w[0]) || w[0] == '_')
    &&& forall|i: int| 0 <= i < w.len() ==> is_word(#[trigger] w[i])
    &&& !same_word_ic(w, "NULL"@)
    &&& !same_word_ic(w, "TRUE"@)
    &&& !same_word_ic(w, "FALSE"@)
    &&& !same_word_ic(w, "CASE"@)
    &&& !same_word_ic(w, "CAST"@)
    &&& !same_word_ic(w, "NOT"@)
}

/// The unqualified column that a bare name refers to.
pub open spec fn column(w: Seq<char>) -> ExprV {
    ExprV::Col { table: None, column: w }
}

/// `left op right`.
pub open spec fn binary(left: ExprV, op: BinaryOp, right: ExprV) -> ExprV {
    ExprV::Bin { left: Box::new(left), op, right: Box::new(right) }
}

/// A keyword of letters is not at `p` when a whole word other than it stands there.
#[verifier::spinoff_prover]
proof fn lemma_not_kw(s: Seq<char>, p: int, w: Seq<char>, k: Seq<char>)
    requires
        0 <= p,
        p + w.len() <= s.len(),
        s.subrange(p, p + w.len()) == w,
        p + w.len() == s.len() || !is_word(s[p + w.len()]),
        forall|i: int| 0 <= i < w.len() ==> is_word(#[trigger] w[i]),
        k.len() > 0,
        forall|i: int| 0 <= i < k.len() ==> is_alpha(#[trigger] k[i]),
        !same_word_ic(w, k),
    ensures
        !kw_at(s, p, k),
{
    if kw_at(s, p, k) {
        if k.len() < w.len() {
            assert(s[p + k.len()] == w[k.len() as int]);
        } else if k.len() > w.len() {
            let i = w.len() as int;
            assert(eq_ic(s[p + i], k[i]));
            assert(is_alpha(k[i]));
        } else {
            assert forall|i: int| 0 <= i < w.len() implies eq_ic(#[trigger] w[i], k[i]) by {
                assert(w[i] == s[p + i]);
            }
        }
    }
}

/// A keyword of letters is not at `p` when what stands there is no letter.
#[verifier::spinoff_prover]
proof fn lemma_not_kw_at_other(s: Seq<char>, p: int, k: Seq<char>)
    requires
        k.len() > 0,
        is_alpha(k[0]),
        p >= s.len() || (0 <= p && !is_alpha(s[p])),
    ensures
        !kw_at(s, p, k),
{
    if kw_at(s, p, k) {
        assert(eq_ic(s[p + 0], k[0]));
    }
}

#[verifier::spinoff_prover]
proof fn lemma_word_end_run(s: Seq<char>, q: int, e: int)
    requires
        0 <= q <= e <= s.len(),
        forall|i: int| q <= i < e ==> is_word(#[trigger] s[i]),
        e == s.len() || !is_word(s[e]),
    ensures
        word_end(s, q) == e,
    decreases e - q,
{
    if q < e {
        lemma_word_end_run(s, q + 1, e);
    }
}

#[verifier::spinoff_prover]
proof fn lemma_keywords_are_letters()
    ensures
        forall|i: int| 0 <= i < "NULL"@.len() ==> is_alpha(#[trigger] "NULL"@[i]),
        forall|i: int| 0 <= i < "TRUE"@.len() ==> is_alpha(#[trigger] "TRUE"@[i]),
        forall|i: int| 0 <= i < "FALSE"@.len() ==> is_alpha(#[trigger] "FALSE"@[i]),
        forall|i: int| 0 <= i < "CASE"@.len() ==> is_alpha(#[trigger] "CASE"@[i]),
        forall|i: int| 0 <= i < "CAST"@.len() ==> is_alpha(#[trigger] "CAST"@[i]),
        forall|i: int| 0 <= i < "NOT"@.len() ==> is_alpha(#[trigger] "NOT"@[i]),
        "NULL"@.len() > 0 && "TRUE"@.len() > 0 && "FALSE"@.len() > 0 && "CASE"@.len() > 0
            && "CAST"@.len() > 0 && "NOT"@.len() > 0,
        is_alpha("IS"@[0]) && "IS"@.len() > 0,
        is_alpha("IN"@[0]) && "IN"@.len() > 0,
        is_alpha("BETWEEN"@[0]) && "BETWEEN"@.len() > 0,
        is_alpha("LIKE"@[0]) && "LIKE"@.len() > 0,
        is_alpha("AND"@[0]) && "AND"@.len() > 0,
        is_alpha("OR"@[0]) && "OR"@.len() > 0,
        is_alpha("AS"@[0]) && "AS"@.len() > 0,
{
    reveal_strlit("NULL");
    reveal_strlit("TRUE");
    reveal_strlit("FALSE");
    reveal_strlit("CASE");
    reveal_strlit("CAST");
    reveal_strlit("NOT");
    reveal_strlit("IS");
    reveal_strlit("IN");
    reveal_strlit("BETWEEN");
    reveal_strlit("LIKE");
    reveal_strlit("AND");
    reveal_strlit("OR");
    reveal_strlit("AS");
}

/// A bare name at `p`, followed by the end or by a character that continues no word, is no
/// space and opens neither a call nor a qualified name, is a unary expression: its column.
#[verifier::spinoff_prover]
proof fn lemma_name_unary(s: Seq<char>, p: int, w: Seq<char>)
    requires
        0 <= p,
        p + w.len() <= s.len(),
        s.subrange(p, p + w.len()) == w,
        is_bare_name(w),
        p + w.len() == s.len() || ({
            let c = s[p + w.len()];
            !is_word(c) && !is_ws(c) && c != '(' && c != '.'
        }),
    ensures
        sp_unary(s, p) == Ok::<(ExprV, int), Seq<char>>((column(w), p + w.len())),
        sp_primary(s, p) == Ok::<(ExprV, int), Seq<char>>((column(w), p + w.len())),
        !kw_at(s, p, "NOT"@),
{
    let e = p + w.len();
    reveal_with_fuel(sp_unary, 1);
    reveal_with_fuel(sp_primary, 1);
    reveal_with_fuel(sp_word, 1);
    assert(s[p] == w[0]);
    assert(ws_end(s, p) == p);
    lemma_keywords_are_letters();
    lemma_not_kw(s, p, w, "NULL"@);
    lemma_not_kw(s, p, w, "TRUE"@);
    lemma_not_kw(s, p, w, "FALSE"@);
    lemma_not_kw(s, p, w, "CASE"@);
    lemma_not_kw(s, p, w, "CAST"@);
    lemma_not_kw(s, p, w, "NOT"@);
    assert forall|i: int| p + 1 <= i < e implies is_word(#[trigger] s[i]) by {
        assert(s[i] == w[i - p]);
    }
    lemma_word_end_run(s, p + 1, e);
    assert(ident(s, p) == Ok::<(Seq<char>, int), Seq<char>>((w, e)));
    assert(ws_end(s, e) == e);
}

/// The layout of `x`, then the operator characters `op`, then `y`.
#[verifier::spinoff_prover]
proof fn lemma_layout(x: Seq<char>, op: Seq<char>, y: Seq<char>)
    ensures
        ({
            let s = x + op + y;
            &&& s.len() == x.len() + op.len() + y.len()
            &&& s.subrange(0, x.len() as int) == x
            &&& s.subrange((x.len() + op.len()) as int, s.len() as int) == y
            &&& forall|i: int| 0 <= i < op.len() ==> s[x.len() + i] == #[trigger] op[i]
        }),
{
    let s = x + op + y;
    assert(s.subrange(0, x.len() as int) =~= x);
    assert(s.subrange((x.len() + op.len()) as int, s.len() as int) =~= y);
}

#[verifier::spinoff_prover]
proof fn lemma_mult_rest_at_end(s: Seq<char>, e: ExprV)
    ensures
        sp_mult_rest(s, s.len() as int, e) == Ok::<(ExprV, int), Seq<char>>((e, s.len() as int)),
{
    reveal_with_fuel(sp_mult_rest, 1);
    assert(ws_end(s, s.len() as int) == s.len());
}

#[verifier::spinoff_prover]
proof fn lemma_add_rest_at_end(s: Seq<char>, e: ExprV)
    ensures
        sp_add_rest(s, s.len() as int, e) == Ok::<(ExprV, int), Seq<char>>((e, s.len() as int)),
{
    reveal_with_fuel(sp_add_rest, 1);
    assert(ws_end(s, s.len() as int) == s.len());
}

#[verifier::spinoff_prover]
proof fn lemma_comp_tail_at_end(s: Seq<char>, e: ExprV)
    ensures
        sp_comp_tail(s, s.len() as int, e) == Ok::<(ExprV, int), Seq<char>>((e, s.len() as int)),
{
    reveal_with_fuel(sp_comp_tail, 1);
    let n = s.len() as int;
    lemma_keywords_are_letters();
    lemma_not_kw_at_other(s, n, "IS"@);
    lemma_not_kw_at_other(s, n, "NOT"@);
    lemma_not_kw_at_other(s, n, "IN"@);
    lemma_not_kw_at_other(s, n, "BETWEEN"@);
    lemma_not_kw_at_other(s, n, "LIKE"@);
    assert(comp_op(s, n) is None);
}

#[verifier::spinoff_prover]
proof fn lemma_and_rest_at_end(s: Seq<char>, e: ExprV)
    ensures
        sp_and_rest(s, s.len() as int, e) == Ok::<(ExprV, int), Seq<char>>((e, s.len() as int)),
{
    reveal_with_fuel(sp_and_rest, 1);
    assert(ws_end(s, s.len() as int) == s.len());
    lemma_keywords_are_letters();
    lemma_not_kw_at_other(s, s.len() as int, "AND"@);
}

#[verifier::spinoff_prover]
proof fn lemma_or_rest_at_end(s: Seq<char>, e: ExprV)
    ensures
        sp_or_rest(s, s.len() as int, e) == Ok::<(ExprV, int), Seq<char>>((e, s.len() as int)),
{
    reveal_with_fuel(sp_or_rest, 1);
    assert(ws_end(s, s.len() as int) == s.len());
    lemma_keywords_are_letters();
    lemma_not_kw_at_other(s, s.len() as int, "OR"@);
}

#[verifier::spinoff_prover]
proof fn lemma_comparison_to_end(s: Seq<char>, p: int, e: ExprV)
    requires
        0 <= p <= s.len(),
        sp_addition(s, p) == Ok::<(ExprV, int), Seq<char>>((e, s.len() as int)),
    ensures
        sp_comparison(s, p) == Ok::<(ExprV, int), Seq<char>>((e, s.len() as int)),
{
    reveal_with_fuel(sp_comparison, 1);
    assert(ws_end(s, s.len() as int) == s.len());
    lemma_comp_tail_at_end(s, e);
}

#[verifier::spinoff_prover]
proof fn lemma_not_to_end(s: Seq<char>, e: ExprV)
    requires
        s.len() > 0,
        !is_ws(s[0]),
        !kw_at(s, 0, "NOT"@),
        sp_comparison(s, 0) == Ok::<(ExprV, int), Seq<char>>((e, s.len() as int)),
    ensures
        sp_not(s, 0) == Ok::<(ExprV, int), Seq<char>>((e, s.len() as int)),
{
    reveal_with_fuel(sp_not, 1);
    assert(ws_end(s, 0) == 0);
}

#[verifier::spinoff_prover]
proof fn lemma_and_to_end(s: Seq<char>, e: ExprV)
    requires
        sp_not(s, 0) == Ok::<(ExprV, int), Seq<char>>((e, s.len() as int)),
    ensures
        sp_and(s, 0) == Ok::<(ExprV, int), Seq<char>>((e, s.len() as int)),
{
    reveal_with_fuel(sp_and, 1);
    lemma_and_rest_at_end(s, e);
}

#[verifier::spinoff_prover]
proof fn lemma_or_to_end(s: Seq<char>, e: ExprV)
    requires
        sp_and(s, 0) == Ok::<(ExprV, int), Seq<char>>((e, s.len() as int)),
    ensures
        sp_or(s, 0) == Ok::<(ExprV, int), Seq<char>>((e, s.len() as int)),
{
    reveal_with_fuel(sp_or, 1);
    lemma_or_rest_at_end(s, e);
}

#[verifier::spinoff_prover]
proof fn lemma_expression_to_end(s: Seq<char>, e: ExprV)
    requires
        sp_or(s, 0) == Ok::<(ExprV, int), Seq<char>>((e, s.len() as int)),
    ensures
        parse_spec(s) == Ok::<ExprV, Seq<char>>(e),
{
    reveal_with_fuel(sp_expression, 1);
    assert(ws_end(s, s.len() as int) == s.len());
    lemma_keywords_are_letters();
    lemma_not_kw_at_other(s, s.len() as int, "AS"@);
    assert(sp_expression(s, 0) == Ok::<(ExprV, int), Seq<char>>((e, s.len() as int)));
}

/// A whole text that is a comparison-level expression (starting with no space and no `NOT`)
/// parses as that expression.
#[verifier::spinoff_prover]
proof fn lemma_whole_comparison(s: Seq<char>, e: ExprV)
    requires
        s.len() > 0,
        !is_ws(s[0]),
        !kw_at(s, 0, "NOT"@),
        sp_comparison(s, 0) == Ok::<(ExprV, int), Seq<char>>((e, s.len() as int)),
    ensures
        parse_spec(s) == Ok::<ExprV, Seq<char>>(e),
{
    lemma_not_to_end(s, e);
    lemma_and_to_end(s, e);
    lemma_or_to_end(s, e);
    lemma_expression_to_end(s, e);
}

/// A whole text that is an addition-level expression (starting with no space and no `NOT`)
/// parses as that expression.
#[verifier::spinoff_prover]
proof fn lemma_whole_addition(s: Seq<char>, e: ExprV)
    requires
        s.len() > 0,
        !is_ws(s[0]),
        !kw_at(s, 0, "NOT"@),
        sp_addition(s, 0) == Ok::<(ExprV, int), Seq<char>>((e, s.len() as int)),
    ensures
        parse_spec(s) == Ok::<ExprV, Seq<char>>(e),
{
    lemma_comparison_to_end(s, 0, e);
    lemma_whole_comparison(s, e);
}

/// An addition-level expression: a multiplication-level one with nothing after it.
#[verifier::spinoff_prover]
proof fn lemma_addition_to_end(s: Seq<char>, p: int, e: ExprV)
    requires
        0 <= p <= s.len(),
        sp_mult(s, p) == Ok::<(ExprV, int), Seq<char>>((e, s.len() as int)),
    ensures
        sp_addition(s, p) == Ok::<(ExprV, int), Seq<char>>((e, s.len() as int)),
{
    reveal_with_fuel(sp_addition, 1);
    lemma_add_rest_at_end(s, e);
}

/// The multiplication operator a character stands for.
pub open spec fn mult_op(c: char) -> BinaryOp {
    if c == '*' {
        BinaryOp::Mul
    } else if c == '/' {
        BinaryOp::Div
    } else {
        BinaryOp::Mod
    }
}

/// `x c y`, with `c` one of `*`, `/`, `%`, is an addition-level expression: their product.
#[verifier::spinoff_prover]
proof fn lemma_mult_names(x: Seq<char>, c: char, y: Seq<char>)
    requires
        is_bare_name(x),
        is_bare_name(y),
        c == '*' || c == '/' || c == '%',
    ensures
        sp_addition(x + seq![c] + y, 0) == Ok::<(ExprV, int), Seq<char>>(
            (binary(column(x), mult_op(c), column(y)), (x + seq![c] + y).len() as int)),
        !kw_at(x + seq![c] + y, 0, "NOT"@),
{
    let s = x + seq![c] + y;
    let n = x.len() as int;
    lemma_layout(x, seq![c], y);
    assert(s[n] == c);
    lemma_name_unary(s, 0, x);
    lemma_name_unary(s, n + 1, y);
    assert(y[0] == s[n + 1]);
    assert(ws_end(s, n) == n);
    assert(ws_end(s, n + 1) == n + 1);
    let b = binary(column(x), mult_op(c), column(y));
    lemma_mult_rest_at_end(s, b);
    lemma_mult_step(s, n, column(x), c, y);
    lemma_mult_first(s, 0, column(x), n, b);
    lemma_addition_to_end(s, 0, b);
}

#[verifier::spinoff_prover]
proof fn lemma_mult_step(s: Seq<char>, n: int, left: ExprV, c: char, y: Seq<char>)
    requires
        0 <= n,
        n + 1 + y.len() == s.len(),
        s[n] == c,
        c == '*' || c == '/' || c == '%',
        sp_unary(s, n + 1) == Ok::<(ExprV, int), Seq<char>>((column(y), s.len() as int)),
        sp_mult_rest(s, s.len() as int, binary(left, mult_op(c), column(y)))
            == Ok::<(ExprV, int), Seq<char>>((binary(left, mult_op(c), column(y)), s.len() as int)),
        is_bare_name(y),
        s[n + 1] == y[0],
    ensures
        sp_mult_rest(s, n, left) == Ok::<(ExprV, int), Seq<char>>((binary(left, mult_op(c), column(y)), s.len() as int)),
{
    reveal_with_fuel(sp_mult_rest, 1);
    assert(ws_end(s, n) == n);
    assert(ws_end(s, n + 1) == n + 1);
}

#[verifier::spinoff_prover]
proof fn lemma_mult_first(s: Seq<char>, p: int, first: ExprV, n: int, b: ExprV)
    requires
        0 <= p < n <= s.len(),
        sp_unary(s, p) == Ok::<(ExprV, int), Seq<char>>((first, n)),
        sp_mult_rest(s, n, first) == Ok::<(ExprV, int), Seq<char>>((b, s.len() as int)),
    ensures
        sp_mult(s, p) == Ok::<(ExprV, int), Seq<char>>((b, s.len() as int)),
{
    reveal_with_fuel(sp_mult, 1);
}

/// For bare names `x` and `y`: `x * y`, `x / y` and `x % y` (written without spaces) parse as
/// the product, the quotient and the remainder of the two columns.
#[verifier::spinoff_prover]
pub proof fn lemma_multiplicative_operators(x: Seq<char>, y: Seq<char>)
    requires
        is_bare_name(x),
        is_bare_name(y),
    ensures
        parse_spec(x + seq!['*'] + y) == Ok::<ExprV, Seq<char>>(binary(column(x), BinaryOp::Mul, column(y))),
        parse_spec(x + seq!['/'] + y) == Ok::<ExprV, Seq<char>>(binary(column(x), BinaryOp::Div, column(y))),
        parse_spec(x + seq!['%'] + y) == Ok::<ExprV, Seq<char>>(binary(column(x), BinaryOp::Mod, column(y))),
{
    lemma_mult_names(x, '*', y);
    lemma_mult_names(x, '/', y);
    lemma_mult_names(x, '%', y);
    assert((x + seq!['*'] + y)[0] == x[0]);
    assert((x + seq!['/'] + y)[0] == x[0]);
    assert((x + seq!['%'] + y)[0] == x[0]);
    lemma_whole_addition(x + seq!['*'] + y, binary(column(x), BinaryOp::Mul, column(y)));
    lemma_whole_addition(x + seq!['/'] + y, binary(column(x), BinaryOp::Div, column(y)));
    lemma_whole_addition(x + seq!['%'] + y, binary(column(x), BinaryOp::Mod, column(y)));
}

#[verifier::spinoff_prover]
proof fn lemma_mult_rest_stop(s: Seq<char>, q: int, e: ExprV)
    requires
        0 <= q < s.len(),
        !is_ws(s[q]),
        s[q] != '*' && s[q] != '/' && s[q] != '%',
    ensures
        sp_mult_rest(s, q, e) == Ok::<(ExprV, int), Seq<char>>((e, q)),
{
    reveal_with_fuel(sp_mult_rest, 1);
    assert(ws_end(s, q) == q);
}

#[verifier::spinoff_prover]
proof fn lemma_add_rest_stop(s: Seq<char>, q: int, e: ExprV)
    requires
        0 <= q < s.len(),
        !is_ws(s[q]),
        s[q] != '+' && s[q] != '-',
    ensures
        sp_add_rest(s, q, e) == Ok::<(ExprV, int), Seq<char>>((e, q)),
{
    reveal_with_fuel(sp_add_rest, 1);
    assert(ws_end(s, q) == q);
}

#[verifier::spinoff_prover]
proof fn lemma_mult_from(s: Seq<char>, p: int, first: ExprV, n: int, b: ExprV, m: int)
    requires
        0 <= p < n <= s.len(),
        sp_unary(s, p) == Ok::<(ExprV, int), Seq<char>>((first, n)),
        sp_mult_rest(s, n, first) == Ok::<(ExprV, int), Seq<char>>((b, m)),
    ensures
        sp_mult(s, p) == Ok::<(ExprV, int), Seq<char>>((b, m)),
{
    reveal_with_fuel(sp_mult, 1);
}

#[verifier::spinoff_prover]
proof fn lemma_addition_from(s: Seq<char>, p: int, first: ExprV, n: int, b: ExprV, m: int)
    requires
        0 <= p < n <= s.len(),
        sp_mult(s, p) == Ok::<(ExprV, int), Seq<char>>((first, n)),
        sp_add_rest(s, n, first) == Ok::<(ExprV, int), Seq<char>>((b, m)),
    ensures
        sp_addition(s, p) == Ok::<(ExprV, int), Seq<char>>((b, m)),
{
    reveal_with_fuel(sp_addition, 1);
}

#[verifier::spinoff_prover]
proof fn lemma_comparison_from(s: Seq<char>, first: ExprV, n: int, b: ExprV)
    requires
        0 < n < s.len(),
        !is_ws(s[n]),
        sp_addition(s, 0) == Ok::<(ExprV, int), Seq<char>>((first, n)),
        sp_comp_tail(s, n, first) == Ok::<(ExprV, int), Seq<char>>((b, s.len() as int)),
    ensures
        sp_comparison(s, 0) == Ok::<(ExprV, int), Seq<char>>((b, s.len() as int)),
{
    reveal_with_fuel(sp_comparison, 1);
    assert(ws_end(s, n) == n);
}

/// A bare name that runs to the end of the text is an addition-level expression there.
#[verifier::spinoff_prover]
proof fn lemma_name_addition_at_end(s: Seq<char>, p: int, y: Seq<char>)
    requires
        0 <= p,
        p + y.len() == s.len(),
        s.subrange(p, s.len() as int) == y,
        is_bare_name(y),
    ensures
        sp_mult(s, p) == Ok::<(ExprV, int), Seq<char>>((column(y), s.len() as int)),
        sp_addition(s, p) == Ok::<(ExprV, int), Seq<char>>((column(y), s.len() as int)),
{
    lemma_name_unary(s, p, y);
    lemma_mult_rest_at_end(s, column(y));
    lemma_mult_from(s, p, column(y), s.len() as int, column(y), s.len() as int);
    lemma_add_rest_at_end(s, column(y));
    lemma_addition_from(s, p, column(y), s.len() as int, column(y), s.len() as int);
}

/// The additive operator a character stands for.
pub open spec fn add_op(c: char) -> BinaryOp {
    if c == '+' {
        BinaryOp::Add
    } else {
        BinaryOp::Sub
    }
}

#[verifier::spinoff_prover]
proof fn lemma_add_step(s: Seq<char>, n: int, left: ExprV, c: char, y: Seq<char>)
    requires
        0 <= n,
        n + 1 + y.len() == s.len(),
        s[n] == c,
        c == '+' || c == '-',
        sp_mult(s, n + 1) == Ok::<(ExprV, int), Seq<char>>((column(y), s.len() as int)),
        sp_add_rest(s, s.len() as int, binary(left, add_op(c), column(y)))
            == Ok::<(ExprV, int), Seq<char>>((binary(left, add_op(c), column(y)), s.len() as int)),
        is_bare_name(y),
        s[n + 1] == y[0],
    ensures
        sp_add_rest(s, n, left) == Ok::<(ExprV, int), Seq<char>>((binary(left, add_op(c), column(y)), s.len() as int)),
{
    reveal_with_fuel(sp_add_rest, 1);
    assert(ws_end(s, n) == n);
    assert(ws_end(s, n + 1) == n + 1);
}

/// `x c y`, with `c` one of `+`, `-`, is an addition-level expression: their sum or difference.
#[verifier::spinoff_prover]
proof fn lemma_add_names(x: Seq<char>, c: char, y: Seq<char>)
    requires
        is_bare_name(x),
        is_bare_name(y),
        c == '+' || c == '-',
    ensures
        sp_addition(x + seq![c] + y, 0) == Ok::<(ExprV, int), Seq<char>>(
            (binary(column(x), add_op(c), column(y)), (x + seq![c] + y).len() as int)),
        !kw_at(x + seq![c] + y, 0, "NOT"@),
{
    let s = x + seq![c] + y;
    let n = x.len() as int;
    lemma_layout(x, seq![c], y);
    assert(s[n] == c);
    lemma_name_unary(s, 0, x);
    lemma_mult_rest_stop(s, n, column(x));
    lemma_mult_from(s, 0, column(x), n, column(x), n);
    assert(y[0] == s[n + 1]);
    lemma_name_addition_at_end(s, n + 1, y);
    let b = binary(column(x), add_op(c), column(y));
    lemma_add_rest_at_end(s, b);
    lemma_add_step(s, n, column(x), c, y);
    lemma_addition_from(s, 0, column(x), n, b, s.len() as int);
}

/// For bare names `x` and `y`: `x + y` and `x - y` (written without spaces) parse as the sum
/// and the difference of the two columns.
#[verifier::spinoff_prover]
pub proof fn lemma_additive_operators(x: Seq<char>, y: Seq<char>)
    requires
        is_bare_name(x),
        is_bare_name(y),
    ensures
        parse_spec(x + seq!['+'] + y) == Ok::<ExprV, Seq<char>>(binary(column(x), BinaryOp::Add, column(y))),
        parse_spec(x + seq!['-'] + y) == Ok::<ExprV, Seq<char>>(binary(column(x), BinaryOp::Sub, column(y))),
{
    lemma_add_names(x, '+', y);
    lemma_add_names(x, '-', y);
    assert((x + seq!['+'] + y)[0] == x[0]);
    assert((x + seq!['-'] + y)[0] == x[0]);
    lemma_whole_addition(x + seq!['+'] + y, binary(column(x), BinaryOp::Add, column(y)));
    lemma_whole_addition(x + seq!['-'] + y, binary(column(x), BinaryOp::Sub, column(y)));
}

/// The comparison operators as they are written, and what they mean.
pub open spec fn comparison_ops() -> Seq<(Seq<char>, BinaryOp)> {
    seq![
        (seq!['='], BinaryOp::Eq),
        (seq!['=', '='], BinaryOp::Eq),
        (seq!['!', '='], BinaryOp::Neq),
        (seq!['<', '>'], BinaryOp::Neq),
        (seq!['<'], BinaryOp::Lt),
        (seq!['>'], BinaryOp::Gt),
        (seq!['<', '='], BinaryOp::LtEq),
        (seq!['>', '='], BinaryOp::GtEq),
    ]
}

#[verifier::spinoff_prover]
proof fn lemma_comp_tail_op(s: Seq<char>, n: int, left: ExprV, op: Seq<char>, bop: BinaryOp, y: Seq<char>)
    requires
        0 <= n,
        n + op.len() + y.len() == s.len(),
        comparison_ops().contains((op, bop)),
        forall|i: int| 0 <= i < op.len() ==> s[n + i] == #[trigger] op[i],
        s[n + op.len()] == y[0],
        is_bare_name(y),
        sp_addition(s, n + op.len()) == Ok::<(ExprV, int), Seq<char>>((column(y), s.len() as int)),
    ensures
        sp_comp_tail(s, n, left) == Ok::<(ExprV, int), Seq<char>>((binary(left, bop, column(y)), s.len() as int)),
{
    reveal_with_fuel(sp_comp_tail, 1);
    let k = choose|k: int| 0 <= k < comparison_ops().len() && comparison_ops()[k] == (op, bop);
    assert(op.len() > 0 && op.len() <= 2);
    assert(s[n] == op[0]);
    assert(!is_alpha(s[n]));
    lemma_keywords_are_letters();
    lemma_not_kw_at_other(s, n, "IS"@);
    lemma_not_kw_at_other(s, n, "NOT"@);
    lemma_not_kw_at_other(s, n, "IN"@);
    lemma_not_kw_at_other(s, n, "BETWEEN"@);
    lemma_not_kw_at_other(s, n, "LIKE"@);
    if op.len() == 2 {
        assert(s[n + 1] == op[1]);
    }
    assert(comp_op(s, n) == Some((bop, n + op.len())));
    assert(ws_end(s, n + op.len()) == n + op.len());
}

/// For bare names `x` and `y` and each comparison operator `op` (`=`, `==`, `!=`, `<>`, `<`,
/// `>`, `<=`, `>=`): `x op y` (written without spaces) parses as the comparison that `op`
/// means of the two columns.
#[verifier::spinoff_prover]
pub proof fn lemma_comparison_operators(x: Seq<char>, y: Seq<char>, op: Seq<char>, bop: BinaryOp)
    requires
        is_bare_name(x),
        is_bare_name(y),
        comparison_ops().contains((op, bop)),
    ensures
        parse_spec(x + op + y) == Ok::<ExprV, Seq<char>>(binary(column(x), bop, column(y))),
{
    let s = x + op + y;
    let n = x.len() as int;
    let k = choose|k: int| 0 <= k < comparison_ops().len() && comparison_ops()[k] == (op, bop);
    assert(op.len() > 0 && op.len() <= 2);
    lemma_layout(x, op, y);
    assert(s[n] == op[0]);
    assert(s[n + op.len()] == y[0]);
    lemma_name_unary(s, 0, x);
    lemma_mult_rest_stop(s, n, column(x));
    lemma_mult_from(s, 0, column(x), n, column(x), n);
    lemma_add_rest_stop(s, n, column(x));
    lemma_addition_from(s, 0, column(x), n, column(x), n);
    lemma_name_addition_at_end(s, n + op.len(), y);
    lemma_comp_tail_op(s, n, column(x), op, bop, y);
    let b = binary(column(x), bop, column(y));
    lemma_comparison_from(s, column(x), n, b);
    assert(s[0] == x[0]);
    lemma_whole_comparison(s, b);
}

/// A bare name at `p` followed by one space and a letter is a unary expression that ends at
/// that letter: its column.
#[verifier::spinoff_prover]
proof fn lemma_name_unary_spaced(s: Seq<char>, p: int, w: Seq<char>)
    requires
        0 <= p,
        p + w.len() + 1 < s.len(),
        s.subrange(p, p + w.len()) == w,
        is_bare_name(w),
        s[p + w.len()] == ' ',
        is_alpha(s[p + w.len() + 1]),
    ensures
        sp_unary(s, p) == Ok::<(ExprV, int), Seq<char>>((column(w), p + w.len() + 1)),
        !kw_at(s, p, "NOT"@),
{
    let e = p + w.len();
    reveal_with_fuel(sp_unary, 1);
    reveal_with_fuel(sp_primary, 1);
    reveal_with_fuel(sp_word, 1);
    assert(s[p] == w[0]);
    assert(ws_end(s, p) == p);
    lemma_keywords_are_letters();
    lemma_not_kw(s, p, w, "NULL"@);
    lemma_not_kw(s, p, w, "TRUE"@);
    lemma_not_kw(s, p, w, "FALSE"@);
    lemma_not_kw(s, p, w, "CASE"@);
    lemma_not_kw(s, p, w, "CAST"@);
    lemma_not_kw(s, p, w, "NOT"@);
    assert forall|i: int| p + 1 <= i < e implies is_word(#[trigger] s[i]) by {
        assert(s[i] == w[i - p]);
    }
    lemma_word_end_run(s, p + 1, e);
    assert(ident(s, p) == Ok::<(Seq<char>, int), Seq<char>>((w, e)));
    assert(ws_end(s, e + 1) == e + 1);
    assert(ws_end(s, e) == e + 1);
}

proof fn lemma_first_letters()
    ensures
        "IS"@[0] == 'I' && "IS"@.len() > 0,
        "NOT"@[0] == 'N' && "NOT"@.len() == 3,
        "IN"@[0] == 'I' && "IN"@.len() > 0,
        "BETWEEN"@[0] == 'B' && "BETWEEN"@.len() > 0,
        "LIKE"@[0] == 'L' && "LIKE"@.len() > 0,
        "AND"@ == seq!['A', 'N', 'D'],
        "OR"@ == seq!['O', 'R'],
        "NOT"@ == seq!['N', 'O', 'T'],
{
    reveal_strlit("IS");
    reveal_strlit("NOT");
    reveal_strlit("IN");
    reveal_strlit("BETWEEN");
    reveal_strlit("LIKE");
    reveal_strlit("AND");
    reveal_strlit("OR");
    assert("AND"@ =~= seq!['A', 'N', 'D']);
    assert("OR"@ =~= seq!['O', 'R']);
    assert("NOT"@ =~= seq!['N', 'O', 'T']);
}

/// A keyword stands at `p` when its letters do, followed by no word character.
proof fn lemma_kw_present(s: Seq<char>, p: int, k: Seq<char>)
    requires
        k.len() > 0,
        0 <= p,
        p + k.len() <= s.len(),
        forall|i: int| 0 <= i < k.len() ==> s[p + i] == #[trigger] k[i],
        p + k.len() == s.len() || !is_word(s[p + k.len()]),
    ensures
        kw_at(s, p, k),
{
    assert forall|i: int| 0 <= i < k.len() implies eq_ic(#[trigger] s[p + i], k[i]) by {
        assert(s[p + i] == k[i]);
    }
}

proof fn lemma_not_kw_first(s: Seq<char>, p: int, k: Seq<char>)
    requires
        0 <= p < s.len(),
        k.len() > 0,
        !eq_ic(s[p], k[0]),
    ensures
        !kw_at(s, p, k),
{
    if kw_at(s, p, k) {
        assert(eq_ic(s[p + 0], k[0]));
    }
}

/// A comparison tail that meets a letter starting none of its keywords is empty.
#[verifier::spinoff_prover]
proof fn lemma_comp_tail_stop(s: Seq<char>, q: int, e: ExprV)
    requires
        0 <= q < s.len(),
        is_alpha(s[q]),
        !eq_ic(s[q], 'I'),
        !eq_ic(s[q], 'N'),
        !eq_ic(s[q], 'B'),
        !eq_ic(s[q], 'L'),
    ensures
        sp_comp_tail(s, q, e) == Ok::<(ExprV, int), Seq<char>>((e, q)),
{
    reveal_with_fuel(sp_comp_tail, 1);
    lemma_first_letters();
    lemma_not_kw_first(s, q, "IS"@);
    lemma_not_kw_first(s, q, "NOT"@);
    lemma_not_kw_first(s, q, "IN"@);
    lemma_not_kw_first(s, q, "BETWEEN"@);
    lemma_not_kw_first(s, q, "LIKE"@);
    assert(comp_op(s, q) is None);
}

#[verifier::spinoff_prover]
proof fn lemma_comparison_at(s: Seq<char>, p: int, first: ExprV, n: int, b: ExprV, m: int)
    requires
        0 <= p <= n <= s.len(),
        ws_end(s, n) == n,
        sp_addition(s, p) == Ok::<(ExprV, int), Seq<char>>((first, n)),
        sp_comp_tail(s, n, first) == Ok::<(ExprV, int), Seq<char>>((b, m)),
    ensures
        sp_comparison(s, p) == Ok::<(ExprV, int), Seq<char>>((b, m)),
{
    reveal_with_fuel(sp_comparison, 1);
}

#[verifier::spinoff_prover]
proof fn lemma_not_at(s: Seq<char>, p: int, e: ExprV, m: int)
    requires
        0 <= p < s.len(),
        !is_ws(s[p]),
        !kw_at(s, p, "NOT"@),
        sp_comparison(s, p) == Ok::<(ExprV, int), Seq<char>>((e, m)),
    ensures
        sp_not(s, p) == Ok::<(ExprV, int), Seq<char>>((e, m)),
{
    reveal_with_fuel(sp_not, 1);
    assert(ws_end(s, p) == p);
}

#[verifier::spinoff_prover]
proof fn lemma_and_at(s: Seq<char>, p: int, first: ExprV, n: int, b: ExprV, m: int)
    requires
        0 <= p <= n <= s.len(),
        sp_not(s, p) == Ok::<(ExprV, int), Seq<char>>((first, n)),
        sp_and_rest(s, n, first) == Ok::<(ExprV, int), Seq<char>>((b, m)),
    ensures
        sp_and(s, p) == Ok::<(ExprV, int), Seq<char>>((b, m)),
{
    reveal_with_fuel(sp_and, 1);
}

#[verifier::spinoff_prover]
proof fn lemma_or_at(s: Seq<char>, p: int, first: ExprV, n: int, b: ExprV, m: int)
    requires
        0 <= p <= n <= s.len(),
        sp_and(s, p) == Ok::<(ExprV, int), Seq<char>>((first, n)),
        sp_or_rest(s, n, first) == Ok::<(ExprV, int), Seq<char>>((b, m)),
    ensures
        sp_or(s, p) == Ok::<(ExprV, int), Seq<char>>((b, m)),
{
    reveal_with_fuel(sp_or, 1);
}

#[verifier::spinoff_prover]
proof fn lemma_and_rest_stop(s: Seq<char>, q: int, e: ExprV)
    requires
        0 <= q < s.len(),
        is_alpha(s[q]),
        !eq_ic(s[q], 'A'),
    ensures
        sp_and_rest(s, q, e) == Ok::<(ExprV, int), Seq<char>>((e, q)),
{
    reveal_with_fuel(sp_and_rest, 1);
    assert(ws_end(s, q) == q);
    lemma_first_letters();
    lemma_not_kw_first(s, q, "AND"@);
}

/// A bare name that runs to the end of the text from `p` is a `NOT`-level and an `AND`-level
/// expression there.
#[verifier::spinoff_prover]
proof fn lemma_name_and_at_end(s: Seq<char>, p: int, y: Seq<char>)
    requires
        0 <= p,
        p + y.len() == s.len(),
        s.subrange(p, s.len() as int) == y,
        is_bare_name(y),
    ensures
        sp_comparison(s, p) == Ok::<(ExprV, int), Seq<char>>((column(y), s.len() as int)),
        sp_not(s, p) == Ok::<(ExprV, int), Seq<char>>((column(y), s.len() as int)),
        sp_and(s, p) == Ok::<(ExprV, int), Seq<char>>((column(y), s.len() as int)),
{
    lemma_name_addition_at_end(s, p, y);
    lemma_name_unary(s, p, y);
    lemma_comparison_to_end(s, p, column(y));
    assert(s[p] == y[0]);
    lemma_not_at(s, p, column(y), s.len() as int);
    lemma_and_rest_at_end(s, column(y));
    lemma_and_at(s, p, column(y), s.len() as int, column(y), s.len() as int);
}

/// `x` and one space: up to the comparison level it is the column of `x`, ending at the
/// letter after the space.
#[verifier::spinoff_prover]
proof fn lemma_name_then_word(s: Seq<char>, x: Seq<char>)
    requires
        is_bare_name(x),
        x.len() + 1 < s.len(),
        s.subrange(0, x.len() as int) == x,
        s[x.len() as int] == ' ',
        is_alpha(s[(x.len() + 1) as int]),
        !eq_ic(s[(x.len() + 1) as int], 'I'),
        !eq_ic(s[(x.len() + 1) as int], 'N'),
        !eq_ic(s[(x.len() + 1) as int], 'B'),
        !eq_ic(s[(x.len() + 1) as int], 'L'),
    ensures
        sp_not(s, 0) == Ok::<(ExprV, int), Seq<char>>((column(x), (x.len() + 1) as int)),
{
    let n = x.len() as int;
    lemma_name_unary_spaced(s, 0, x);
    lemma_mult_rest_stop(s, n + 1, column(x));
    lemma_mult_from(s, 0, column(x), n + 1, column(x), n + 1);
    lemma_add_rest_stop(s, n + 1, column(x));
    lemma_addition_from(s, 0, column(x), n + 1, column(x), n + 1);
    lemma_comp_tail_stop(s, n + 1, column(x));
    assert(ws_end(s, n + 1) == n + 1);
    lemma_comparison_at(s, 0, column(x), n + 1, column(x), n + 1);
    assert(s[0] == x[0]);
    lemma_not_at(s, 0, column(x), n + 1);
}

#[verifier::spinoff_prover]
proof fn lemma_and_step(s: Seq<char>, q: int, left: ExprV, y: Seq<char>)
    requires
        0 <= q,
        q + 4 + y.len() == s.len(),
        s[q] == 'A' && s[q + 1] == 'N' && s[q + 2] == 'D' && s[q + 3] == ' ',
        is_bare_name(y),
        s[q + 4] == y[0],
        sp_not(s, q + 4) == Ok::<(ExprV, int), Seq<char>>((column(y), s.len() as int)),
        sp_and_rest(s, s.len() as int, binary(left, BinaryOp::And, column(y)))
            == Ok::<(ExprV, int), Seq<char>>((binary(left, BinaryOp::And, column(y)), s.len() as int)),
    ensures
        sp_and_rest(s, q, left) == Ok::<(ExprV, int), Seq<char>>((binary(left, BinaryOp::And, column(y)), s.len() as int)),
{
    reveal_with_fuel(sp_and_rest, 1);
    lemma_first_letters();
    assert(ws_end(s, q) == q);
    lemma_kw_present(s, q, "AND"@);
    assert(ws_end(s, q + 4) == q + 4);
    assert(ws_end(s, q + 3) == q + 4);
}

#[verifier::spinoff_prover]
proof fn lemma_or_step(s: Seq<char>, q: int, left: ExprV, y: Seq<char>)
    requires
        0 <= q,
        q + 3 + y.len() == s.len(),
        s[q] == 'O' && s[q + 1] == 'R' && s[q + 2] == ' ',
        is_bare_name(y),
        s[q + 3] == y[0],
        sp_and(s, q + 3) == Ok::<(ExprV, int), Seq<char>>((column(y), s.len() as int)),
        sp_or_rest(s, s.len() as int, binary(left, BinaryOp::Or, column(y)))
            == Ok::<(ExprV, int), Seq<char>>((binary(left, BinaryOp::Or, column(y)), s.len() as int)),
    ensures
        sp_or_rest(s, q, left) == Ok::<(ExprV, int), Seq<char>>((binary(left, BinaryOp::Or, column(y)), s.len() as int)),
{
    reveal_with_fuel(sp_or_rest, 1);
    lemma_first_letters();
    assert(ws_end(s, q) == q);
    lemma_kw_present(s, q, "OR"@);
    assert(ws_end(s, q + 3) == q + 3);
    assert(ws_end(s, q + 2) == q + 3);
}

/// For bare names `x` and `y`: `x AND y` and `x OR y` parse as the conjunction and the
/// disjunction of the two columns.
#[verifier::spinoff_prover]
pub proof fn lemma_logical_operators(x: Seq<char>, y: Seq<char>)
    requires
        is_bare_name(x),
        is_bare_name(y),
    ensures
        parse_spec(x + seq![' ', 'A', 'N', 'D', ' '] + y)
            == Ok::<ExprV, Seq<char>>(binary(column(x), BinaryOp::And, column(y))),
        parse_spec(x + seq![' ', 'O', 'R', ' '] + y)
            == Ok::<ExprV, Seq<char>>(binary(column(x), BinaryOp::Or, column(y))),
{
    let n = x.len() as int;
    let sa = x + seq![' ', 'A', 'N', 'D', ' '] + y;
    lemma_layout(x, seq![' ', 'A', 'N', 'D', ' '], y);
    assert(sa[n] == ' ' && sa[n + 1] == 'A' && sa[n + 2] == 'N' && sa[n + 3] == 'D' && sa[n + 4] == ' ');
    assert(sa[n + 5] == y[0]);
    lemma_name_then_word(sa, x);
    lemma_name_and_at_end(sa, n + 5, y);
    let ba = binary(column(x), BinaryOp::And, column(y));
    lemma_and_rest_at_end(sa, ba);
    lemma_and_step(sa, n + 1, column(x), y);
    lemma_and_at(sa, 0, column(x), n + 1, ba, sa.len() as int);
    lemma_or_to_end(sa, ba);
    lemma_expression_to_end(sa, ba);

    let so = x + seq![' ', 'O', 'R', ' '] + y;
    lemma_layout(x, seq![' ', 'O', 'R', ' '], y);
    assert(so[n] == ' ' && so[n + 1] == 'O' && so[n + 2] == 'R' && so[n + 3] == ' ');
    assert(so[n + 4] == y[0]);
    lemma_name_then_word(so, x);
    lemma_and_rest_stop(so, n + 1, column(x));
    lemma_and_at(so, 0, column(x), n + 1, column(x), n + 1);
    lemma_name_and_at_end(so, n + 4, y);
    let bo = binary(column(x), BinaryOp::Or, column(y));
    lemma_or_rest_at_end(so, bo);
    lemma_or_step(so, n + 1, column(x), y);
    lemma_or_at(so, 0, column(x), n + 1, bo, so.len() as int);
    lemma_expression_to_end(so, bo);
}

#[verifier::spinoff_prover]
proof fn lemma_not_step(s: Seq<char>, x: Seq<char>)
    requires
        s.len() == 4 + x.len(),
        s[0] == 'N' && s[1] == 'O' && s[2] == 'T' && s[3] == ' ',
        is_bare_name(x),
        s[4] == x[0],
        sp_comparison(s, 4) == Ok::<(ExprV, int), Seq<char>>((column(x), s.len() as int)),
    ensures
        sp_not(s, 0) == Ok::<(ExprV, int), Seq<char>>(
            (ExprV::Un { op: UnaryOp::Not, expr: Box::new(column(x)) }, s.len() as int)),
{
    reveal_with_fuel(sp_not, 1);
    lemma_first_letters();
    assert(ws_end(s, 0) == 0);
    lemma_kw_present(s, 0, "NOT"@);
    assert(ws_end(s, 4) == 4);
    assert(ws_end(s, 3) == 4);
}

#[verifier::spinoff_prover]
proof fn lemma_neg_step(s: Seq<char>, x: Seq<char>)
    requires
        s.len() == 1 + x.len(),
        s[0] == '-',
        is_bare_name(x),
        s[1] == x[0],
        sp_primary(s, 1) == Ok::<(ExprV, int), Seq<char>>((column(x), s.len() as int)),
    ensures
        sp_unary(s, 0) == Ok::<(ExprV, int), Seq<char>>(
            (ExprV::Un { op: UnaryOp::Neg, expr: Box::new(column(x)) }, s.len() as int)),
{
    reveal_with_fuel(sp_unary, 1);
    assert(ws_end(s, 0) == 0);
    assert(ws_end(s, 1) == 1);
}

/// For a bare name `x`: `NOT x` parses as the negation of the column, and `-x` as its
/// arithmetic negation.
#[verifier::spinoff_prover]
pub proof fn lemma_unary_operators(x: Seq<char>)
    requires
        is_bare_name(x),
    ensures
        parse_spec(seq!['N', 'O', 'T', ' '] + x)
            == Ok::<ExprV, Seq<char>>(ExprV::Un { op: UnaryOp::Not, expr: Box::new(column(x)) }),
        parse_spec(seq!['-'] + x)
            == Ok::<ExprV, Seq<char>>(ExprV::Un { op: UnaryOp::Neg, expr: Box::new(column(x)) }),
{
    let sn = seq!['N', 'O', 'T', ' '] + x;
    assert(sn.subrange(4, sn.len() as int) =~= x);
    assert(sn[4] == x[0]);
    lemma_name_and_at_end(sn, 4, x);
    lemma_not_step(sn, x);
    let un = ExprV::Un { op: UnaryOp::Not, expr: Box::new(column(x)) };
    lemma_and_rest_at_end(sn, un);
    lemma_and_at(sn, 0, un, sn.len() as int, un, sn.len() as int);
    lemma_or_to_end(sn, un);
    lemma_expression_to_end(sn, un);

    let sm = seq!['-'] + x;
    assert(sm.subrange(1, sm.len() as int) =~= x);
    assert(sm[1] == x[0]);
    lemma_name_unary(sm, 1, x);
    lemma_neg_step(sm, x);
    let ng = ExprV::Un { op: UnaryOp::Neg, expr: Box::new(column(x)) };
    lemma_mult_rest_at_end(sm, ng);
    lemma_mult_from(sm, 0, ng, sm.len() as int, ng, sm.len() as int);
    lemma_add_rest_at_end(sm, ng);
    lemma_addition_from(sm, 0, ng, sm.len() as int, ng, sm.len() as int);
    lemma_keywords_are_letters();
    lemma_not_kw_at_other(sm, 0, "NOT"@);
    lemma_whole_addition(sm, ng);
}

proof fn lemma_keyword_letters()
    ensures
        "IS"@ == seq!['I', 'S'],
        "NOT"@ == seq!['N', 'O', 'T'],
        "NULL"@ == seq!['N', 'U', 'L', 'L'],
        "LIKE"@ == seq!['L', 'I', 'K', 'E'],
        "BETWEEN"@ == seq!['B', 'E', 'T', 'W', 'E', 'E', 'N'],
        "AND"@ == seq!['A', 'N', 'D'],
        "IN"@ == seq!['I', 'N'],
{
    reveal_strlit("IS");
    reveal_strlit("NOT");
    reveal_strlit("NULL");
    reveal_strlit("LIKE");
    reveal_strlit("BETWEEN");
    reveal_strlit("AND");
    reveal_strlit("IN");
    assert("IS"@ =~= seq!['I', 'S']);
    assert("NOT"@ =~= seq!['N', 'O', 'T']);
    assert("NULL"@ =~= seq!['N', 'U', 'L', 'L']);
    assert("LIKE"@ =~= seq!['L', 'I', 'K', 'E']);
    assert("BETWEEN"@ =~= seq!['B', 'E', 'T', 'W', 'E', 'E', 'N']);
    assert("AND"@ =~= seq!['A', 'N', 'D']);
    assert("IN"@ =~= seq!['I', 'N']);
}

proof fn lemma_not_kw_index(s: Seq<char>, p: int, k: Seq<char>, j: int)
    requires
        0 <= p,
        0 <= j < k.len(),
        p + j < s.len(),
        !eq_ic(s[p + j], k[j]),
    ensures
        !kw_at(s, p, k),
{
    if kw_at(s, p, k) {
        assert(eq_ic(s[p + j], k[j]));
    }
}

/// A bare name at `p`, then one space and a letter: up to the addition level it is the column
/// of the name, ending at that letter.
#[verifier::spinoff_prover]
proof fn lemma_name_spaced_addition(s: Seq<char>, p: int, w: Seq<char>)
    requires
        0 <= p,
        p + w.len() + 1 < s.len(),
        s.subrange(p, p + w.len()) == w,
        is_bare_name(w),
        s[p + w.len()] == ' ',
        is_alpha(s[p + w.len() + 1]),
    ensures
        sp_addition(s, p) == Ok::<(ExprV, int), Seq<char>>((column(w), p + w.len() + 1)),
        !kw_at(s, p, "NOT"@),
        !is_ws(s[p]),
{
    let e = p + w.len() + 1;
    lemma_name_unary_spaced(s, p, w);
    lemma_mult_rest_stop(s, e, column(w));
    lemma_mult_from(s, p, column(w), e, column(w), e);
    lemma_add_rest_stop(s, e, column(w));
    lemma_addition_from(s, p, column(w), e, column(w), e);
    assert(s[p] == w[0]);
}

/// The text `x`, then `lit`, then `y`, laid out.
proof fn lemma_layout3(x: Seq<char>, lit: Seq<char>, y: Seq<char>, lit2: Seq<char>, z: Seq<char>)
    ensures
        ({
            let s = x + lit + y + lit2 + z;
            let a = x.len() + lit.len();
            let b = a + y.len() + lit2.len();
            &&& s.len() == b + z.len()
            &&& s.subrange(0, x.len() as int) == x
            &&& s.subrange(a as int, (a + y.len()) as int) == y
            &&& s.subrange(b as int, s.len() as int) == z
            &&& forall|i: int| 0 <= i < lit.len() ==> s[x.len() + i] == #[trigger] lit[i]
            &&& forall|i: int| 0 <= i < lit2.len() ==> s[a + y.len() + i] == #[trigger] lit2[i]
        }),
{
    let s = x + lit + y + lit2 + z;
    let a = x.len() + lit.len();
    let b = a + y.len() + lit2.len();
    assert(s.subrange(0, x.len() as int) =~= x);
    assert(s.subrange(a as int, (a + y.len()) as int) =~= y);
    assert(s.subrange(b as int, s.len() as int) =~= z);
}

#[verifier::spinoff_prover]
proof fn lemma_is_null_tail(s: Seq<char>, q: int, left: ExprV, neg: bool)
    requires
        0 <= q,
        neg ==> (q + 11 == s.len() && s.subrange(q, s.len() as int) == seq!['I', 'S', ' ', 'N', 'O', 'T', ' ', 'N', 'U', 'L', 'L']),
        !neg ==> (q + 7 == s.len() && s.subrange(q, s.len() as int) == seq!['I', 'S', ' ', 'N', 'U', 'L', 'L']),
    ensures
        sp_comp_tail(s, q, left) == Ok::<(ExprV, int), Seq<char>>(
            (ExprV::IsNull { expr: Box::new(left), negated: neg }, s.len() as int)),
{
    reveal_with_fuel(sp_comp_tail, 1);
    lemma_keyword_letters();
    let t = s.subrange(q, s.len() as int);
    assert forall|i: int| 0 <= i < t.len() implies s[q + i] == #[trigger] t[i] by {}
    lemma_kw_present(s, q, "IS"@);
    assert(ws_end(s, q + 3) == q + 3);
    assert(ws_end(s, q + 2) == q + 3);
    if neg {
        lemma_kw_present(s, q + 3, "NOT"@);
        assert(ws_end(s, q + 7) == q + 7);
        assert(ws_end(s, q + 6) == q + 7);
        lemma_kw_present(s, q + 7, "NULL"@);
    } else {
        lemma_not_kw_index(s, q + 3, "NOT"@, 1);
        lemma_kw_present(s, q + 3, "NULL"@);
    }
}

/// For bare names `x`: `x IS NULL` and `x IS NOT NULL` parse as the null test of the column,
/// not negated and negated.
#[verifier::spinoff_prover]
pub proof fn lemma_null_tests(x: Seq<char>)
    requires
        is_bare_name(x),
    ensures
        parse_spec(x + seq![' ', 'I', 'S', ' ', 'N', 'U', 'L', 'L'])
            == Ok::<ExprV, Seq<char>>(ExprV::IsNull { expr: Box::new(column(x)), negated: false }),
        parse_spec(x + seq![' ', 'I', 'S', ' ', 'N', 'O', 'T', ' ', 'N', 'U', 'L', 'L'])
            == Ok::<ExprV, Seq<char>>(ExprV::IsNull { expr: Box::new(column(x)), negated: true }),
{
    let n = x.len() as int;
    let t1 = seq![' ', 'I', 'S', ' ', 'N', 'U', 'L', 'L'];
    let s1 = x + t1;
    assert(s1.subrange(0, n) =~= x);
    assert(s1.subrange(n + 1, s1.len() as int) =~= seq!['I', 'S', ' ', 'N', 'U', 'L', 'L']);
    assert(s1[n] == ' ' && s1[n + 1] == 'I');
    lemma_name_spaced_addition(s1, 0, x);
    lemma_is_null_tail(s1, n + 1, column(x), false);
    let b1 = ExprV::IsNull { expr: Box::new(column(x)), negated: false };
    assert(ws_end(s1, n + 1) == n + 1);
    lemma_comparison_at(s1, 0, column(x), n + 1, b1, s1.len() as int);
    lemma_whole_comparison(s1, b1);

    let t2 = seq![' ', 'I', 'S', ' ', 'N', 'O', 'T', ' ', 'N', 'U', 'L', 'L'];
    let s2 = x + t2;
    assert(s2.subrange(0, n) =~= x);
    assert(s2.subrange(n + 1, s2.len() as int) =~= seq!['I', 'S', ' ', 'N', 'O', 'T', ' ', 'N', 'U', 'L', 'L']);
    assert(s2[n] == ' ' && s2[n + 1] == 'I');
    lemma_name_spaced_addition(s2, 0, x);
    lemma_is_null_tail(s2, n + 1, column(x), true);
    let b2 = ExprV::IsNull { expr: Box::new(column(x)), negated: true };
    assert(ws_end(s2, n + 1) == n + 1);
    lemma_comparison_at(s2, 0, column(x), n + 1, b2, s2.len() as int);
    lemma_whole_comparison(s2, b2);
}

/// `BETWEEN` and the space after it.
pub open spec fn between_kw() -> Seq<char> {
    seq!['B', 'E', 'T', 'W', 'E', 'E', 'N', ' ']
}

/// `AND` between spaces.
pub open spec fn and_sep() -> Seq<char> {
    seq![' ', 'A', 'N', 'D', ' ']
}

/// `LIKE` or `NOT LIKE`, and the space after it.
pub open spec fn like_kw(neg: bool) -> Seq<char> {
    if neg {
        seq!['N', 'O', 'T', ' ', 'L', 'I', 'K', 'E', ' ']
    } else {
        seq!['L', 'I', 'K', 'E', ' ']
    }
}

#[verifier::spinoff_prover]
proof fn lemma_like_tail(s: Seq<char>, q: int, left: ExprV, neg: bool, y: Seq<char>)
    requires
        0 <= q,
        ({
            let kw = like_kw(neg);
            &&& q + kw.len() + y.len() == s.len()
            &&& forall|i: int| 0 <= i < kw.len() ==> s[q + i] == #[trigger] kw[i]
            &&& s.subrange(q + kw.len(), s.len() as int) == y
        }),
        is_bare_name(y),
    ensures
        sp_comp_tail(s, q, left) == Ok::<(ExprV, int), Seq<char>>(
            (ExprV::Like { expr: Box::new(left), pattern: Box::new(column(y)), negated: neg }, s.len() as int)),
{
    reveal_with_fuel(sp_comp_tail, 1);
    lemma_keyword_letters();
    let kw = like_kw(neg);
    let r = if neg { q + 4 } else { q };
    assert(s[q] == kw[0]);
    lemma_not_kw_index(s, q, "IS"@, 0);
    if neg {
        assert(s[q + 1] == kw[1] && s[q + 2] == kw[2] && s[q + 3] == kw[3]);
        lemma_kw_present(s, q, "NOT"@);
        assert(s[q + 4] == kw[4]);
        assert(ws_end(s, q + 4) == q + 4);
        assert(ws_end(s, q + 3) == q + 4);
    } else {
        lemma_not_kw_index(s, q, "NOT"@, 0);
    }
    assert(s[r] == 'L' && s[r + 1] == 'I' && s[r + 2] == 'K' && s[r + 3] == 'E' && s[r + 4] == ' ') by {
        if neg {
            assert(s[q + 4] == kw[4] && s[q + 5] == kw[5] && s[q + 6] == kw[6] && s[q + 7] == kw[7] && s[q + 8] == kw[8]);
        } else {
            assert(s[q] == kw[0] && s[q + 1] == kw[1] && s[q + 2] == kw[2] && s[q + 3] == kw[3] && s[q + 4] == kw[4]);
        }
    }
    lemma_not_kw_index(s, r, "IN"@, 0);
    lemma_not_kw_index(s, r, "BETWEEN"@, 0);
    lemma_kw_present(s, r, "LIKE"@);
    assert(s[r + 5] == y[0]);
    assert(ws_end(s, r + 5) == r + 5);
    assert(ws_end(s, r + 4) == r + 5);
    lemma_name_unary(s, r + 5, y);
}

/// For bare names `x` and `y`: `x LIKE y` and `x NOT LIKE y` parse as the pattern match of the
/// column `x` against `y`, not negated and negated.
#[verifier::spinoff_prover]
pub proof fn lemma_pattern_matches(x: Seq<char>, y: Seq<char>)
    requires
        is_bare_name(x),
        is_bare_name(y),
    ensures
        parse_spec(x + seq![' ', 'L', 'I', 'K', 'E', ' '] + y) == Ok::<ExprV, Seq<char>>(
            ExprV::Like { expr: Box::new(column(x)), pattern: Box::new(column(y)), negated: false }),
        parse_spec(x + seq![' ', 'N', 'O', 'T', ' ', 'L', 'I', 'K', 'E', ' '] + y) == Ok::<ExprV, Seq<char>>(
            ExprV::Like { expr: Box::new(column(x)), pattern: Box::new(column(y)), negated: true }),
{
    lemma_like_case(x, y, false);
    lemma_like_case(x, y, true);
}

#[verifier::spinoff_prover]
proof fn lemma_like_case(x: Seq<char>, y: Seq<char>, neg: bool)
    requires
        is_bare_name(x),
        is_bare_name(y),
    ensures
        ({
            let lit = if neg { seq![' ', 'N', 'O', 'T', ' ', 'L', 'I', 'K', 'E', ' '] } else { seq![' ', 'L', 'I', 'K', 'E', ' '] };
            parse_spec(x + lit + y) == Ok::<ExprV, Seq<char>>(
                ExprV::Like { expr: Box::new(column(x)), pattern: Box::new(column(y)), negated: neg })
        }),
{
    let lit = if neg { seq![' ', 'N', 'O', 'T', ' ', 'L', 'I', 'K', 'E', ' '] } else { seq![' ', 'L', 'I', 'K', 'E', ' '] };
    let kw = like_kw(neg);
    let s = x + lit + y;
    let n = x.len() as int;
    lemma_layout(x, lit, y);
    assert forall|i: int| 0 <= i < kw.len() implies s[n + 1 + i] == #[trigger] kw[i] by {
        assert(kw[i] == lit[i + 1]);
        assert(s[n + (i + 1)] == lit[i + 1]);
    }
    assert(s[n] == lit[0]);
    assert(s[n + 1] == kw[0]);
    assert(s.subrange(n + 1 + kw.len(), s.len() as int) == y);
    lemma_name_spaced_addition(s, 0, x);
    lemma_like_tail(s, n + 1, column(x), neg, y);
    let b = ExprV::Like { expr: Box::new(column(x)), pattern: Box::new(column(y)), negated: neg };
    assert(ws_end(s, n + 1) == n + 1);
    lemma_comparison_at(s, 0, column(x), n + 1, b, s.len() as int);
    lemma_whole_comparison(s, b);
}

#[verifier::spinoff_prover]
proof fn lemma_between_body(s: Seq<char>, r: int, left: ExprV, neg: bool, y: Seq<char>, z: Seq<char>)
    requires
        0 <= r,
        r + 8 + y.len() + 5 + z.len() == s.len(),
        forall|i: int| 0 <= i < 8 ==> s[r + i] == #[trigger] between_kw()[i],
        s.subrange(r + 8, r + 8 + y.len()) == y,
        forall|i: int| 0 <= i < 5 ==> s[r + 8 + y.len() + i] == #[trigger] and_sep()[i],
        s.subrange(r + 8 + y.len() + 5, s.len() as int) == z,
        is_bare_name(y),
        is_bare_name(z),
    ensures
        sp_between(s, r, left, neg) == Ok::<(ExprV, int), Seq<char>>((ExprV::Between {
            expr: Box::new(left),
            low: Box::new(column(y)),
            high: Box::new(column(z)),
            negated: neg,
        }, s.len() as int)),
{
    reveal_with_fuel(sp_between, 1);
    lemma_keyword_letters();
    let t = r + 8;
    let m = t + y.len();
    assert(s[r] == 'B' && s[r + 1] == 'E' && s[r + 2] == 'T' && s[r + 3] == 'W' && s[r + 4] == 'E'
        && s[r + 5] == 'E' && s[r + 6] == 'N' && s[r + 7] == ' ') by {
        assert(s[r + 0] == between_kw()[0]);
        assert(s[r + 1] == between_kw()[1]);
        assert(s[r + 2] == between_kw()[2]);
        assert(s[r + 3] == between_kw()[3]);
        assert(s[r + 4] == between_kw()[4]);
        assert(s[r + 5] == between_kw()[5]);
        assert(s[r + 6] == between_kw()[6]);
        assert(s[r + 7] == between_kw()[7]);
    }
    assert(s[m] == ' ' && s[m + 1] == 'A' && s[m + 2] == 'N' && s[m + 3] == 'D' && s[m + 4] == ' ') by {
        assert(s[m + 0] == and_sep()[0]);
        assert(s[m + 1] == and_sep()[1]);
        assert(s[m + 2] == and_sep()[2]);
        assert(s[m + 3] == and_sep()[3]);
        assert(s[m + 4] == and_sep()[4]);
    }
    lemma_kw_present(s, r, "BETWEEN"@);
    assert(s[t] == y[0]);
    assert(ws_end(s, t) == t);
    assert(ws_end(s, r + 7) == t);
    lemma_name_spaced_addition(s, t, y);
    assert(ws_end(s, m + 1) == m + 1);
    lemma_kw_present(s, m + 1, "AND"@);
    assert(s[m + 5] == z[0]);
    assert(ws_end(s, m + 5) == m + 5);
    assert(ws_end(s, m + 4) == m + 5);
    lemma_name_addition_at_end(s, m + 5, z);
}

#[verifier::spinoff_prover]
proof fn lemma_between_tail(s: Seq<char>, q: int, left: ExprV, neg: bool, b: ExprV)
    requires
        0 <= q,
        neg ==> (q + 4 < s.len() && s[q] == 'N' && s[q + 1] == 'O' && s[q + 2] == 'T' && s[q + 3] == ' '),
        ({
            let r = if neg { q + 4 } else { q };
            &&& r + 7 < s.len()
            &&& s[r] == 'B' && s[r + 1] == 'E' && s[r + 2] == 'T' && s[r + 3] == 'W' && s[r + 4] == 'E'
                && s[r + 5] == 'E' && s[r + 6] == 'N' && s[r + 7] == ' '
            &&& sp_between(s, r, left, neg) == Ok::<(ExprV, int), Seq<char>>((b, s.len() as int))
        }),
    ensures
        sp_comp_tail(s, q, left) == Ok::<(ExprV, int), Seq<char>>((b, s.len() as int)),
{
    reveal_with_fuel(sp_comp_tail, 1);
    lemma_keyword_letters();
    let r = if neg { q + 4 } else { q };
    lemma_not_kw_index(s, q, "IS"@, 0);
    if neg {
        lemma_kw_present(s, q, "NOT"@);
        assert(ws_end(s, q + 4) == q + 4);
        assert(ws_end(s, q + 3) == q + 4);
    } else {
        lemma_not_kw_index(s, q, "NOT"@, 0);
    }
    lemma_not_kw_index(s, r, "IN"@, 0);
    lemma_kw_present(s, r, "BETWEEN"@);
}

#[verifier::spinoff_prover]
proof fn lemma_between_case(x: Seq<char>, y: Seq<char>, z: Seq<char>, neg: bool)
    requires
        is_bare_name(x),
        is_bare_name(y),
        is_bare_name(z),
    ensures
        ({
            let lit = if neg { seq![' ', 'N', 'O', 'T', ' ', 'B', 'E', 'T', 'W', 'E', 'E', 'N', ' '] }
                else { seq![' ', 'B', 'E', 'T', 'W', 'E', 'E', 'N', ' '] };
            parse_spec(x + lit + y + seq![' ', 'A', 'N', 'D', ' '] + z) == Ok::<ExprV, Seq<char>>(ExprV::Between {
                expr: Box::new(column(x)),
                low: Box::new(column(y)),
                high: Box::new(column(z)),
                negated: neg,
            })
        }),
{
    let lit = if neg { seq![' ', 'N', 'O', 'T', ' ', 'B', 'E', 'T', 'W', 'E', 'E', 'N', ' '] }
        else { seq![' ', 'B', 'E', 'T', 'W', 'E', 'E', 'N', ' '] };
    let and_lit = seq![' ', 'A', 'N', 'D', ' '];
    let s = x + lit + y + and_lit + z;
    let n = x.len() as int;
    let q = n + 1;
    let r = if neg { q + 4 } else { q };
    lemma_layout3(x, lit, y, and_lit, z);
    assert(r + 8 == n + lit.len());
    assert forall|i: int| 0 <= i < 8 implies s[r + i] == #[trigger] between_kw()[i] by {
        let j = r + i - n;
        assert(s[n + j] == lit[j]);
    }
    assert forall|i: int| 0 <= i < 5 implies s[r + 8 + y.len() + i] == #[trigger] and_sep()[i] by {
        assert(s[(n + lit.len()) + y.len() + i] == and_lit[i]);
    }
    let b = ExprV::Between { expr: Box::new(column(x)), low: Box::new(column(y)), high: Box::new(column(z)), negated: neg };
    lemma_between_body(s, r, column(x), neg, y, z);
    assert(s[n] == lit[0]);
    assert(s[n + 1] == lit[1]);
    if neg {
        assert(s[n + 2] == lit[2] && s[n + 3] == lit[3] && s[n + 4] == lit[4]);
    }
    assert(s[r + 0] == between_kw()[0]);
    assert(s[r + 1] == between_kw()[1]);
    assert(s[r + 2] == between_kw()[2]);
    assert(s[r + 3] == between_kw()[3]);
    assert(s[r + 4] == between_kw()[4]);
    assert(s[r + 5] == between_kw()[5]);
    assert(s[r + 6] == between_kw()[6]);
    assert(s[r + 7] == between_kw()[7]);
    lemma_between_tail(s, q, column(x), neg, b);
    lemma_name_spaced_addition(s, 0, x);
    assert(ws_end(s, q) == q);
    lemma_comparison_at(s, 0, column(x), q, b, s.len() as int);
    lemma_whole_comparison(s, b);
}

/// For bare names `x`, `y`, `z`: `x BETWEEN y AND z` and `x NOT BETWEEN y AND z` parse as the
/// range test of the column `x` with low bound `y` and high bound `z`, not negated and negated.
#[verifier::spinoff_prover]
pub proof fn lemma_range_tests(x: Seq<char>, y: Seq<char>, z: Seq<char>)
    requires
        is_bare_name(x),
        is_bare_name(y),
        is_bare_name(z),
    ensures
        parse_spec(x + seq![' ', 'B', 'E', 'T', 'W', 'E', 'E', 'N', ' '] + y + seq![' ', 'A', 'N', 'D', ' '] + z)
            == Ok::<ExprV, Seq<char>>(ExprV::Between {
                expr: Box::new(column(x)),
                low: Box::new(column(y)),
                high: Box::new(column(z)),
                negated: false,
            }),
        parse_spec(x + seq![' ', 'N', 'O', 'T', ' ', 'B', 'E', 'T', 'W', 'E', 'E', 'N', ' '] + y + seq![' ', 'A', 'N', 'D', ' '] + z)
            == Ok::<ExprV, Seq<char>>(ExprV::Between {
                expr: Box::new(column(x)),
                low: Box::new(column(y)),
                high: Box::new(column(z)),
                negated: true,
            }),
{
    lemma_between_case(x, y, z, false);
    lemma_between_case(x, y, z, true);
}

} // verus!
