//! Recursive-descent parser of the expression language, proved to follow the grammar rules.
use vstd::prelude::*;
use crate::expr::{
    BinaryOp, Expr, ExprV, Literal, LiteralV, UnaryOp, expr_view, exprs_view, pairs_view,
    lemma_exprs_view_push, lemma_pairs_view_push,
};
use crate::expr_grammar::{
    backtick, byte_offset, message_at, utf8_width, comp_op, digit_end, digits_value, eq_ic, expect, ident, is_alpha, is_digit,
    is_unicode_ws, is_word, is_ws, kw_at, lemma_str_body, num_lit, parse_spec, sp_add_rest,
    sp_addition, sp_and, sp_and_rest, sp_case, sp_between, sp_cast, sp_comp_tail, sp_comparison, sp_in, sp_expression, sp_list,
    sp_list_rest, sp_mult, sp_mult_rest, sp_not, sp_or, sp_or_rest, sp_paren, sp_primary,
    sp_unary, sp_whens, sp_word, str_body, str_lit, tick_end, trim_end, trim_start, type_end,
    type_text, word_end, ws_end,
};
use crate::text::{chars_of, decimal, decimal_text, push_char, push_str, string_of_range};

verus! {

/// The parse result `r` agrees with the rule result `spec` for a start at `p` in a text of length `n`.
pub open spec fn agrees(r: Result<(Expr, usize), String>, spec: Result<(ExprV, int), Seq<char>>, p: int, n: int) -> bool {
    match r {
        Ok((e, q)) => spec == Ok::<(ExprV, int), Seq<char>>((expr_view(e), q as int)) && p <= q <= n,
        Err(m) => spec == Err::<(ExprV, int), Seq<char>>(m@),
    }
}

/// The list result `r` agrees with the rule result `spec`.
pub open spec fn agrees_list(
    r: Result<(Vec<Expr>, usize), String>,
    spec: Result<(Seq<ExprV>, int), Seq<char>>,
    p: int,
    n: int,
) -> bool {
    match r {
        Ok((v, q)) => spec == Ok::<(Seq<ExprV>, int), Seq<char>>((exprs_view(v@), q as int)) && p <= q <= n,
        Err(m) => spec == Err::<(Seq<ExprV>, int), Seq<char>>(m@),
    }
}

// ── Characters and positions ─────────────────────────────────────

fn c_is_ws(c: char) -> (r: bool)
    ensures
        r == is_ws(c),
{
    c == ' ' || c == '\t' || c == '\n' || c == '\x0C' || c == '\r'
}

fn c_is_digit(c: char) -> (r: bool)
    ensures
        r == is_digit(c),
{
    '0' <= c && c <= '9'
}

fn c_is_alpha(c: char) -> (r: bool)
    ensures
        r == is_alpha(c),
{
    ('a' <= c && c <= 'z') || ('A' <= c && c <= 'Z')
}

fn c_is_word(c: char) -> (r: bool)
    ensures
        r == is_word(c),
{
    c_is_alpha(c) || c_is_digit(c) || c == '_'
}

fn c_eq_ic(a: char, b: char) -> (r: bool)
    ensures
        r == eq_ic(a, b),
{
    a == b || (c_is_alpha(a) && c_is_alpha(b) && ((a as u32) == (b as u32) + 32 || (a as u32) + 32 == (b as u32)))
}

fn c_is_unicode_ws(c: char) -> (r: bool)
    ensures
        r == is_unicode_ws(c),
{
    let u = c as u32;
    (0x9 <= u && u <= 0xD) || u == 0x20 || u == 0x85 || u == 0xA0 || u == 0x1680 || (0x2000 <= u
        && u <= 0x200A) || u == 0x2028 || u == 0x2029 || u == 0x202F || u == 0x205F || u == 0x3000
}

fn ws_skip(s: &Vec<char>, p: usize) -> (r: usize)
    requires
        p <= s@.len(),
    ensures
        r as int == ws_end(s@, p as int),
        p <= r <= s@.len(),
{
    let mut i = p;
    while i < s.len() && c_is_ws(s[i])
        invariant
            p <= i <= s@.len(),
            ws_end(s@, i as int) == ws_end(s@, p as int),
        decreases s@.len() - i,
    {
        i = i + 1;
    }
    i
}

fn word_scan(s: &Vec<char>, p: usize) -> (r: usize)
    requires
        p <= s@.len(),
    ensures
        r as int == word_end(s@, p as int),
        p <= r <= s@.len(),
{
    let mut i = p;
    while i < s.len() && c_is_word(s[i])
        invariant
            p <= i <= s@.len(),
            word_end(s@, i as int) == word_end(s@, p as int),
        decreases s@.len() - i,
    {
        i = i + 1;
    }
    i
}

fn digit_scan(s: &Vec<char>, p: usize) -> (r: usize)
    requires
        p <= s@.len(),
    ensures
        r as int == digit_end(s@, p as int),
        p <= r <= s@.len(),
{
    let mut i = p;
    while i < s.len() && c_is_digit(s[i])
        invariant
            p <= i <= s@.len(),
            digit_end(s@, i as int) == digit_end(s@, p as int),
        decreases s@.len() - i,
    {
        i = i + 1;
    }
    i
}

fn tick_scan(s: &Vec<char>, p: usize) -> (r: usize)
    requires
        p <= s@.len(),
    ensures
        r as int == tick_end(s@, p as int),
        p <= r <= s@.len(),
{
    let mut i = p;
    while i < s.len() && s[i] != '`'
        invariant
            p <= i <= s@.len(),
            tick_end(s@, i as int) == tick_end(s@, p as int),
        decreases s@.len() - i,
    {
        i = i + 1;
    }
    i
}

/// Keyword `kw` at `p`: the position after it.
fn try_kw(s: &Vec<char>, p: usize, kw: &str) -> (r: Option<usize>)
    requires
        p <= s@.len(),
    ensures
        r is Some <==> kw_at(s@, p as int, kw@),
        r matches Some(q) ==> q == p + kw@.len() && q <= s@.len(),
{
    let n = s.len();
    let k = chars_of(kw);
    if k.len() == 0 || k.len() > s.len() - p {
        return None;
    }
    let mut i: usize = 0;
    while i < k.len()
        invariant
            0 <= i <= k@.len(),
            k@ == kw@,
            p + k@.len() <= s@.len(),
            forall|j: int| 0 <= j < i ==> eq_ic(#[trigger] s@[p + j], kw@[j]),
            s@.len() <= usize::MAX,
        decreases k@.len() - i,
    {
        if !c_eq_ic(s[p + i], k[i]) {
            return None;
        }
        i = i + 1;
    }
    let e = p + k.len();
    if e < s.len() && c_is_word(s[e]) {
        return None;
    }
    Some(e)
}

fn utf8_len(c: char) -> (r: usize)
    ensures
        r == utf8_width(c),
{
    let u = c as u32;
    if u < 0x80 {
        1
    } else if u < 0x800 {
        2
    } else if u < 0x10000 {
        3
    } else {
        4
    }
}

/// The byte offset, in UTF-8, of the character position `p` (saturating at `usize::MAX`).
fn byte_pos(s: &Vec<char>, p: usize) -> (r: usize)
    requires
        p <= s@.len(),
    ensures
        r == byte_offset(s@, p as int),
{
    let mut n: usize = 0;
    let mut i: usize = 0;
    while i < p
        invariant
            i <= p <= s@.len(),
            n == byte_offset(s@, i as int),
        decreases p - i,
    {
        n = n.saturating_add(utf8_len(s[i]));
        i = i + 1;
    }
    n
}

fn msg_at(base: &str, s: &Vec<char>, p: usize) -> (r: String)
    requires
        p <= s@.len(),
    ensures
        r@ == message_at(base@, s@, p as int),
{
    let mut m = String::new();
    push_str(&mut m, base);
    push_str(&mut m, " at position ");
    let d = decimal(byte_pos(s, p) as u64);
    push_str(&mut m, d.as_str());
    assert(m@ =~= message_at(base@, s@, p as int));
    m
}

fn msg_plain(base: &str) -> (r: String)
    ensures
        r@ == base@,
{
    let mut m = String::new();
    push_str(&mut m, base);
    assert(m@ =~= base@);
    m
}

// ── Terminals ────────────────────────────────────────────────────

fn expect_c(s: &Vec<char>, p: usize, c: char) -> (r: Result<usize, String>)
    requires
        p <= s@.len(),
    ensures
        match r {
            Ok(q) => expect(s@, p as int, c) == Ok::<int, Seq<char>>(q as int) && p < q <= s@.len(),
            Err(m) => expect(s@, p as int, c) == Err::<int, Seq<char>>(m@),
        },
{
    let q = ws_skip(s, p);
    if q < s.len() {
        let ch = s[q];
        if ch == c {
            Ok(q + 1)
        } else {
            let mut m = String::new();
            push_str(&mut m, "expected '");
            push_char(&mut m, c);
            push_str(&mut m, "', found '");
            push_char(&mut m, ch);
            push_str(&mut m, "'");
            assert(m@ =~= "expected '"@ + seq![c] + "', found '"@ + seq![ch] + "'"@);
            Err(msg_at(m.as_str(), s, q))
        }
    } else {
        let mut m = String::new();
        push_str(&mut m, "expected '");
        push_char(&mut m, c);
        push_str(&mut m, "', found end of input");
        assert(m@ =~= "expected '"@ + seq![c] + "', found end of input"@);
        Err(m)
    }
}

fn e_backtick(s: &Vec<char>, p: usize) -> (r: Result<(String, usize), String>)
    requires
        p < s@.len(),
    ensures
        match r {
            Ok((n, q)) => backtick(s@, p as int) == Ok::<(Seq<char>, int), Seq<char>>((n@, q as int)) && p < q <= s@.len(),
            Err(m) => backtick(s@, p as int) == Err::<(Seq<char>, int), Seq<char>>(m@),
        },
{
    let n = s.len();
    let e = tick_scan(s, p + 1);
    if e < s.len() {
        Ok((string_of_range(s, p + 1, e), e + 1))
    } else {
        Err(msg_plain("unterminated backtick identifier"))
    }
}

fn e_ident(s: &Vec<char>, p: usize) -> (r: Result<(String, usize), String>)
    requires
        p <= s@.len(),
    ensures
        match r {
            Ok((n, q)) => ident(s@, p as int) == Ok::<(Seq<char>, int), Seq<char>>((n@, q as int)) && p < q <= s@.len(),
            Err(m) => ident(s@, p as int) == Err::<(Seq<char>, int), Seq<char>>(m@),
        },
{
    if p < s.len() && s[p] == '`' {
        return e_backtick(s, p);
    }
    if p < s.len() && (c_is_alpha(s[p]) || s[p] == '_') {
        let e = word_scan(s, p + 1);
        Ok((string_of_range(s, p, e), e))
    } else {
        Err(msg_at("expected identifier", s, p))
    }
}

fn e_str_lit(s: &Vec<char>, p: usize) -> (r: Result<(Expr, usize), String>)
    requires
        p < s@.len(),
    ensures
        agrees(r, str_lit(s@, p as int), p as int, s@.len() as int),
{
    let n = s.len();
    let mut acc = String::new();
    let mut i = p + 1;
    proof {
        lemma_str_body(s@, (p + 1) as int, Seq::empty());
    }
    loop
        invariant
            p < i <= s@.len() + 1,
            str_body(s@, i as int, acc@) == str_body(s@, (p + 1) as int, Seq::empty()),
        decreases s@.len() + 1 - i,
    {
        if i >= s.len() {
            return Err(msg_plain("unterminated string literal"));
        }
        let c = s[i];
        if c == '\'' {
            if i + 1 < s.len() && s[i + 1] == '\'' {
                push_char(&mut acc, '\'');
                i = i + 2;
            } else {
                proof {
                    assert(str_body(s@, i as int, acc@) == Some((acc@, i + 1)));
                }
                return Ok((Expr::Literal(Literal::String(acc)), i + 1));
            }
        } else {
            push_char(&mut acc, c);
            i = i + 1;
        }
    }
}

proof fn lemma_digits_value_nonneg(d: Seq<char>)
    requires
        forall|i: int| 0 <= i < d.len() ==> is_digit(#[trigger] d[i]),
    ensures
        digits_value(d) >= 0,
    decreases d.len(),
{
    if d.len() > 0 {
        lemma_digits_value_nonneg(d.drop_last());
    }
}

proof fn lemma_digits_value_mono(d: Seq<char>, k: int)
    requires
        0 <= k <= d.len(),
        forall|i: int| 0 <= i < d.len() ==> is_digit(#[trigger] d[i]),
    ensures
        digits_value(d) >= digits_value(d.subrange(0, k)),
    decreases d.len() - k,
{
    if k < d.len() {
        lemma_digits_value_mono(d, k + 1);
        let a = d.subrange(0, k + 1);
        assert(a.drop_last() =~= d.subrange(0, k));
        lemma_digits_value_nonneg(d.subrange(0, k));
    } else {
        assert(d.subrange(0, k) =~= d);
    }
}

proof fn lemma_digit_end_digits(s: Seq<char>, p: int)
    requires
        0 <= p <= s.len(),
    ensures
        forall|i: int| p <= i < digit_end(s, p) ==> is_digit(#[trigger] s[i]),
    decreases s.len() - p,
{
    if p < s.len() && is_digit(s[p]) {
        lemma_digit_end_digits(s, p + 1);
    }
}

fn e_num_lit(s: &Vec<char>, p: usize) -> (r: Result<(Expr, usize), String>)
    requires
        p < s@.len(),
    ensures
        agrees(r, num_lit(s@, p as int), p as int, s@.len() as int),
{
    let d1 = digit_scan(s, p);
    if d1 < s.len() && s[d1] == '.' {
        let d2 = digit_scan(s, d1 + 1);
        if d2 == d1 + 1 {
            return Err(msg_at("expected digit after decimal point", s, d1 + 1));
        }
        return Ok((Expr::Literal(Literal::Float(string_of_range(s, p, d2))), d2));
    }
    proof {
        lemma_digit_end_digits(s@, p as int);
    }
    let ghost d = s@.subrange(p as int, d1 as int);
    let mut v: i64 = 0;
    let mut i = p;
    while i < d1
        invariant
            p <= i <= d1 <= s@.len(),
            d == s@.subrange(p as int, d1 as int),
            forall|k: int| p <= k < d1 ==> is_digit(#[trigger] s@[k]),
            v as int == digits_value(s@.subrange(p as int, i as int)),
            v >= 0,
            p < s@.len(),
            d1 as int == digit_end(s@, p as int),
            !(d1 < s@.len() && s@[d1 as int] == '.'),
        decreases d1 - i,
    {
        let dig = (s[i] as u32 - '0' as u32) as i64;
        assert(s@.subrange(p as int, i + 1).drop_last() =~= s@.subrange(p as int, i as int));
        if v > (i64::MAX - dig) / 10 {
            proof {
                assert(d.subrange(0, (i + 1 - p) as int) =~= s@.subrange(p as int, i + 1));
                assert forall|k: int| 0 <= k < d.len() implies is_digit(#[trigger] d[k]) by {
                    assert(d[k] == s@[p + k]);
                }
                lemma_digits_value_mono(d, (i + 1 - p) as int);
                let sub = s@.subrange(p as int, i + 1);
                assert(sub.drop_last() =~= s@.subrange(p as int, i as int));
                assert(sub.last() == s@[i as int]);
                assert(digits_value(sub) == v * 10 + dig);
                assert(d1 < s@.len() ==> s@[d1 as int] != '.');
                assert(v * 10 + dig > i64::MAX) by (nonlinear_arith)
                    requires
                        v > (i64::MAX - dig) / 10,
                        0 <= dig <= 9,
                ;
                assert(d.subrange(0, (i + 1 - p) as int) == sub);
                assert(digits_value(d) > i64::MAX);

            }
            return Err(msg_plain("invalid integer: number too large to fit in target type"));
        }
        assert(v * 10 + dig <= i64::MAX) by (nonlinear_arith)
            requires
                v <= (i64::MAX - dig) / 10,
                0 <= dig <= 9,
                v >= 0,
        ;
        v = v * 10 + dig;
        i = i + 1;
    }
    Ok((Expr::Literal(Literal::Integer(v)), d1))
}

fn e_comp_op(s: &Vec<char>, p: usize) -> (r: Option<(BinaryOp, usize)>)
    requires
        p <= s@.len(),
    ensures
        match r {
            Some((op, q)) => comp_op(s@, p as int) == Some((op, q as int)) && p < q <= s@.len(),
            None => comp_op(s@, p as int) is None,
        },
{
    let c0 = if p < s.len() { Some(s[p]) } else { None };
    let c1 = if p < s.len() && p + 1 < s.len() { Some(s[p + 1]) } else { None };
    if c0 == Some('<') && c1 == Some('=') {
        Some((BinaryOp::LtEq, p + 2))
    } else if c0 == Some('>') && c1 == Some('=') {
        Some((BinaryOp::GtEq, p + 2))
    } else if c0 == Some('<') && c1 == Some('>') {
        Some((BinaryOp::Neq, p + 2))
    } else if c0 == Some('!') && c1 == Some('=') {
        Some((BinaryOp::Neq, p + 2))
    } else if c0 == Some('=') && c1 == Some('=') {
        Some((BinaryOp::Eq, p + 2))
    } else if c0 == Some('=') {
        Some((BinaryOp::Eq, p + 1))
    } else if c0 == Some('<') {
        Some((BinaryOp::Lt, p + 1))
    } else if c0 == Some('>') {
        Some((BinaryOp::Gt, p + 1))
    } else {
        None
    }
}

fn e_type_text(s: &Vec<char>, p: usize) -> (r: Result<(String, usize), String>)
    requires
        p <= s@.len(),
    ensures
        match r {
            Ok((t, q)) => type_text(s@, p as int) == Ok::<(Seq<char>, int), Seq<char>>((t@, q as int)) && p <= q <= s@.len(),
            Err(m) => type_text(s@, p as int) == Err::<(Seq<char>, int), Seq<char>>(m@),
        },
{
    let q = ws_skip(s, p);
    let mut depth: usize = 0;
    let mut i = q;
    while i < s.len() && !(((s[i] == ')' || s[i] == '>') && depth == 0) || (s[i] == ',' && depth == 0))
        invariant
            q <= i <= s@.len(),
            depth <= i,
            type_end(s@, i as int, depth as nat) == type_end(s@, q as int, 0),
        decreases s@.len() - i,
    {
        let c = s[i];
        if c == '(' || c == '<' {
            depth = depth + 1;
        } else if c == ')' || c == '>' {
            depth = depth - 1;
        }
        i = i + 1;
    }
    let e = i;
    assert(e as int == type_end(s@, q as int, 0));
    let ghost raw = s@.subrange(q as int, e as int);
    let mut a = q;
    while a < e && c_is_unicode_ws(s[a])
        invariant
            q <= a <= e <= s@.len(),
            raw == s@.subrange(q as int, e as int),
            trim_start(raw) == trim_start(s@.subrange(a as int, e as int)),
        decreases e - a,
    {
        assert(s@.subrange(a as int, e as int).subrange(1, (e - a) as int) =~= s@.subrange(a + 1, e as int));
        a = a + 1;
    }
    assert(trim_start(raw) == s@.subrange(a as int, e as int));
    let mut b = e;
    while b > a && c_is_unicode_ws(s[b - 1])
        invariant
            q <= a <= b <= e <= s@.len(),
            trim_end(trim_start(raw)) == trim_end(s@.subrange(a as int, b as int)),
        decreases b - a,
    {
        assert(s@.subrange(a as int, b as int).drop_last() =~= s@.subrange(a as int, b - 1));
        b = b - 1;
    }
    assert(trim_end(trim_start(raw)) == s@.subrange(a as int, b as int));
    if a == b {
        return Err(msg_at("expected type name", s, e));
    }
    Ok((string_of_range(s, a, b), e))
}

// ── Rules ────────────────────────────────────────────────────────

#[verifier::spinoff_prover]
fn e_expression(s: &Vec<char>, p: usize) -> (r: Result<(Expr, usize), String>)
    requires
        p <= s@.len(),
    ensures
        agrees(r, sp_expression(s@, p as int), p as int, s@.len() as int),
    decreases s@.len() - p, 30int,
{    proof {
        reveal_with_fuel(sp_expression, 1);
    }

    let (e, p1) = match e_or(s, p) {
        Ok(x) => x,
        Err(m) => return Err(m),
    };
    let q = ws_skip(s, p1);
    match try_kw(s, q, "AS") {
        Some(k) => {
            let r = ws_skip(s, k);
            match e_ident(s, r) {
                Ok((a, p2)) => Ok((Expr::Alias { expr: Box::new(e), alias: a }, p2)),
                Err(m) => Err(m),
            }
        },
        None => Ok((e, q)),
    }
}

#[verifier::spinoff_prover]
fn e_or(s: &Vec<char>, p: usize) -> (r: Result<(Expr, usize), String>)
    requires
        p <= s@.len(),
    ensures
        agrees(r, sp_or(s@, p as int), p as int, s@.len() as int),
    decreases s@.len() - p, 28int,
{    proof {
        reveal_with_fuel(sp_or, 1);
    }
    proof {
        reveal_with_fuel(sp_or_rest, 1);
    }

    let (mut left, mut cur) = match e_and(s, p) {
        Ok(x) => x,
        Err(m) => return Err(m),
    };
    loop
        invariant
            p <= cur <= s@.len(),
            sp_or_rest(s@, cur as int, expr_view(left)) == sp_or(s@, p as int),
        decreases s@.len() - cur,
    {
        proof {
            reveal_with_fuel(sp_or_rest, 1);
        }
        let q = ws_skip(s, cur);
        match try_kw(s, q, "OR") {
            Some(k) => {
                let r = ws_skip(s, k);
                match e_and(s, r) {
                    Ok((rt, p2)) => {
                        left = Expr::BinaryOp { left: Box::new(left), op: BinaryOp::Or, right: Box::new(rt) };
                        cur = p2;
                    },
                    Err(m) => return Err(m),
                }
            },
            None => return Ok((left, q)),
        }
    }
}

#[verifier::spinoff_prover]
fn e_and(s: &Vec<char>, p: usize) -> (r: Result<(Expr, usize), String>)
    requires
        p <= s@.len(),
    ensures
        agrees(r, sp_and(s@, p as int), p as int, s@.len() as int),
    decreases s@.len() - p, 26int,
{    proof {
        reveal_with_fuel(sp_and, 1);
    }
    proof {
        reveal_with_fuel(sp_and_rest, 1);
    }

    let (mut left, mut cur) = match e_not(s, p) {
        Ok(x) => x,
        Err(m) => return Err(m),
    };
    loop
        invariant
            p <= cur <= s@.len(),
            sp_and_rest(s@, cur as int, expr_view(left)) == sp_and(s@, p as int),
        decreases s@.len() - cur,
    {
        proof {
            reveal_with_fuel(sp_and_rest, 1);
        }
        let q = ws_skip(s, cur);
        match try_kw(s, q, "AND") {
            Some(k) => {
                let r = ws_skip(s, k);
                match e_not(s, r) {
                    Ok((rt, p2)) => {
                        left = Expr::BinaryOp { left: Box::new(left), op: BinaryOp::And, right: Box::new(rt) };
                        cur = p2;
                    },
                    Err(m) => return Err(m),
                }
            },
            None => return Ok((left, q)),
        }
    }
}

#[verifier::spinoff_prover]
fn e_not(s: &Vec<char>, p: usize) -> (r: Result<(Expr, usize), String>)
    requires
        p <= s@.len(),
    ensures
        agrees(r, sp_not(s@, p as int), p as int, s@.len() as int),
    decreases s@.len() - p, 24int,
{    proof {
        reveal_with_fuel(sp_not, 1);
    }

    let q = ws_skip(s, p);
    match try_kw(s, q, "NOT") {
        Some(k) => {
            let r = ws_skip(s, k);
            match e_comparison(s, r) {
                Ok((e, p1)) => Ok((Expr::UnaryOp { op: UnaryOp::Not, expr: Box::new(e) }, p1)),
                Err(m) => Err(m),
            }
        },
        None => e_comparison(s, q),
    }
}

#[verifier::spinoff_prover]
fn e_comparison(s: &Vec<char>, p: usize) -> (r: Result<(Expr, usize), String>)
    requires
        p <= s@.len(),
    ensures
        agrees(r, sp_comparison(s@, p as int), p as int, s@.len() as int),
    decreases s@.len() - p, 23int,
{    proof {
        reveal_with_fuel(sp_comparison, 1);
    }

    let (left, p1) = match e_addition(s, p) {
        Ok(x) => x,
        Err(m) => return Err(m),
    };
    let q = ws_skip(s, p1);
    e_comp_tail(s, q, left)
}

#[verifier::spinoff_prover]
#[verifier::rlimit(40)]
fn e_comp_tail(s: &Vec<char>, q: usize, left: Expr) -> (r: Result<(Expr, usize), String>)
    requires
        q <= s@.len(),
    ensures
        agrees(r, sp_comp_tail(s@, q as int, expr_view(left)), q as int, s@.len() as int),
    decreases s@.len() - q, 22int,
{    proof {
        reveal_with_fuel(sp_comp_tail, 1);
    }

    if let Some(k) = try_kw(s, q, "IS") {
        let r = ws_skip(s, k);
        let (neg, r2) = match try_kw(s, r, "NOT") {
            Some(k2) => (true, ws_skip(s, k2)),
            None => (false, r),
        };
        return match try_kw(s, r2, "NULL") {
            Some(k3) => Ok((Expr::IsNull { expr: Box::new(left), negated: neg }, k3)),
            None => Err(msg_at("expected NULL after IS", s, r2)),
        };
    }
    let (neg, r) = match try_kw(s, q, "NOT") {
        Some(k) => (true, ws_skip(s, k)),
        None => (false, q),
    };
    if try_kw(s, r, "IN").is_some() {
        return e_in(s, r, left, neg);
    }
    if try_kw(s, r, "BETWEEN").is_some() {
        return e_between(s, r, left, neg);
    }
    if let Some(k) = try_kw(s, r, "LIKE") {
        let t = ws_skip(s, k);
        return match e_primary(s, t) {
            Ok((pat, p2)) => Ok((Expr::Like { expr: Box::new(left), pattern: Box::new(pat), negated: neg }, p2)),
            Err(m) => Err(m),
        };
    }
    match e_comp_op(s, q) {
        Some((op, q2)) => {
            let t = ws_skip(s, q2);
            match e_addition(s, t) {
                Ok((rt, p2)) => Ok((Expr::BinaryOp { left: Box::new(left), op, right: Box::new(rt) }, p2)),
                Err(m) => Err(m),
            }
        },
        None => Ok((left, q)),
    }
}

#[verifier::spinoff_prover]
fn e_in(s: &Vec<char>, r: usize, left: Expr, neg: bool) -> (res: Result<(Expr, usize), String>)
    requires
        r <= s@.len(),
        kw_at(s@, r as int, "IN"@),
    ensures
        agrees(res, sp_in(s@, r as int, expr_view(left), neg), r as int, s@.len() as int),
    decreases s@.len() - r, 21int,
{    proof {
        reveal_with_fuel(sp_in, 1);
    }

    let k = match try_kw(s, r, "IN") {
        Some(k) => k,
        None => return Err(msg_at("expected IN", s, r)),
    };
    let t = ws_skip(s, k);
    let u = match expect_c(s, t, '(') {
        Ok(u) => u,
        Err(m) => return Err(m),
    };
    let (lst, v) = match e_list(s, u) {
        Ok(x) => x,
        Err(m) => return Err(m),
    };
    match expect_c(s, v, ')') {
        Ok(w) => Ok((Expr::InList { expr: Box::new(left), list: lst, negated: neg }, w)),
        Err(m) => Err(m),
    }
}

#[verifier::spinoff_prover]
#[verifier::rlimit(40)]
fn e_between(s: &Vec<char>, r: usize, left: Expr, neg: bool) -> (res: Result<(Expr, usize), String>)
    requires
        r <= s@.len(),
        kw_at(s@, r as int, "BETWEEN"@),
    ensures
        agrees(res, sp_between(s@, r as int, expr_view(left), neg), r as int, s@.len() as int),
    decreases s@.len() - r, 21int,
{    proof {
        reveal_with_fuel(sp_between, 1);
    }

    let k = match try_kw(s, r, "BETWEEN") {
        Some(k) => k,
        None => return Err(msg_at("expected BETWEEN", s, r)),
    };
    let t = ws_skip(s, k);
    let (lo, p2) = match e_addition(s, t) {
        Ok(x) => x,
        Err(m) => return Err(m),
    };
    let q2 = ws_skip(s, p2);
    match try_kw(s, q2, "AND") {
        Some(k2) => {
            let t2 = ws_skip(s, k2);
            match e_addition(s, t2) {
                Ok((hi, p3)) => Ok((Expr::Between {
                    expr: Box::new(left),
                    low: Box::new(lo),
                    high: Box::new(hi),
                    negated: neg,
                }, p3)),
                Err(m) => Err(m),
            }
        },
        None => Err(msg_at("expected AND in BETWEEN", s, q2)),
    }
}

#[verifier::spinoff_prover]
fn e_addition(s: &Vec<char>, p: usize) -> (r: Result<(Expr, usize), String>)
    requires
        p <= s@.len(),
    ensures
        agrees(r, sp_addition(s@, p as int), p as int, s@.len() as int),
    decreases s@.len() - p, 22int,
{    proof {
        reveal_with_fuel(sp_add_rest, 1);
    }
    proof {
        reveal_with_fuel(sp_addition, 1);
    }

    let (mut left, mut cur) = match e_mult(s, p) {
        Ok(x) => x,
        Err(m) => return Err(m),
    };
    loop
        invariant
            p <= cur <= s@.len(),
            sp_add_rest(s@, cur as int, expr_view(left)) == sp_addition(s@, p as int),
        decreases s@.len() - cur,
    {
        proof {
            reveal_with_fuel(sp_add_rest, 1);
        }
        let q = ws_skip(s, cur);
        if q < s.len() && (s[q] == '+' || s[q] == '-') {
            let op = if s[q] == '+' { BinaryOp::Add } else { BinaryOp::Sub };
            let r = ws_skip(s, q + 1);
            match e_mult(s, r) {
                Ok((rt, p2)) => {
                    left = Expr::BinaryOp { left: Box::new(left), op, right: Box::new(rt) };
                    cur = p2;
                },
                Err(m) => return Err(m),
            }
        } else {
            return Ok((left, q));
        }
    }
}

#[verifier::spinoff_prover]
fn e_mult(s: &Vec<char>, p: usize) -> (r: Result<(Expr, usize), String>)
    requires
        p <= s@.len(),
    ensures
        agrees(r, sp_mult(s@, p as int), p as int, s@.len() as int),
    decreases s@.len() - p, 20int,
{    proof {
        reveal_with_fuel(sp_mult, 1);
    }
    proof {
        reveal_with_fuel(sp_mult_rest, 1);
    }

    let (mut left, mut cur) = match e_unary(s, p) {
        Ok(x) => x,
        Err(m) => return Err(m),
    };
    loop
        invariant
            p <= cur <= s@.len(),
            sp_mult_rest(s@, cur as int, expr_view(left)) == sp_mult(s@, p as int),
        decreases s@.len() - cur,
    {
        proof {
            reveal_with_fuel(sp_mult_rest, 1);
        }
        let q = ws_skip(s, cur);
        if q < s.len() && (s[q] == '*' || s[q] == '/' || s[q] == '%') {
            let op = if s[q] == '*' {
                BinaryOp::Mul
            } else if s[q] == '/' {
                BinaryOp::Div
            } else {
                BinaryOp::Mod
            };
            let r = ws_skip(s, q + 1);
            match e_unary(s, r) {
                Ok((rt, p2)) => {
                    left = Expr::BinaryOp { left: Box::new(left), op, right: Box::new(rt) };
                    cur = p2;
                },
                Err(m) => return Err(m),
            }
        } else {
            return Ok((left, q));
        }
    }
}

#[verifier::spinoff_prover]
fn e_unary(s: &Vec<char>, p: usize) -> (r: Result<(Expr, usize), String>)
    requires
        p <= s@.len(),
    ensures
        agrees(r, sp_unary(s@, p as int), p as int, s@.len() as int),
    decreases s@.len() - p, 18int,
{    proof {
        reveal_with_fuel(sp_unary, 1);
    }

    let q = ws_skip(s, p);
    if q < s.len() && s[q] == '-' {
        let r = ws_skip(s, q + 1);
        match e_primary(s, r) {
            Ok((e, p1)) => Ok((Expr::UnaryOp { op: UnaryOp::Neg, expr: Box::new(e) }, p1)),
            Err(m) => Err(m),
        }
    } else {
        e_primary(s, q)
    }
}

#[verifier::spinoff_prover]
fn e_primary(s: &Vec<char>, p: usize) -> (r: Result<(Expr, usize), String>)
    requires
        p <= s@.len(),
    ensures
        agrees(r, sp_primary(s@, p as int), p as int, s@.len() as int),
    decreases s@.len() - p, 17int,
{    proof {
        reveal_with_fuel(sp_primary, 1);
    }

    let q = ws_skip(s, p);
    if q >= s.len() {
        return Err(msg_plain("unexpected end of input"));
    }
    let c = s[q];
    if c == '\'' {
        e_str_lit(s, q)
    } else if c == '(' {
        e_paren(s, q)
    } else if c == '`' {
        match e_backtick(s, q) {
            Ok((n, q1)) => Ok((Expr::ColumnRef { table: None, column: n }, q1)),
            Err(m) => Err(m),
        }
    } else if c_is_digit(c) {
        e_num_lit(s, q)
    } else if c_is_alpha(c) || c == '_' {
        e_word(s, q)
    } else if c == '*' {
        Ok((Expr::Wildcard, q + 1))
    } else {
        let mut m = String::new();
        push_str(&mut m, "unexpected character '");
        push_char(&mut m, c);
        push_str(&mut m, "'");
        assert(m@ =~= "unexpected character '"@ + seq![c] + "'"@);
        Err(msg_at(m.as_str(), s, q))
    }
}

#[verifier::spinoff_prover]
fn e_paren(s: &Vec<char>, p: usize) -> (r: Result<(Expr, usize), String>)
    requires
        p < s@.len(),
    ensures
        agrees(r, sp_paren(s@, p as int), p as int, s@.len() as int),
    decreases s@.len() - p, 16int,
{    proof {
        reveal_with_fuel(sp_paren, 1);
    }

    let n = s.len();
    let r = ws_skip(s, p + 1);
    let (e, p1) = match e_expression(s, r) {
        Ok(x) => x,
        Err(m) => return Err(m),
    };
    match expect_c(s, p1, ')') {
        Ok(p2) => Ok((e, p2)),
        Err(m) => Err(m),
    }
}

#[verifier::spinoff_prover]
fn e_word(s: &Vec<char>, p: usize) -> (r: Result<(Expr, usize), String>)
    requires
        p <= s@.len(),
    ensures
        agrees(r, sp_word(s@, p as int), p as int, s@.len() as int),
    decreases s@.len() - p, 15int,
{    proof {
        reveal_with_fuel(sp_word, 1);
    }

    if let Some(k) = try_kw(s, p, "NULL") {
        return Ok((Expr::Literal(Literal::Null), k));
    }
    if let Some(k) = try_kw(s, p, "TRUE") {
        return Ok((Expr::Literal(Literal::Boolean(true)), k));
    }
    if let Some(k) = try_kw(s, p, "FALSE") {
        return Ok((Expr::Literal(Literal::Boolean(false)), k));
    }
    if try_kw(s, p, "CASE").is_some() {
        return e_case(s, p);
    }
    if try_kw(s, p, "CAST").is_some() {
        return e_cast(s, p);
    }
    let (name, p1) = match e_ident(s, p) {
        Ok(x) => x,
        Err(m) => return Err(m),
    };
    let q = ws_skip(s, p1);
    if q < s.len() && s[q] == '(' {
        let r = ws_skip(s, q + 1);
        if r < s.len() && s[r] == '*' {
            return match expect_c(s, r + 1, ')') {
                Ok(t) => {
                    let mut args: Vec<Expr> = Vec::new();
                    args.push(Expr::Wildcard);
                    proof {
                        lemma_exprs_view_push(Seq::empty(), Expr::Wildcard);
                        assert(exprs_view(Seq::<Expr>::empty()) =~= Seq::<ExprV>::empty());
                        assert(args@ =~= Seq::<Expr>::empty().push(Expr::Wildcard));
                    }
                    Ok((Expr::FunctionCall { name, args, distinct: false }, t))
                },
                Err(m) => Err(m),
            };
        }
        if r < s.len() && s[r] == ')' {
            let args: Vec<Expr> = Vec::new();
            assert(exprs_view(args@) =~= Seq::<ExprV>::empty());
            return Ok((Expr::FunctionCall { name, args, distinct: false }, r + 1));
        }
        let (distinct, r2) = match try_kw(s, r, "DISTINCT") {
            Some(k) => (true, ws_skip(s, k)),
            None => (false, r),
        };
        let (args, p3) = match e_list(s, r2) {
            Ok(x) => x,
            Err(m) => return Err(m),
        };
        return match expect_c(s, p3, ')') {
            Ok(p4) => Ok((Expr::FunctionCall { name, args, distinct }, p4)),
            Err(m) => Err(m),
        };
    }
    if q < s.len() && s[q] == '.' {
        return match e_ident(s, q + 1) {
            Ok((col, p2)) => Ok((Expr::ColumnRef { table: Some(name), column: col }, p2)),
            Err(m) => Err(m),
        };
    }
    Ok((Expr::ColumnRef { table: None, column: name }, q))
}

#[verifier::spinoff_prover]
fn e_whens(s: &Vec<char>, q: usize) -> (r: Result<(Vec<(Expr, Expr)>, usize), String>)
    requires
        q <= s@.len(),
    ensures
        match r {
            Ok((w, e)) => sp_whens(s@, q as int, Seq::empty()) == Ok::<(Seq<(ExprV, ExprV)>, int), Seq<char>>((pairs_view(w@), e as int))
                && q <= e <= s@.len(),
            Err(m) => sp_whens(s@, q as int, Seq::empty()) == Err::<(Seq<(ExprV, ExprV)>, int), Seq<char>>(m@),
        },
    decreases s@.len() - q, 13int,
{    proof {
        reveal_with_fuel(sp_whens, 1);
    }

    let mut whens: Vec<(Expr, Expr)> = Vec::new();
    let mut cur = q;
    assert(pairs_view(whens@) =~= Seq::<(ExprV, ExprV)>::empty());
    loop
        invariant
            q <= cur <= s@.len(),
            sp_whens(s@, cur as int, pairs_view(whens@)) == sp_whens(s@, q as int, Seq::empty()),
        decreases s@.len() - cur,
    {
        proof {
            reveal_with_fuel(sp_whens, 1);
        }
        match try_kw(s, cur, "WHEN") {
            Some(k1) => {
                let r = ws_skip(s, k1);
                let (c, p1) = match e_expression(s, r) {
                    Ok(x) => x,
                    Err(m) => return Err(m),
                };
                let q1 = ws_skip(s, p1);
                let k2 = match try_kw(s, q1, "THEN") {
                    Some(k2) => k2,
                    None => return Err(msg_at("expected THEN", s, q1)),
                };
                let t = ws_skip(s, k2);
                let (v, p2) = match e_expression(s, t) {
                    Ok(x) => x,
                    Err(m) => return Err(m),
                };
                let q2 = ws_skip(s, p2);
                proof {
                    lemma_pairs_view_push(whens@, (c, v));
                }
                whens.push((c, v));
                cur = q2;
            },
            None => return Ok((whens, cur)),
        }
    }
}

#[verifier::spinoff_prover]
fn e_case(s: &Vec<char>, p: usize) -> (r: Result<(Expr, usize), String>)
    requires
        p <= s@.len(),
        kw_at(s@, p as int, "CASE"@),
    ensures
        agrees(r, sp_case(s@, p as int), p as int, s@.len() as int),
    decreases s@.len() - p, 14int,
{    proof {
        reveal_with_fuel(sp_case, 1);
    }

    let k = match try_kw(s, p, "CASE") {
        Some(k) => k,
        None => return Err(msg_at("expected CASE", s, p)),
    };
    let q = ws_skip(s, k);
    let (whens, w) = match e_whens(s, q) {
        Ok(x) => x,
        Err(m) => return Err(m),
    };
    match try_kw(s, w, "ELSE") {
        Some(k1) => {
            let r = ws_skip(s, k1);
            let (e, p3) = match e_expression(s, r) {
                Ok(x) => x,
                Err(m) => return Err(m),
            };
            let q3 = ws_skip(s, p3);
            match try_kw(s, q3, "END") {
                Some(k3) => Ok((Expr::Case { when_clauses: whens, else_clause: Some(Box::new(e)) }, k3)),
                None => Err(msg_at("expected END", s, q3)),
            }
        },
        None => {
            let q3 = ws_skip(s, w);
            match try_kw(s, q3, "END") {
                Some(k3) => Ok((Expr::Case { when_clauses: whens, else_clause: None }, k3)),
                None => Err(msg_at("expected END", s, q3)),
            }
        },
    }
}

#[verifier::spinoff_prover]
fn e_cast(s: &Vec<char>, p: usize) -> (r: Result<(Expr, usize), String>)
    requires
        p <= s@.len(),
        kw_at(s@, p as int, "CAST"@),
    ensures
        agrees(r, sp_cast(s@, p as int), p as int, s@.len() as int),
    decreases s@.len() - p, 14int,
{    proof {
        reveal_with_fuel(sp_cast, 1);
    }

    let k = match try_kw(s, p, "CAST") {
        Some(k) => k,
        None => return Err(msg_at("expected CAST", s, p)),
    };
    let q = ws_skip(s, k);
    let u = match expect_c(s, q, '(') {
        Ok(u) => u,
        Err(m) => return Err(m),
    };
    let v = ws_skip(s, u);
    let (e, p1) = match e_or(s, v) {
        Ok(x) => x,
        Err(m) => return Err(m),
    };
    let q1 = ws_skip(s, p1);
    let k1 = match try_kw(s, q1, "AS") {
        Some(k1) => k1,
        None => return Err(msg_at("expected AS in CAST", s, q1)),
    };
    let r = ws_skip(s, k1);
    let (ty, p2) = match e_type_text(s, r) {
        Ok(x) => x,
        Err(m) => return Err(m),
    };
    match expect_c(s, p2, ')') {
        Ok(p3) => Ok((Expr::Cast { expr: Box::new(e), data_type: ty }, p3)),
        Err(m) => Err(m),
    }
}

#[verifier::spinoff_prover]
fn e_list(s: &Vec<char>, p: usize) -> (r: Result<(Vec<Expr>, usize), String>)
    requires
        p <= s@.len(),
    ensures
        agrees_list(r, sp_list(s@, p as int), p as int, s@.len() as int),
    decreases s@.len() - p, 31int,
{    proof {
        reveal_with_fuel(sp_list, 1);
    }
    proof {
        reveal_with_fuel(sp_list_rest, 1);
    }

    let (first, p1) = match e_expression(s, p) {
        Ok(x) => x,
        Err(m) => return Err(m),
    };
    let mut v: Vec<Expr> = Vec::new();
    let ghost e0 = expr_view(first);
    proof {
        lemma_exprs_view_push(Seq::empty(), first);
        assert(exprs_view(Seq::<Expr>::empty()) =~= Seq::<ExprV>::empty());
        assert(seq![e0] =~= Seq::<ExprV>::empty().push(e0));
    }
    v.push(first);
    assert(v@ =~= Seq::<Expr>::empty().push(first));
    let mut cur = p1;
    loop
        invariant
            p <= cur <= s@.len(),
            sp_list_rest(s@, cur as int, exprs_view(v@)) == sp_list(s@, p as int),
        decreases s@.len() - cur,
    {
        proof {
            reveal_with_fuel(sp_list_rest, 1);
        }
        let q = ws_skip(s, cur);
        if q < s.len() && s[q] == ',' {
            let r = ws_skip(s, q + 1);
            match e_expression(s, r) {
                Ok((e, p2)) => {
                    proof {
                        lemma_exprs_view_push(v@, e);
                    }
                    v.push(e);
                    cur = p2;
                },
                Err(m) => return Err(m),
            }
        } else {
            return Ok((v, q));
        }
    }
}

/// Parses an expression string into its syntax tree.
///
/// The result is `Ok` exactly when the whole text, apart from surrounding
/// whitespace, is an expression of the grammar in `expr_grammar`, and then the
/// tree means what the grammar gives.
pub fn parse_expression(input: &str) -> (r: Result<Expr, String>)
    ensures
        match r {
            Ok(e) => parse_spec(input@) == Ok::<ExprV, Seq<char>>(expr_view(e)),
            Err(m) => parse_spec(input@) == Err::<ExprV, Seq<char>>(m@),
        },
{
    let s = chars_of(input);
    let (e, p) = match e_expression(&s, 0) {
        Ok(x) => x,
        Err(m) => return Err(m),
    };
    let q = ws_skip(&s, p);
    if q < s.len() {
        let mut m = String::new();
        push_str(&mut m, "unexpected trailing input at position ");
        let d = decimal(byte_pos(&s, q) as u64);
        push_str(&mut m, d.as_str());
        push_str(&mut m, ": '");
        let rest = string_of_range(&s, q, s.len());
        push_str(&mut m, rest.as_str());
        push_str(&mut m, "'");
        return Err(m);
    }
    Ok(e)
}

} // verus!
