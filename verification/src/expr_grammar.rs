//! The grammar of the expression language, as ordered-choice rules over characters.
//!
//! Each rule takes the text and a start position and gives, on success, the
//! meaning of the parsed expression and the position after it. Precedence,
//! lowest first: `AS`, `OR`, `AND`, `NOT`, comparisons (`=`, `!=`, `<>`, `<`,
//! `>`, `<=`, `>=`, `IS`, `IN`, `BETWEEN`, `LIKE`), `+ -`, `* / %`, unary `-`,
//! primaries (literals, parentheses, identifiers, calls, `CASE`, `CAST`, `*`).
use vstd::prelude::*;
use crate::expr::{BinaryOp, ExprV, LiteralV, UnaryOp};
use crate::text::decimal_text;

verus! {

/// ASCII whitespace: space, tab, line feed, form feed, carriage return.
pub open spec fn is_ws(c: char) -> bool {
    c == ' ' || c == '\t' || c == '\n' || c == '\x0C' || c == '\r'
}

pub open spec fn is_digit(c: char) -> bool {
    '0' <= c && c <= '9'
}

pub open spec fn is_alpha(c: char) -> bool {
    ('a' <= c && c <= 'z') || ('A' <= c && c <= 'Z')
}

/// Characters that continue a word: ASCII letters, digits and `_`.
pub open spec fn is_word(c: char) -> bool {
    is_alpha(c) || is_digit(c) || c == '_'
}

/// Equality of characters, ignoring the case of ASCII letters.
pub open spec fn eq_ic(a: char, b: char) -> bool {
    a == b || (is_alpha(a) && is_alpha(b) && (a as u32 == b as u32 + 32 || a as u32 + 32 == b as u32))
}

/// The first position at or after `p` that is not whitespace.
pub open spec fn ws_end(s: Seq<char>, p: int) -> int
    decreases s.len() - p,
{
    if 0 <= p < s.len() && is_ws(s[p]) {
        ws_end(s, p + 1)
    } else {
        p
    }
}

/// The first position at or after `p` that does not continue a word.
pub open spec fn word_end(s: Seq<char>, p: int) -> int
    decreases s.len() - p,
{
    if 0 <= p < s.len() && is_word(s[p]) {
        word_end(s, p + 1)
    } else {
        p
    }
}

/// The first position at or after `p` that holds a digit no more.
pub open spec fn digit_end(s: Seq<char>, p: int) -> int
    decreases s.len() - p,
{
    if 0 <= p < s.len() && is_digit(s[p]) {
        digit_end(s, p + 1)
    } else {
        p
    }
}

/// The first position at or after `p` that holds a backtick, or the end.
pub open spec fn tick_end(s: Seq<char>, p: int) -> int
    decreases s.len() - p,
{
    if 0 <= p < s.len() && s[p] != '`' {
        tick_end(s, p + 1)
    } else {
        p
    }
}

/// Keyword `kw` (non-empty) stands at `p`, in any case, not followed by a word character.
pub open spec fn kw_at(s: Seq<char>, p: int, kw: Seq<char>) -> bool {
    &&& kw.len() > 0
    &&& 0 <= p
    &&& p + kw.len() <= s.len()
    &&& forall|i: int| 0 <= i < kw.len() ==> eq_ic(#[trigger] s[p + i], kw[i])
    &&& (p + kw.len() == s.len() || !is_word(s[p + kw.len()]))
}

/// The position after keyword `kw` at `p` and the whitespace that follows it.
pub open spec fn after_kw(s: Seq<char>, p: int, kw: Seq<char>) -> int {
    ws_end(s, p + kw.len())
}

/// The number of bytes of `c` in UTF-8.
pub open spec fn utf8_width(c: char) -> nat {
    let u = c as u32;
    if u < 0x80 {
        1
    } else if u < 0x800 {
        2
    } else if u < 0x10000 {
        3
    } else {
        4
    }
}

/// The number of bytes, in UTF-8, of the first `p` characters of `s`.
pub open spec fn utf8_prefix_len(s: Seq<char>, p: int) -> nat
    decreases p,
{
    if p <= 0 {
        0
    } else {
        utf8_prefix_len(s, p - 1) + utf8_width(s[p - 1])
    }
}

/// The byte offset of character position `p`, or `usize::MAX` when it does not fit.
pub open spec fn byte_offset(s: Seq<char>, p: int) -> nat {
    if utf8_prefix_len(s, p) <= usize::MAX {
        utf8_prefix_len(s, p)
    } else {
        usize::MAX as nat
    }
}

/// The message `base` and the byte position of `p`: `base at position N`.
pub open spec fn message_at(base: Seq<char>, s: Seq<char>, p: int) -> Seq<char> {
    base + " at position "@ + decimal_text(byte_offset(s, p))
}

/// After optional whitespace, character `c`: the position after it; otherwise the message
/// that names what was found instead.
pub open spec fn expect(s: Seq<char>, p: int, c: char) -> Result<int, Seq<char>> {
    let q = ws_end(s, p);
    if 0 <= q < s.len() && s[q] == c {
        Ok(q + 1)
    } else if 0 <= q < s.len() {
        Err(message_at("expected '"@ + seq![c] + "', found '"@ + seq![s[q]] + "'"@, s, q))
    } else {
        Err("expected '"@ + seq![c] + "', found end of input"@)
    }
}

/// The value of a run of decimal digits.
pub open spec fn digits_value(d: Seq<char>) -> int
    decreases d.len(),
{
    if d.len() == 0 {
        0
    } else {
        digits_value(d.drop_last()) * 10 + (d.last() as u32 - '0' as u32)
    }
}

/// An identifier at `p`: a backtick-quoted name, or a letter or `_` followed by word characters.
pub open spec fn ident(s: Seq<char>, p: int) -> Result<(Seq<char>, int), Seq<char>> {
    if 0 <= p < s.len() && s[p] == '`' {
        backtick(s, p)
    } else if 0 <= p < s.len() && (is_alpha(s[p]) || s[p] == '_') {
        let e = word_end(s, p + 1);
        Ok((s.subrange(p, e), e))
    } else {
        Err(message_at("expected identifier"@, s, p))
    }
}

/// A backtick-quoted name starting at the backtick at `p`.
pub open spec fn backtick(s: Seq<char>, p: int) -> Result<(Seq<char>, int), Seq<char>> {
    let e = tick_end(s, p + 1);
    if e < s.len() {
        Ok((s.subrange(p + 1, e), e + 1))
    } else {
        Err("unterminated backtick identifier"@)
    }
}

/// The body of a quoted string from `p`, with `''` standing for one quote, after `acc`.
pub open spec fn str_body(s: Seq<char>, p: int, acc: Seq<char>) -> Option<(Seq<char>, int)>
    decreases s.len() - p,
{
    if p < 0 || p >= s.len() {
        None
    } else if s[p] == '\'' {
        if p + 1 < s.len() && s[p + 1] == '\'' {
            str_body(s, p + 2, acc.push('\''))
        } else {
            Some((acc, p + 1))
        }
    } else {
        str_body(s, p + 1, acc.push(s[p]))
    }
}

/// A string literal starting at the quote at `p`.
pub open spec fn str_lit(s: Seq<char>, p: int) -> Result<(ExprV, int), Seq<char>> {
    match str_body(s, p + 1, Seq::empty()) {
        Some((b, q)) => Ok((ExprV::Lit(LiteralV::Str(b)), q)),
        None => Err("unterminated string literal"@),
    }
}

/// A numeric literal starting at the digit at `p`: digits, optionally `.` and at least one
/// digit. An integer literal must fit in a signed 64-bit integer.
pub open spec fn num_lit(s: Seq<char>, p: int) -> Result<(ExprV, int), Seq<char>> {
    let d1 = digit_end(s, p);
    if d1 < s.len() && s[d1] == '.' {
        let d2 = digit_end(s, d1 + 1);
        if d2 == d1 + 1 {
            Err(message_at("expected digit after decimal point"@, s, d1 + 1))
        } else {
            Ok((ExprV::Lit(LiteralV::Float(s.subrange(p, d2))), d2))
        }
    } else {
        let v = digits_value(s.subrange(p, d1));
        if v <= i64::MAX {
            Ok((ExprV::Lit(LiteralV::Int(v)), d1))
        } else {
            Err("invalid integer: number too large to fit in target type"@)
        }
    }
}

/// A comparison operator at `p`, two-character ones first.
pub open spec fn comp_op(s: Seq<char>, p: int) -> Option<(BinaryOp, int)> {
    let c0 = if 0 <= p < s.len() { Some(s[p]) } else { None };
    let c1 = if 0 <= p + 1 < s.len() { Some(s[p + 1]) } else { None };
    if c0 == Some('<') && c1 == Some('=') {
        Some((BinaryOp::LtEq, p + 2))
    } else if c0 == Some('>') && c1 == Some('=') {
        Some((BinaryOp::GtEq, p + 2))
    } else if c0 == Some('<') && c1 == Some('>') {
        Some((BinaryOp::Neq, p + 2))
    } else if c0 == Some('!') && c1 == Some('=') {
        Some((BinaryOp::Neq, p + 2))
    } else if c0 == Some('=') && c1 == Some('=') {
        Some((BinaryOp::Eq, p + 2))
    } else if c0 == Some('=') {
        Some((BinaryOp::Eq, p + 1))
    } else if c0 == Some('<') {
        Some((BinaryOp::Lt, p + 1))
    } else if c0 == Some('>') {
        Some((BinaryOp::Gt, p + 1))
    } else {
        None
    }
}

/// Unicode whitespace (the `White_Space` property).
pub open spec fn is_unicode_ws(c: char) -> bool {
    let u = c as u32;
    (0x9 <= u <= 0xD) || u == 0x20 || u == 0x85 || u == 0xA0 || u == 0x1680 || (0x2000 <= u
        <= 0x200A) || u == 0x2028 || u == 0x2029 || u == 0x202F || u == 0x205F || u == 0x3000
}

/// The end of the raw text of a type name scanned from `p` at bracket depth `depth`:
/// the end of input, or a `)`/`>` at depth zero, or a `,` at depth zero.
pub open spec fn type_end(s: Seq<char>, p: int, depth: nat) -> int
    decreases s.len() - p,
{
    if p < 0 || p >= s.len() {
        p
    } else if s[p] == '(' || s[p] == '<' {
        type_end(s, p + 1, depth + 1)
    } else if s[p] == ')' || s[p] == '>' {
        if depth == 0 {
            p
        } else {
            type_end(s, p + 1, (depth - 1) as nat)
        }
    } else if s[p] == ',' && depth == 0 {
        p
    } else {
        type_end(s, p + 1, depth)
    }
}

/// `t` without leading Unicode whitespace.
pub open spec fn trim_start(t: Seq<char>) -> Seq<char>
    decreases t.len(),
{
    if t.len() > 0 && is_unicode_ws(t[0]) {
        trim_start(t.subrange(1, t.len() as int))
    } else {
        t
    }
}

/// `t` without trailing Unicode whitespace.
pub open spec fn trim_end(t: Seq<char>) -> Seq<char>
    decreases t.len(),
{
    if t.len() > 0 && is_unicode_ws(t.last()) {
        trim_end(t.drop_last())
    } else {
        t
    }
}

/// A type name after optional whitespace at `p`: its trimmed text and the position after it.
pub open spec fn type_text(s: Seq<char>, p: int) -> Result<(Seq<char>, int), Seq<char>> {
    let q = ws_end(s, p);
    let e = type_end(s, q, 0);
    let t = trim_end(trim_start(s.subrange(q, e)));
    if t.len() == 0 {
        Err(message_at("expected type name"@, s, e))
    } else {
        Ok((t, e))
    }
}

pub proof fn lemma_ws_end(s: Seq<char>, p: int)
    requires
        0 <= p <= s.len(),
    ensures
        p <= ws_end(s, p) <= s.len(),
        ws_end(s, p) < s.len() ==> !is_ws(s[ws_end(s, p)]),
    decreases s.len() - p,
{
    if p < s.len() && is_ws(s[p]) {
        lemma_ws_end(s, p + 1);
    }
}

pub proof fn lemma_word_end(s: Seq<char>, p: int)
    requires
        0 <= p <= s.len(),
    ensures
        p <= word_end(s, p) <= s.len(),
    decreases s.len() - p,
{
    if p < s.len() && is_word(s[p]) {
        lemma_word_end(s, p + 1);
    }
}

pub proof fn lemma_digit_end(s: Seq<char>, p: int)
    requires
        0 <= p <= s.len(),
    ensures
        p <= digit_end(s, p) <= s.len(),
    decreases s.len() - p,
{
    if p < s.len() && is_digit(s[p]) {
        lemma_digit_end(s, p + 1);
    }
}

pub proof fn lemma_tick_end(s: Seq<char>, p: int)
    requires
        0 <= p <= s.len(),
    ensures
        p <= tick_end(s, p) <= s.len(),
    decreases s.len() - p,
{
    if p < s.len() && s[p] != '`' {
        lemma_tick_end(s, p + 1);
    }
}

pub proof fn lemma_type_end(s: Seq<char>, p: int, depth: nat)
    requires
        0 <= p <= s.len(),
    ensures
        p <= type_end(s, p, depth) <= s.len(),
    decreases s.len() - p,
{
    if p < s.len() {
        if s[p] == '(' || s[p] == '<' {
            lemma_type_end(s, p + 1, depth + 1);
        } else if s[p] == ')' || s[p] == '>' {
            if depth != 0 {
                lemma_type_end(s, p + 1, (depth - 1) as nat);
            }
        } else if !(s[p] == ',' && depth == 0) {
            lemma_type_end(s, p + 1, depth);
        }
    }
}

pub proof fn lemma_str_body(s: Seq<char>, p: int, acc: Seq<char>)
    requires
        0 <= p,
    ensures
        str_body(s, p, acc) matches Some((_, q)) ==> p < q <= s.len(),
    decreases s.len() - p,
{
    if 0 <= p < s.len() {
        if s[p] == '\'' {
            if p + 1 < s.len() && s[p + 1] == '\'' {
                lemma_str_body(s, p + 2, acc.push('\''));
            }
        } else {
            lemma_str_body(s, p + 1, acc.push(s[p]));
        }
    }
}

// ── Recursive rules ──────────────────────────────────────────────
//
// Each rule is measured by (remaining length, rank); a rule only calls rules of
// lower rank at the same position, or any rule further on. A result that would
// move backwards, or past the end, is rejected, which never happens.

/// Is `q` a position in `s` at or after `p`?
pub open spec fn fwd(s: Seq<char>, p: int, q: int) -> bool {
    p <= q <= s.len()
}

/// expression := or_expr [AS identifier]
#[verifier::opaque]
pub open spec fn sp_expression(s: Seq<char>, p: int) -> Result<(ExprV, int), Seq<char>>
    decreases s.len() - p, 30int,
{
    if p < 0 || p > s.len() {
        Err(Seq::empty())
    } else {
        match sp_or(s, p) {
            Ok((e, p1)) => if !fwd(s, p, p1) {
                Err(Seq::empty())
            } else {
                let q = ws_end(s, p1);
                if kw_at(s, q, "AS"@) {
                    match ident(s, after_kw(s, q, "AS"@)) {
                        Ok((a, p2)) => Ok((ExprV::Alias { expr: Box::new(e), alias: a }, p2)),
                        Err(m) => Err(m),
                    }
                } else {
                    Ok((e, q))
                }
            },
            Err(m) => Err(m),
        }
    }
}

/// or_expr := and_expr (OR and_expr)*
#[verifier::opaque]
pub open spec fn sp_or(s: Seq<char>, p: int) -> Result<(ExprV, int), Seq<char>>
    decreases s.len() - p, 28int,
{
    if p < 0 || p > s.len() {
        Err(Seq::empty())
    } else {
        match sp_and(s, p) {
            Ok((e, p1)) => if !fwd(s, p, p1) {
                Err(Seq::empty())
            } else {
                sp_or_rest(s, p1, e)
            },
            Err(m) => Err(m),
        }
    }
}

#[verifier::opaque]
pub open spec fn sp_or_rest(s: Seq<char>, p: int, left: ExprV) -> Result<(ExprV, int), Seq<char>>
    decreases s.len() - p, 27int,
{
    if p < 0 || p > s.len() {
        Err(Seq::empty())
    } else {
        let q = ws_end(s, p);
        if kw_at(s, q, "OR"@) {
            let r = after_kw(s, q, "OR"@);
            proof {
                lemma_ws_end(s, p);
                lemma_ws_end(s, q + "OR"@.len());
            }
            match sp_and(s, r) {
                Ok((rt, p2)) => if !fwd(s, r, p2) {
                    Err(Seq::empty())
                } else {
                    sp_or_rest(s, p2, ExprV::Bin { left: Box::new(left), op: BinaryOp::Or, right: Box::new(rt) })
                },
                Err(m) => Err(m),
            }
        } else {
            Ok((left, q))
        }
    }
}

/// and_expr := not_expr (AND not_expr)*
#[verifier::opaque]
pub open spec fn sp_and(s: Seq<char>, p: int) -> Result<(ExprV, int), Seq<char>>
    decreases s.len() - p, 26int,
{
    if p < 0 || p > s.len() {
        Err(Seq::empty())
    } else {
        match sp_not(s, p) {
            Ok((e, p1)) => if !fwd(s, p, p1) {
                Err(Seq::empty())
            } else {
                sp_and_rest(s, p1, e)
            },
            Err(m) => Err(m),
        }
    }
}

#[verifier::opaque]
pub open spec fn sp_and_rest(s: Seq<char>, p: int, left: ExprV) -> Result<(ExprV, int), Seq<char>>
    decreases s.len() - p, 25int,
{
    if p < 0 || p > s.len() {
        Err(Seq::empty())
    } else {
        let q = ws_end(s, p);
        if kw_at(s, q, "AND"@) {
            let r = after_kw(s, q, "AND"@);
            proof {
                lemma_ws_end(s, p);
                lemma_ws_end(s, q + "AND"@.len());
            }
            match sp_not(s, r) {
                Ok((rt, p2)) => if !fwd(s, r, p2) {
                    Err(Seq::empty())
                } else {
                    sp_and_rest(s, p2, ExprV::Bin { left: Box::new(left), op: BinaryOp::And, right: Box::new(rt) })
                },
                Err(m) => Err(m),
            }
        } else {
            Ok((left, q))
        }
    }
}

/// not_expr := NOT comparison | comparison
#[verifier::opaque]
pub open spec fn sp_not(s: Seq<char>, p: int) -> Result<(ExprV, int), Seq<char>>
    decreases s.len() - p, 24int,
{
    if p < 0 || p > s.len() {
        Err(Seq::empty())
    } else {
        let q = ws_end(s, p);
        proof {
            lemma_ws_end(s, p);
        }
        if kw_at(s, q, "NOT"@) {
            let r = after_kw(s, q, "NOT"@);
            proof {
                lemma_ws_end(s, q + "NOT"@.len());
            }
            match sp_comparison(s, r) {
                Ok((e, p1)) => Ok((ExprV::Un { op: UnaryOp::Not, expr: Box::new(e) }, p1)),
                Err(m) => Err(m),
            }
        } else {
            sp_comparison(s, q)
        }
    }
}

/// comparison := addition comparison-tail
#[verifier::opaque]
pub open spec fn sp_comparison(s: Seq<char>, p: int) -> Result<(ExprV, int), Seq<char>>
    decreases s.len() - p, 23int,
{
    if p < 0 || p > s.len() {
        Err(Seq::empty())
    } else {
        match sp_addition(s, p) {
            Ok((left, p1)) => if !fwd(s, p, p1) {
                Err(Seq::empty())
            } else {
                proof {
                    lemma_ws_end(s, p1);
                }
                sp_comp_tail(s, ws_end(s, p1), left)
            },
            Err(m) => Err(m),
        }
    }
}

/// comparison-tail := IS [NOT] NULL | [NOT] IN (list) | [NOT] BETWEEN addition AND addition
///                  | [NOT] LIKE primary | comp_op addition | nothing
#[verifier::opaque]
pub open spec fn sp_comp_tail(s: Seq<char>, q: int, left: ExprV) -> Result<(ExprV, int), Seq<char>>
    decreases s.len() - q, 22int,
{
    if q < 0 || q > s.len() {
        Err(Seq::empty())
    } else if kw_at(s, q, "IS"@) {
        let r = after_kw(s, q, "IS"@);
        let neg = kw_at(s, r, "NOT"@);
        let r2 = if neg { after_kw(s, r, "NOT"@) } else { r };
        if kw_at(s, r2, "NULL"@) {
            Ok((ExprV::IsNull { expr: Box::new(left), negated: neg }, r2 + "NULL"@.len()))
        } else {
            Err(message_at("expected NULL after IS"@, s, r2))
        }
    } else {
        let neg = kw_at(s, q, "NOT"@);
        let r = if neg { after_kw(s, q, "NOT"@) } else { q };
        proof {
            if neg {
                lemma_ws_end(s, q + "NOT"@.len());
            }
        }
        if kw_at(s, r, "IN"@) {
            sp_in(s, r, left, neg)
        } else if kw_at(s, r, "BETWEEN"@) {
            sp_between(s, r, left, neg)
        } else if kw_at(s, r, "LIKE"@) {
            let t = after_kw(s, r, "LIKE"@);
            proof {
                lemma_ws_end(s, r + "LIKE"@.len());
            }
            match sp_primary(s, t) {
                Ok((pat, p2)) => Ok((ExprV::Like { expr: Box::new(left), pattern: Box::new(pat), negated: neg }, p2)),
                Err(m) => Err(m),
            }
        } else {
            match comp_op(s, q) {
                Some((op, q2)) => {
                    let t = ws_end(s, q2);
                    proof {
                        lemma_ws_end(s, q2);
                    }
                    match sp_addition(s, t) {
                        Ok((rt, p2)) => Ok((ExprV::Bin { left: Box::new(left), op, right: Box::new(rt) }, p2)),
                        Err(m) => Err(m),
                    }
                },
                None => Ok((left, q)),
            }
        }
    }
}

/// `IN ( list )` at `r`.
#[verifier::opaque]
pub open spec fn sp_in(s: Seq<char>, r: int, left: ExprV, neg: bool) -> Result<(ExprV, int), Seq<char>>
    decreases s.len() - r, 21int,
{
    if !kw_at(s, r, "IN"@) {
        Err(message_at("expected IN"@, s, r))
    } else {
        proof {
            lemma_ws_end(s, r + "IN"@.len());
        }
        match expect(s, after_kw(s, r, "IN"@), '(') {
            Ok(u) => {
                proof {
                    lemma_ws_end(s, after_kw(s, r, "IN"@));
                }
                match sp_list(s, u) {
                    Ok((lst, v)) => match expect(s, v, ')') {
                        Ok(w) => Ok((ExprV::InList { expr: Box::new(left), list: lst, negated: neg }, w)),
                        Err(m) => Err(m),
                    },
                    Err(m) => Err(m),
                }
            },
            Err(m) => Err(m),
        }
    }
}

/// `BETWEEN addition AND addition` at `r`.
#[verifier::opaque]
pub open spec fn sp_between(s: Seq<char>, r: int, left: ExprV, neg: bool) -> Result<(ExprV, int), Seq<char>>
    decreases s.len() - r, 21int,
{
    if !kw_at(s, r, "BETWEEN"@) {
        Err(message_at("expected BETWEEN"@, s, r))
    } else {
        let t = after_kw(s, r, "BETWEEN"@);
        proof {
            lemma_ws_end(s, r + "BETWEEN"@.len());
        }
        match sp_addition(s, t) {
            Ok((lo, p2)) => if !fwd(s, t, p2) {
                Err(Seq::empty())
            } else {
                let q2 = ws_end(s, p2);
                if kw_at(s, q2, "AND"@) {
                    let t2 = after_kw(s, q2, "AND"@);
                    proof {
                        lemma_ws_end(s, p2);
                        lemma_ws_end(s, q2 + "AND"@.len());
                    }
                    match sp_addition(s, t2) {
                        Ok((hi, p3)) => Ok((ExprV::Between {
                            expr: Box::new(left),
                            low: Box::new(lo),
                            high: Box::new(hi),
                            negated: neg,
                        }, p3)),
                        Err(m) => Err(m),
                    }
                } else {
                    Err(message_at("expected AND in BETWEEN"@, s, q2))
                }
            },
            Err(m) => Err(m),
        }
    }
}

/// addition := multiplication (('+' | '-') multiplication)*
#[verifier::opaque]
pub open spec fn sp_addition(s: Seq<char>, p: int) -> Result<(ExprV, int), Seq<char>>
    decreases s.len() - p, 22int,
{
    if p < 0 || p > s.len() {
        Err(Seq::empty())
    } else {
        match sp_mult(s, p) {
            Ok((e, p1)) => if !fwd(s, p, p1) {
                Err(Seq::empty())
            } else {
                sp_add_rest(s, p1, e)
            },
            Err(m) => Err(m),
        }
    }
}

#[verifier::opaque]
pub open spec fn sp_add_rest(s: Seq<char>, p: int, left: ExprV) -> Result<(ExprV, int), Seq<char>>
    decreases s.len() - p, 21int,
{
    if p < 0 || p > s.len() {
        Err(Seq::empty())
    } else {
        let q = ws_end(s, p);
        proof {
            lemma_ws_end(s, p);
        }
        if q < s.len() && (s[q] == '+' || s[q] == '-') {
            let op = if s[q] == '+' { BinaryOp::Add } else { BinaryOp::Sub };
            let r = ws_end(s, q + 1);
            proof {
                lemma_ws_end(s, q + 1);
            }
            match sp_mult(s, r) {
                Ok((rt, p2)) => if !fwd(s, r, p2) {
                    Err(Seq::empty())
                } else {
                    sp_add_rest(s, p2, ExprV::Bin { left: Box::new(left), op, right: Box::new(rt) })
                },
                Err(m) => Err(m),
            }
        } else {
            Ok((left, q))
        }
    }
}

/// multiplication := unary (('*' | '/' | '%') unary)*
#[verifier::opaque]
pub open spec fn sp_mult(s: Seq<char>, p: int) -> Result<(ExprV, int), Seq<char>>
    decreases s.len() - p, 20int,
{
    if p < 0 || p > s.len() {
        Err(Seq::empty())
    } else {
        match sp_unary(s, p) {
            Ok((e, p1)) => if !fwd(s, p, p1) {
                Err(Seq::empty())
            } else {
                sp_mult_rest(s, p1, e)
            },
            Err(m) => Err(m),
        }
    }
}

#[verifier::opaque]
pub open spec fn sp_mult_rest(s: Seq<char>, p: int, left: ExprV) -> Result<(ExprV, int), Seq<char>>
    decreases s.len() - p, 19int,
{
    if p < 0 || p > s.len() {
        Err(Seq::empty())
    } else {
        let q = ws_end(s, p);
        proof {
            lemma_ws_end(s, p);
        }
        if q < s.len() && (s[q] == '*' || s[q] == '/' || s[q] == '%') {
            let op = if s[q] == '*' {
                BinaryOp::Mul
            } else if s[q] == '/' {
                BinaryOp::Div
            } else {
                BinaryOp::Mod
            };
            let r = ws_end(s, q + 1);
            proof {
                lemma_ws_end(s, q + 1);
            }
            match sp_unary(s, r) {
                Ok((rt, p2)) => if !fwd(s, r, p2) {
                    Err(Seq::empty())
                } else {
                    sp_mult_rest(s, p2, ExprV::Bin { left: Box::new(left), op, right: Box::new(rt) })
                },
                Err(m) => Err(m),
            }
        } else {
            Ok((left, q))
        }
    }
}

/// unary := '-' primary | primary
#[verifier::opaque]
pub open spec fn sp_unary(s: Seq<char>, p: int) -> Result<(ExprV, int), Seq<char>>
    decreases s.len() - p, 18int,
{
    if p < 0 || p > s.len() {
        Err(Seq::empty())
    } else {
        let q = ws_end(s, p);
        proof {
            lemma_ws_end(s, p);
        }
        if q < s.len() && s[q] == '-' {
            let r = ws_end(s, q + 1);
            proof {
                lemma_ws_end(s, q + 1);
            }
            match sp_primary(s, r) {
                Ok((e, p1)) => Ok((ExprV::Un { op: UnaryOp::Neg, expr: Box::new(e) }, p1)),
                Err(m) => Err(m),
            }
        } else {
            sp_primary(s, q)
        }
    }
}

/// primary := string | '(' expression ')' | backtick-name | number | word-form | '*'
#[verifier::opaque]
pub open spec fn sp_primary(s: Seq<char>, p: int) -> Result<(ExprV, int), Seq<char>>
    decreases s.len() - p, 17int,
{
    if p < 0 || p > s.len() {
        Err(Seq::empty())
    } else {
        let q = ws_end(s, p);
        proof {
            lemma_ws_end(s, p);
        }
        if q >= s.len() {
            Err("unexpected end of input"@)
        } else if s[q] == '\'' {
            str_lit(s, q)
        } else if s[q] == '(' {
            sp_paren(s, q)
        } else if s[q] == '`' {
            match backtick(s, q) {
                Ok((n, q1)) => Ok((ExprV::Col { table: None, column: n }, q1)),
                Err(m) => Err(m),
            }
        } else if is_digit(s[q]) {
            num_lit(s, q)
        } else if is_alpha(s[q]) || s[q] == '_' {
            sp_word(s, q)
        } else if s[q] == '*' {
            Ok((ExprV::Wildcard, q + 1))
        } else {
            Err(message_at("unexpected character '"@ + seq![s[q]] + "'"@, s, q))
        }
    }
}

/// paren := '(' expression ')'
#[verifier::opaque]
pub open spec fn sp_paren(s: Seq<char>, p: int) -> Result<(ExprV, int), Seq<char>>
    decreases s.len() - p, 16int,
{
    if p < 0 || p >= s.len() {
        Err(Seq::empty())
    } else {
        let r = ws_end(s, p + 1);
        proof {
            lemma_ws_end(s, p + 1);
        }
        match sp_expression(s, r) {
            Ok((e, p1)) => match expect(s, p1, ')') {
                Ok(p2) => Ok((e, p2)),
                Err(m) => Err(m),
            },
            Err(m) => Err(m),
        }
    }
}

/// word-form := NULL | TRUE | FALSE | case | cast
///            | identifier '(' ( '*' ')' | ')' | [DISTINCT] list ')' )
///            | identifier '.' identifier | identifier
#[verifier::opaque]
pub open spec fn sp_word(s: Seq<char>, p: int) -> Result<(ExprV, int), Seq<char>>
    decreases s.len() - p, 15int,
{
    if p < 0 || p > s.len() {
        Err(Seq::empty())
    } else if kw_at(s, p, "NULL"@) {
        Ok((ExprV::Lit(LiteralV::Null), p + "NULL"@.len()))
    } else if kw_at(s, p, "TRUE"@) {
        Ok((ExprV::Lit(LiteralV::Bool(true)), p + "TRUE"@.len()))
    } else if kw_at(s, p, "FALSE"@) {
        Ok((ExprV::Lit(LiteralV::Bool(false)), p + "FALSE"@.len()))
    } else if kw_at(s, p, "CASE"@) {
        sp_case(s, p)
    } else if kw_at(s, p, "CAST"@) {
        sp_cast(s, p)
    } else {
        match ident(s, p) {
            Ok((name, p1)) => if !fwd(s, p, p1) {
                Err(Seq::empty())
            } else {
                let q = ws_end(s, p1);
                proof {
                    lemma_ws_end(s, p1);
                }
                if q < s.len() && s[q] == '(' {
                    let r = ws_end(s, q + 1);
                    proof {
                        lemma_ws_end(s, q + 1);
                    }
                    if r < s.len() && s[r] == '*' {
                        match expect(s, r + 1, ')') {
                            Ok(t) => Ok((ExprV::Call { name, args: seq![ExprV::Wildcard], distinct: false }, t)),
                            Err(m) => Err(m),
                        }
                    } else if r < s.len() && s[r] == ')' {
                        Ok((ExprV::Call { name, args: Seq::empty(), distinct: false }, r + 1))
                    } else {
                        let distinct = kw_at(s, r, "DISTINCT"@);
                        let r2 = if distinct { after_kw(s, r, "DISTINCT"@) } else { r };
                        proof {
                            if distinct {
                                lemma_ws_end(s, r + "DISTINCT"@.len());
                            }
                        }
                        match sp_list(s, r2) {
                            Ok((args, p3)) => match expect(s, p3, ')') {
                                Ok(p4) => Ok((ExprV::Call { name, args, distinct }, p4)),
                                Err(m) => Err(m),
                            },
                            Err(m) => Err(m),
                        }
                    }
                } else if q < s.len() && s[q] == '.' {
                    match ident(s, q + 1) {
                        Ok((col, p2)) => Ok((ExprV::Col { table: Some(name), column: col }, p2)),
                        Err(m) => Err(m),
                    }
                } else {
                    Ok((ExprV::Col { table: None, column: name }, q))
                }
            },
            Err(m) => Err(m),
        }
    }
}

/// case := CASE (WHEN expression THEN expression)* [ELSE expression] END
#[verifier::opaque]
pub open spec fn sp_case(s: Seq<char>, p: int) -> Result<(ExprV, int), Seq<char>>
    decreases s.len() - p, 14int,
{
    if !kw_at(s, p, "CASE"@) {
        Err(message_at("expected CASE"@, s, p))
    } else {
        let q = after_kw(s, p, "CASE"@);
        proof {
            lemma_ws_end(s, p + "CASE"@.len());
        }
        match sp_whens(s, q, Seq::empty()) {
            Ok((whens, w)) => if !fwd(s, q, w) {
                Err(Seq::empty())
            } else if kw_at(s, w, "ELSE"@) {
                let r = after_kw(s, w, "ELSE"@);
                proof {
                    lemma_ws_end(s, w + "ELSE"@.len());
                }
                match sp_expression(s, r) {
                    Ok((e, p3)) => if !fwd(s, r, p3) {
                        Err(Seq::empty())
                    } else {
                        let q3 = ws_end(s, p3);
                        if kw_at(s, q3, "END"@) {
                            Ok((ExprV::Case { whens, otherwise: Some(Box::new(e)) }, q3 + "END"@.len()))
                        } else {
                            Err(message_at("expected END"@, s, q3))
                        }
                    },
                    Err(m) => Err(m),
                }
            } else {
                let q3 = ws_end(s, w);
                if kw_at(s, q3, "END"@) {
                    Ok((ExprV::Case { whens, otherwise: None }, q3 + "END"@.len()))
                } else {
                    Err(message_at("expected END"@, s, q3))
                }
            },
            Err(m) => Err(m),
        }
    }
}

/// The `WHEN c THEN v` clauses from `p`, after the clauses `acc`.
#[verifier::opaque]
pub open spec fn sp_whens(s: Seq<char>, p: int, acc: Seq<(ExprV, ExprV)>) -> Result<(Seq<(ExprV, ExprV)>, int), Seq<char>>
    decreases s.len() - p, 13int,
{
    if p < 0 || p > s.len() {
        Err(Seq::empty())
    } else if kw_at(s, p, "WHEN"@) {
        let r = after_kw(s, p, "WHEN"@);
        proof {
            lemma_ws_end(s, p + "WHEN"@.len());
        }
        match sp_expression(s, r) {
            Ok((c, p1)) => if !fwd(s, r, p1) {
                Err(Seq::empty())
            } else {
                let q = ws_end(s, p1);
                if kw_at(s, q, "THEN"@) {
                    let t = after_kw(s, q, "THEN"@);
                    proof {
                        lemma_ws_end(s, p1);
                        lemma_ws_end(s, q + "THEN"@.len());
                    }
                    match sp_expression(s, t) {
                        Ok((v, p2)) => if !fwd(s, t, p2) {
                            Err(Seq::empty())
                        } else {
                            proof {
                                lemma_ws_end(s, p2);
                            }
                            sp_whens(s, ws_end(s, p2), acc.push((c, v)))
                        },
                        Err(m) => Err(m),
                    }
                } else {
                    Err(message_at("expected THEN"@, s, q))
                }
            },
            Err(m) => Err(m),
        }
    } else {
        Ok((acc, p))
    }
}

/// cast := CAST '(' or_expr AS type-name ')'
#[verifier::opaque]
pub open spec fn sp_cast(s: Seq<char>, p: int) -> Result<(ExprV, int), Seq<char>>
    decreases s.len() - p, 14int,
{
    if !kw_at(s, p, "CAST"@) {
        Err(message_at("expected CAST"@, s, p))
    } else {
        let q = after_kw(s, p, "CAST"@);
        proof {
            lemma_ws_end(s, p + "CAST"@.len());
        }
        match expect(s, q, '(') {
            Ok(u) => {
                let v = ws_end(s, u);
                proof {
                    lemma_ws_end(s, q);
                    lemma_ws_end(s, u);
                }
                match sp_or(s, v) {
                    Ok((e, p1)) => {
                        let q1 = ws_end(s, p1);
                        if kw_at(s, q1, "AS"@) {
                            match type_text(s, after_kw(s, q1, "AS"@)) {
                                Ok((ty, p2)) => match expect(s, p2, ')') {
                                    Ok(p3) => Ok((ExprV::Cast { expr: Box::new(e), data_type: ty }, p3)),
                                    Err(m) => Err(m),
                                },
                                Err(m) => Err(m),
                            }
                        } else {
                            Err(message_at("expected AS in CAST"@, s, q1))
                        }
                    },
                    Err(m) => Err(m),
                }
            },
            Err(m) => Err(m),
        }
    }
}

/// list := expression (',' expression)*
#[verifier::opaque]
pub open spec fn sp_list(s: Seq<char>, p: int) -> Result<(Seq<ExprV>, int), Seq<char>>
    decreases s.len() - p, 31int,
{
    if p < 0 || p > s.len() {
        Err(Seq::empty())
    } else {
        match sp_expression(s, p) {
            Ok((e, p1)) => if !fwd(s, p, p1) {
                Err(Seq::empty())
            } else {
                sp_list_rest(s, p1, seq![e])
            },
            Err(m) => Err(m),
        }
    }
}

#[verifier::opaque]
pub open spec fn sp_list_rest(s: Seq<char>, p: int, acc: Seq<ExprV>) -> Result<(Seq<ExprV>, int), Seq<char>>
    decreases s.len() - p, 29int,
{
    if p < 0 || p > s.len() {
        Err(Seq::empty())
    } else {
        let q = ws_end(s, p);
        proof {
            lemma_ws_end(s, p);
        }
        if q < s.len() && s[q] == ',' {
            let r = ws_end(s, q + 1);
            proof {
                lemma_ws_end(s, q + 1);
            }
            match sp_expression(s, r) {
                Ok((e, p2)) => if !fwd(s, r, p2) {
                    Err(Seq::empty())
                } else {
                    sp_list_rest(s, p2, acc.push(e))
                },
                Err(m) => Err(m),
            }
        } else {
            Ok((acc, q))
        }
    }
}

/// A whole text is an expression, with nothing but whitespace after it; otherwise the
/// message of the first failure.
pub open spec fn parse_spec(s: Seq<char>) -> Result<ExprV, Seq<char>> {
    match sp_expression(s, 0) {
        Ok((e, p)) => if ws_end(s, p) < s.len() {
            let q = ws_end(s, p);
            Err("unexpected trailing input at position "@ + decimal_text(byte_offset(s, q)) + ": '"@
                + s.subrange(q, s.len() as int) + "'"@)
        } else {
            Ok(e)
        },
        Err(m) => Err(m),
    }
}

} // verus!
