//! Substitution of `${NAME}` and `${NAME:default}` placeholders in raw document text.
use vstd::prelude::*;
use crate::error::{TeckelError, TeckelErrorCode, is_spec_error};
use crate::text::{chars_of, compare_text, push_char, push_str, string_of_range};

verus! {

/// What stands for an escaped `$$` while placeholders are resolved.
pub open spec fn dollar_mark() -> Seq<char> {
    seq!['\0', 'D', 'O', 'L', 'L', 'A', 'R', '\0']
}

/// `s` with each `$$`, from the left, replaced by the mark.
pub open spec fn escape_dollars(s: Seq<char>) -> Seq<char>
    decreases s.len(),
{
    if s.len() == 0 {
        Seq::empty()
    } else if s.len() >= 2 && s[0] == '$' && s[1] == '$' {
        dollar_mark() + escape_dollars(s.subrange(2, s.len() as int))
    } else {
        seq![s[0]] + escape_dollars(s.drop_first())
    }
}

/// `s` with each mark, from the left, replaced by `$`.
pub open spec fn unescape_dollars(s: Seq<char>) -> Seq<char>
    decreases s.len(),
{
    if s.len() == 0 {
        Seq::empty()
    } else if s.len() >= 8 && s.subrange(0, 8) == dollar_mark() {
        seq!['$'] + unescape_dollars(s.subrange(8, s.len() as int))
    } else {
        seq![s[0]] + unescape_dollars(s.drop_first())
    }
}

/// The first position at or after `p` that holds `}` or `:`, or the end.
pub open spec fn name_end(t: Seq<char>, p: int) -> int
    decreases t.len() - p,
{
    if 0 <= p < t.len() && t[p] != '}' && t[p] != ':' {
        name_end(t, p + 1)
    } else {
        p
    }
}

/// The first position at or after `p` that holds `}`, or the end.
pub open spec fn brace_end(t: Seq<char>, p: int) -> int
    decreases t.len() - p,
{
    if 0 <= p < t.len() && t[p] != '}' {
        brace_end(t, p + 1)
    } else {
        p
    }
}

/// A placeholder `${name}` or `${name:default}` at `p`: its name, its default, and the
/// position after it.
pub open spec fn placeholder_at(t: Seq<char>, p: int) -> Option<(Seq<char>, Option<Seq<char>>, int)> {
    if 0 <= p && p + 1 < t.len() && t[p] == '$' && t[p + 1] == '{' {
        let q = name_end(t, p + 2);
        if q > p + 2 && q < t.len() {
            if t[q] == '}' {
                Some((t.subrange(p + 2, q), None, q + 1))
            } else {
                let r = brace_end(t, q + 1);
                if r < t.len() {
                    Some((t.subrange(p + 2, q), Some(t.subrange(q + 1, r)), r + 1))
                } else {
                    None
                }
            }
        } else {
            None
        }
    } else {
        None
    }
}

/// The value of the first entry of `m` with key `k`.
pub open spec fn find_value(m: Seq<(String, String)>, k: Seq<char>) -> Option<Seq<char>>
    decreases m.len(),
{
    if m.len() == 0 {
        None
    } else if m[0].0@ == k {
        Some(m[0].1@)
    } else {
        find_value(m.drop_first(), k)
    }
}

/// The value of placeholder `name`: from the variables, else the environment, else the default.
pub open spec fn resolve_value(
    name: Seq<char>,
    default: Option<Seq<char>>,
    vars: Seq<(String, String)>,
    env: Seq<(String, String)>,
) -> Option<Seq<char>> {
    if find_value(vars, name) is Some {
        find_value(vars, name)
    } else if find_value(env, name) is Some {
        find_value(env, name)
    } else {
        default
    }
}

/// The text from `p` on with its placeholders resolved, or the first name that cannot be.
pub open spec fn resolve_from(t: Seq<char>, p: int, vars: Seq<(String, String)>, env: Seq<(String, String)>) -> Result<Seq<char>, Seq<char>>
    decreases t.len() - p,
{
    if p < 0 || p >= t.len() {
        Ok(Seq::empty())
    } else {
        match placeholder_at(t, p) {
            Some((name, default, e)) => if e <= p {
                Ok(Seq::empty())
            } else {
                match resolve_value(name, default, vars, env) {
                    Some(v) => match resolve_from(t, e, vars, env) {
                        Ok(rest) => Ok(v + rest),
                        Err(n) => Err(n),
                    },
                    None => Err(name),
                }
            },
            None => match resolve_from(t, p + 1, vars, env) {
                Ok(rest) => Ok(seq![t[p]] + rest),
                Err(n) => Err(n),
            },
        }
    }
}

pub open spec fn unresolved_message(name: Seq<char>) -> Seq<char> {
    "unresolved variable \""@ + name + "\" with no default"@
}

/// The result of substituting placeholders in `s`: `$$` stands for `$`; each `${NAME}` or
/// `${NAME:default}` takes the value of `NAME` among the variables, else in the environment,
/// else the default; otherwise the first such name is unresolved.
pub open spec fn substitution(s: Seq<char>, vars: Seq<(String, String)>, env: Seq<(String, String)>) -> Result<Seq<char>, Seq<char>> {
    match resolve_from(escape_dollars(s), 0, vars, env) {
        Ok(r) => Ok(unescape_dollars(r)),
        Err(n) => Err(n),
    }
}

proof fn lemma_name_end(t: Seq<char>, p: int)
    requires
        0 <= p <= t.len(),
    ensures
        p <= name_end(t, p) <= t.len(),
        forall|i: int| p <= i < name_end(t, p) ==> t[i] != '}' && t[i] != ':',
    decreases t.len() - p,
{
    if p < t.len() && t[p] != '}' && t[p] != ':' {
        lemma_name_end(t, p + 1);
    }
}

proof fn lemma_brace_end(t: Seq<char>, p: int)
    requires
        0 <= p <= t.len(),
    ensures
        p <= brace_end(t, p) <= t.len(),
    decreases t.len() - p,
{
    if p < t.len() && t[p] != '}' {
        lemma_brace_end(t, p + 1);
    }
}

fn escape(s: &Vec<char>) -> (r: Vec<char>)
    ensures
        r@ == escape_dollars(s@),
{
    let mut r: Vec<char> = Vec::new();
    let mut i: usize = 0;
    assert(s@.subrange(0, s@.len() as int) =~= s@);
    assert(r@ + escape_dollars(s@) =~= escape_dollars(s@));
    while i < s.len()
        invariant
            i <= s@.len(),
            escape_dollars(s@) == r@ + escape_dollars(s@.subrange(i as int, s@.len() as int)),
        decreases s@.len() - i,
    {
        let ghost rest = s@.subrange(i as int, s@.len() as int);
        if i + 1 < s.len() && s[i] == '$' && s[i + 1] == '$' {
            assert(rest.subrange(2, rest.len() as int) =~= s@.subrange(i + 2, s@.len() as int));
            let ghost r0 = r@;
            r.push('\0');
            r.push('D');
            r.push('O');
            r.push('L');
            r.push('L');
            r.push('A');
            r.push('R');
            r.push('\0');
            assert(r@ =~= r0 + dollar_mark());
            assert(escape_dollars(rest) == dollar_mark() + escape_dollars(s@.subrange(i + 2, s@.len() as int)));
            i = i + 2;
        } else {
            assert(rest.drop_first() =~= s@.subrange(i + 1, s@.len() as int));
            assert(rest[0] == s@[i as int]);
            let ghost r0 = r@;
            r.push(s[i]);
            assert(r@ =~= r0 + seq![s@[i as int]]);
            i = i + 1;
        }
    }
    assert(s@.subrange(s@.len() as int, s@.len() as int) =~= Seq::<char>::empty());
    assert(r@ + Seq::<char>::empty() =~= r@);
    r
}

fn unescape(s: &Vec<char>) -> (r: String)
    ensures
        r@ == unescape_dollars(s@),
{
    let mut r = String::new();
    let mut i: usize = 0;
    assert(s@.subrange(0, s@.len() as int) =~= s@);
    assert(r@ + unescape_dollars(s@) =~= unescape_dollars(s@));
    while i < s.len()
        invariant
            i <= s@.len(),
            unescape_dollars(s@) == r@ + unescape_dollars(s@.subrange(i as int, s@.len() as int)),
        decreases s@.len() - i,
    {
        let ghost rest = s@.subrange(i as int, s@.len() as int);
        let is_mark = s.len() - i >= 8 && s[i] == '\0' && s[i + 1] == 'D' && s[i + 2] == 'O' && s[i + 3] == 'L'
            && s[i + 4] == 'L' && s[i + 5] == 'A' && s[i + 6] == 'R' && s[i + 7] == '\0';
        proof {
            if rest.len() >= 8 {
                if is_mark {
                    assert(rest.subrange(0, 8) =~= dollar_mark());
                } else {
                    assert(rest.subrange(0, 8) != dollar_mark()) by {
                        if rest.subrange(0, 8) == dollar_mark() {
                            assert(rest.subrange(0, 8)[0] == rest[0]);
                            assert(rest.subrange(0, 8)[1] == rest[1]);
                            assert(rest.subrange(0, 8)[2] == rest[2]);
                            assert(rest.subrange(0, 8)[3] == rest[3]);
                            assert(rest.subrange(0, 8)[4] == rest[4]);
                            assert(rest.subrange(0, 8)[5] == rest[5]);
                            assert(rest.subrange(0, 8)[6] == rest[6]);
                            assert(rest.subrange(0, 8)[7] == rest[7]);
                        }
                    }
                }
            }
        }
        if is_mark {
            assert(rest.subrange(8, rest.len() as int) =~= s@.subrange(i + 8, s@.len() as int));
            let ghost r0 = r@;
            push_char(&mut r, '$');
            assert(r@ =~= r0 + seq!['$']);
            i = i + 8;
        } else {
            assert(rest.drop_first() =~= s@.subrange(i + 1, s@.len() as int));
            assert(rest[0] == s@[i as int]);
            let ghost r0 = r@;
            push_char(&mut r, s[i]);
            assert(r@ =~= r0 + seq![s@[i as int]]);
            i = i + 1;
        }
    }
    assert(s@.subrange(s@.len() as int, s@.len() as int) =~= Seq::<char>::empty());
    assert(r@ + Seq::<char>::empty() =~= r@);
    r
}


fn scan_name_end(t: &Vec<char>, p: usize) -> (r: usize)
    requires
        p <= t@.len(),
    ensures
        r as int == name_end(t@, p as int),
        p <= r <= t@.len(),
{
    let mut i = p;
    while i < t.len() && t[i] != '}' && t[i] != ':'
        invariant
            p <= i <= t@.len(),
            name_end(t@, i as int) == name_end(t@, p as int),
        decreases t@.len() - i,
    {
        i = i + 1;
    }
    i
}

fn scan_brace_end(t: &Vec<char>, p: usize) -> (r: usize)
    requires
        p <= t@.len(),
    ensures
        r as int == brace_end(t@, p as int),
        p <= r <= t@.len(),
{
    let mut i = p;
    while i < t.len() && t[i] != '}'
        invariant
            p <= i <= t@.len(),
            brace_end(t@, i as int) == brace_end(t@, p as int),
        decreases t@.len() - i,
    {
        i = i + 1;
    }
    i
}

/// The placeholder at `p`: where its name starts and ends, where its default starts and
/// ends, and the position after it.
fn match_placeholder(t: &Vec<char>, p: usize) -> (r: Option<(usize, usize, Option<(usize, usize)>, usize)>)
    requires
        p < t@.len(),
    ensures
        match r {
            Some((a, b, d, e)) => {
                &&& a <= b <= t@.len()
                &&& p < e <= t@.len()
                &&& match d {
                    Some((c0, c1)) => c0 <= c1 <= t@.len() && placeholder_at(t@, p as int) == Some((
                        t@.subrange(a as int, b as int),
                        Some(t@.subrange(c0 as int, c1 as int)),
                        e as int,
                    )),
                    None => placeholder_at(t@, p as int) == Some((
                        t@.subrange(a as int, b as int),
                        None::<Seq<char>>,
                        e as int,
                    )),
                }
            },
            None => placeholder_at(t@, p as int) is None,
        },
{
    if !(t.len() - p >= 2 && t[p] == '$' && t[p + 1] == '{') {
        return None;
    }
    let q = scan_name_end(t, p + 2);
    if !(q > p + 2 && q < t.len()) {
        return None;
    }
    if t[q] == '}' {
        return Some((p + 2, q, None, q + 1));
    }
    let r = scan_brace_end(t, q + 1);
    if r < t.len() {
        Some((p + 2, q, Some((q + 1, r)), r + 1))
    } else {
        None
    }
}

/// The value of the first entry of `m` with key `k`.
pub(crate) fn lookup_value<'a>(m: &'a Vec<(String, String)>, k: &str) -> (r: Option<&'a String>)
    ensures
        match r {
            Some(v) => find_value(m@, k@) == Some(v@),
            None => find_value(m@, k@) is None,
        },
{
    let mut i: usize = 0;
    assert(m@.subrange(0, m@.len() as int) =~= m@);
    while i < m.len()
        invariant
            i <= m@.len(),
            find_value(m@, k@) == find_value(m@.subrange(i as int, m@.len() as int), k@),
        decreases m@.len() - i,
    {
        let ghost rest = m@.subrange(i as int, m@.len() as int);
        assert(rest[0] == m@[i as int]);
        if compare_text(m[i].0.as_str(), k) == 0 {
            return Some(&m[i].1);
        }
        assert(rest.drop_first() =~= m@.subrange(i + 1, m@.len() as int));
        i = i + 1;
    }
    None
}

/// A result with `acc` put in front of its text.
pub open spec fn prefixed(acc: Seq<char>, r: Result<Seq<char>, Seq<char>>) -> Result<Seq<char>, Seq<char>> {
    match r {
        Ok(x) => Ok(acc + x),
        Err(n) => Err(n),
    }
}

fn unresolved_error(name: &str) -> (e: TeckelError)
    ensures
        is_spec_error(e, TeckelErrorCode::EVar001, unresolved_message(name@)),
{
    let mut m = String::new();
    push_str(&mut m, "unresolved variable \"");
    push_str(&mut m, name);
    push_str(&mut m, "\" with no default");
    TeckelError::spec(TeckelErrorCode::EVar001, m)
}

/// Resolves the placeholders of the escaped text `t`.
fn resolve_all(t: &Vec<char>, variables: &Vec<(String, String)>, environment: &Vec<(String, String)>) -> (r: Result<Vec<char>, TeckelError>)
    ensures
        match resolve_from(t@, 0, variables@, environment@) {
            Ok(x) => r matches Ok(v) && v@ == x,
            Err(n) => r matches Err(e) && is_spec_error(e, TeckelErrorCode::EVar001, unresolved_message(n)),
        },
{
    let mut out: Vec<char> = Vec::new();
    let mut p: usize = 0;
    while p < t.len()
        invariant
            p <= t@.len(),
            resolve_from(t@, 0, variables@, environment@) == prefixed(out@, resolve_from(t@, p as int, variables@, environment@)),
        decreases t@.len() - p,
    {
        match match_placeholder(t, p) {
            Some((a, b, d, e)) => {
                let name = string_of_range(t, a, b);
                let value: String = match lookup_value(variables, name.as_str()) {
                    Some(v) => v.clone(),
                    None => match lookup_value(environment, name.as_str()) {
                        Some(v) => v.clone(),
                        None => match d {
                            Some((c0, c1)) => string_of_range(t, c0, c1),
                            None => {
                                return Err(unresolved_error(name.as_str()));
                            },
                        },
                    },
                };
                let vs = chars_of(value.as_str());
                let ghost o0 = out@;
                let mut k: usize = 0;
                while k < vs.len()
                    invariant
                        k <= vs@.len(),
                        out@ == o0 + vs@.subrange(0, k as int),
                    decreases vs@.len() - k,
                {
                    out.push(vs[k]);
                    assert(out@ =~= o0 + vs@.subrange(0, k + 1));
                    k = k + 1;
                }
                proof {
                    assert(vs@.subrange(0, vs@.len() as int) =~= vs@);
                    match resolve_from(t@, e as int, variables@, environment@) {
                        Ok(rest) => {
                            assert(o0 + (vs@ + rest) =~= out@ + rest);
                        },
                        Err(_) => {},
                    }
                }
                p = e;
            },
            None => {
                let ghost o0 = out@;
                out.push(t[p]);
                proof {
                    match resolve_from(t@, p + 1, variables@, environment@) {
                        Ok(rest) => {
                            assert(o0 + (seq![t@[p as int]] + rest) =~= out@ + rest);
                        },
                        Err(_) => {},
                    }
                }
                p = p + 1;
            },
        }
    }
    assert(out@ + Seq::<char>::empty() =~= out@);
    Ok(out)
}

/// Substitutes the placeholders of a document's text (single pass): `$$` stands for a
/// literal `$`; `${NAME}` and `${NAME:default}` take the value of `NAME` from `variables`,
/// else from `environment`, else the default; a name with none of these is `E-VAR-001`
/// (the first such name).
pub fn substitute(
    input: &str,
    variables: &Vec<(String, String)>,
    environment: &Vec<(String, String)>,
) -> (r: Result<String, TeckelError>)
    ensures
        match substitution(input@, variables@, environment@) {
            Ok(x) => r matches Ok(s) && s@ == x,
            Err(n) => r matches Err(e) && is_spec_error(e, TeckelErrorCode::EVar001, unresolved_message(n)),
        },
{
    let cs = chars_of(input);
    let t = escape(&cs);
    let resolved = match resolve_all(&t, variables, environment) {
        Ok(v) => v,
        Err(e) => return Err(e),
    };
    Ok(unescape(&resolved))
}

} // verus!

verus! {

proof fn lemma_escape_plain(s: Seq<char>)
    requires
        forall|i: int| 0 <= i < s.len() ==> s[i] != '$',
    ensures
        escape_dollars(s) == s,
    decreases s.len(),
{
    if s.len() > 0 {
        lemma_escape_plain(s.drop_first());
        assert(seq![s[0]] + s.drop_first() =~= s);
    }
}

proof fn lemma_unescape_plain(s: Seq<char>)
    requires
        forall|i: int| 0 <= i < s.len() ==> s[i] != '\0',
    ensures
        unescape_dollars(s) == s,
    decreases s.len(),
{
    if s.len() > 0 {
        if s.len() >= 8 {
            assert(s.subrange(0, 8)[0] != dollar_mark()[0]);
        }
        lemma_unescape_plain(s.drop_first());
        assert(seq![s[0]] + s.drop_first() =~= s);
    }
}

proof fn lemma_resolve_plain(t: Seq<char>, p: int, vars: Seq<(String, String)>, env: Seq<(String, String)>)
    requires
        0 <= p <= t.len(),
        forall|i: int| 0 <= i < t.len() ==> t[i] != '$',
    ensures
        resolve_from(t, p, vars, env) == Ok::<Seq<char>, Seq<char>>(t.subrange(p, t.len() as int)),
    decreases t.len() - p,
{
    if p < t.len() {
        lemma_resolve_plain(t, p + 1, vars, env);
        assert(seq![t[p]] + t.subrange(p + 1, t.len() as int) =~= t.subrange(p, t.len() as int));
    } else {
        assert(t.subrange(p, t.len() as int) =~= Seq::<char>::empty());
    }
}

/// Text with neither `$` nor NUL characters is left as it is, whatever the variables.
pub proof fn lemma_plain_text_unchanged(s: Seq<char>, vars: Seq<(String, String)>, env: Seq<(String, String)>)
    requires
        forall|i: int| 0 <= i < s.len() ==> s[i] != '$' && s[i] != '\0',
    ensures
        substitution(s, vars, env) == Ok::<Seq<char>, Seq<char>>(s),
{
    lemma_escape_plain(s);
    lemma_resolve_plain(s, 0, vars, env);
    assert(s.subrange(0, s.len() as int) =~= s);
    lemma_unescape_plain(s);
}

} // verus!

verus! {

/// An escaped `$$` gives a literal `$`: `$$` followed by text with neither `$` nor NUL
/// becomes `$` followed by that text.
pub proof fn lemma_escaped_dollar(s: Seq<char>, vars: Seq<(String, String)>, env: Seq<(String, String)>)
    requires
        forall|i: int| 0 <= i < s.len() ==> s[i] != '$' && s[i] != '\0',
    ensures
        substitution(seq!['$', '$'] + s, vars, env) == Ok::<Seq<char>, Seq<char>>(seq!['$'] + s),
{
    let t = seq!['$', '$'] + s;
    assert(t.subrange(2, t.len() as int) =~= s);
    lemma_escape_plain(s);
    assert(escape_dollars(t) == dollar_mark() + s);
    let m = dollar_mark() + s;
    assert forall|i: int| 0 <= i < m.len() implies m[i] != '$' by {
        if i >= 8 {
            assert(m[i] == s[i - 8]);
        }
    }
    lemma_resolve_plain(m, 0, vars, env);
    assert(m.subrange(0, m.len() as int) =~= m);
    assert(m.subrange(0, 8) =~= dollar_mark());
    assert(m.subrange(8, m.len() as int) =~= s);
    lemma_unescape_plain(s);
    assert(unescape_dollars(m) == seq!['$'] + unescape_dollars(s));
}

} // verus!
