//! Resolution of `{{secrets.alias}}` placeholders through a secrets provider.
use vstd::prelude::*;
use crate::error::{TeckelError, TeckelErrorCode, is_spec_error};
use crate::expr_grammar::{is_alpha, is_digit};
use crate::text::{chars_of, push_char, push_str, string_of_range};
use crate::variables::{find_value, lookup_value};

verus! {

/// Resolves secret values at run time.
pub trait SecretsProvider {
    /// The value of the secret `alias`, if known.
    fn resolve(&self, alias: &str) -> Option<String>;
}

/// A character that may continue a secret alias: an ASCII letter or digit, `_` or `-`.
pub open spec fn is_alias_char(c: char) -> bool {
    is_alpha(c) || is_digit(c) || c == '_' || c == '-'
}

/// The first position at or after `p` that does not continue an alias.
pub open spec fn alias_end(t: Seq<char>, p: int) -> int
    decreases t.len() - p,
{
    if 0 <= p < t.len() && is_alias_char(t[p]) {
        alias_end(t, p + 1)
    } else {
        p
    }
}

pub open spec fn secret_prefix() -> Seq<char> {
    seq!['{', '{', 's', 'e', 'c', 'r', 'e', 't', 's', '.']
}

/// A placeholder `{{secrets.alias}}` at `p`: its alias and the position after it.
pub open spec fn secret_at(t: Seq<char>, p: int) -> Option<(Seq<char>, int)> {
    if 0 <= p && p + 11 <= t.len() && t.subrange(p, p + 10) == secret_prefix() && is_alpha(t[p + 10]) {
        let e = alias_end(t, p + 11);
        if e + 1 < t.len() && t[e] == '}' && t[e + 1] == '}' {
            Some((t.subrange(p + 10, e), e + 2))
        } else {
            None
        }
    } else {
        None
    }
}

/// The aliases of the placeholders of `t` from `p` on, in order.
pub open spec fn aliases_from(t: Seq<char>, p: int) -> Seq<Seq<char>>
    decreases t.len() - p,
{
    if p < 0 || p >= t.len() {
        Seq::empty()
    } else {
        match secret_at(t, p) {
            Some((a, e)) => if e <= p { Seq::empty() } else { seq![a] + aliases_from(t, e) },
            None => aliases_from(t, p + 1),
        }
    }
}

/// The text of `t` from `p` on with its placeholders replaced by `vals`, in order; or the
/// alias of the first placeholder whose value is missing.
pub open spec fn fill_from(t: Seq<char>, p: int, vals: Seq<Option<Seq<char>>>) -> Result<Seq<char>, Seq<char>>
    decreases t.len() - p,
{
    if p < 0 || p >= t.len() {
        Ok(Seq::empty())
    } else {
        match secret_at(t, p) {
            Some((a, e)) => if e <= p {
                Ok(Seq::empty())
            } else if vals.len() == 0 || vals[0] is None {
                Err(a)
            } else {
                match fill_from(t, e, vals.drop_first()) {
                    Ok(rest) => Ok(vals[0]->Some_0 + rest),
                    Err(n) => Err(n),
                }
            },
            None => match fill_from(t, p + 1, vals) {
                Ok(rest) => Ok(seq![t[p]] + rest),
                Err(n) => Err(n),
            },
        }
    }
}

proof fn lemma_alias_end_after(t: Seq<char>, p: int)
    ensures
        alias_end(t, p) >= p,
    decreases t.len() - p,
{
    if 0 <= p < t.len() && is_alias_char(t[p]) {
        lemma_alias_end_after(t, p + 1);
    }
}

proof fn lemma_fill_plain_from(t: Seq<char>, p: int, vals: Seq<Option<Seq<char>>>)
    requires
        0 <= p <= t.len(),
        aliases_from(t, p).len() == 0,
    ensures
        fill_from(t, p, vals) == Ok::<Seq<char>, Seq<char>>(t.subrange(p, t.len() as int)),
    decreases t.len() - p,
{
    if p < t.len() {
        match secret_at(t, p) {
            Some((a, e)) => {
                lemma_alias_end_after(t, p + 11);
                assert(e > p);
                assert(aliases_from(t, p) =~= seq![a] + aliases_from(t, e));
            },
            None => {
                lemma_fill_plain_from(t, p + 1, vals);
                assert(seq![t[p]] + t.subrange(p + 1, t.len() as int) =~= t.subrange(p, t.len() as int));
            },
        }
    } else {
        assert(t.subrange(p, t.len() as int) =~= Seq::<char>::empty());
    }
}

/// A text without secret placeholders is filled as it is, whatever the values.
pub proof fn lemma_text_without_secrets_unchanged(t: Seq<char>, vals: Seq<Option<Seq<char>>>)
    requires
        aliases_from(t, 0).len() == 0,
    ensures
        fill_from(t, 0, vals) == Ok::<Seq<char>, Seq<char>>(t),
{
    lemma_fill_plain_from(t, 0, vals);
    assert(t.subrange(0, t.len() as int) =~= t);
}

pub open spec fn unresolved_secret_message(alias: Seq<char>) -> Seq<char> {
    "unresolved secret \""@ + alias + "\""@
}

fn scan_alias_end(t: &Vec<char>, p: usize) -> (r: usize)
    requires
        p <= t@.len(),
    ensures
        r as int == alias_end(t@, p as int),
        p <= r <= t@.len(),
{
    let mut i = p;
    while i < t.len() && (('a' <= t[i] && t[i] <= 'z') || ('A' <= t[i] && t[i] <= 'Z') || ('0' <= t[i] && t[i] <= '9') || t[i] == '_' || t[i] == '-')
        invariant
            p <= i <= t@.len(),
            alias_end(t@, i as int) == alias_end(t@, p as int),
        decreases t@.len() - i,
    {
        i = i + 1;
    }
    i
}

/// The placeholder at `p`: where its alias starts and ends, and the position after it.
fn match_secret(t: &Vec<char>, p: usize) -> (r: Option<(usize, usize, usize)>)
    requires
        p < t@.len(),
    ensures
        match r {
            Some((a, b, e)) => a <= b <= t@.len() && p < e <= t@.len()
                && secret_at(t@, p as int) == Some((t@.subrange(a as int, b as int), e as int)),
            None => secret_at(t@, p as int) is None,
        },
{
    if t.len() - p < 11 {
        return None;
    }
    let is_prefix = t[p] == '{' && t[p + 1] == '{' && t[p + 2] == 's' && t[p + 3] == 'e' && t[p + 4] == 'c'
        && t[p + 5] == 'r' && t[p + 6] == 'e' && t[p + 7] == 't' && t[p + 8] == 's' && t[p + 9] == '.';
    proof {
        let w = t@.subrange(p as int, p + 10);
        if is_prefix {
            assert(w =~= secret_prefix());
        } else if w == secret_prefix() {
            assert(w[0] == t@[p as int] && w[1] == t@[p + 1] && w[2] == t@[p + 2] && w[3] == t@[p + 3]);
            assert(w[4] == t@[p + 4] && w[5] == t@[p + 5] && w[6] == t@[p + 6] && w[7] == t@[p + 7]);
            assert(w[8] == t@[p + 8] && w[9] == t@[p + 9]);
        }
    }
    let c = t[p + 10];
    if !is_prefix || !(('a' <= c && c <= 'z') || ('A' <= c && c <= 'Z')) {
        return None;
    }
    let e = scan_alias_end(t, p + 11);
    if t.len() - e >= 2 && t[e] == '}' && t[e + 1] == '}' {
        proof {
            assert(alias_end(t@, p + 11) == e);
        }
        Some((p + 10, e, e + 2))
    } else {
        None
    }
}

/// The aliases of the `{{secrets.alias}}` placeholders of `input`, in order.
pub fn secret_aliases(input: &str) -> (r: Vec<String>)
    ensures
        r@.len() == aliases_from(input@, 0).len(),
        forall|i: int| 0 <= i < r@.len() ==> (#[trigger] r@[i])@ == aliases_from(input@, 0)[i],
{
    let t = chars_of(input);
    let mut out: Vec<String> = Vec::new();
    let mut p: usize = 0;
    while p < t.len()
        invariant
            t@ == input@,
            p <= t@.len(),
            aliases_from(t@, 0) == out@.map_values(|s: String| s@) + aliases_from(t@, p as int),
        decreases t@.len() - p,
    {
        match match_secret(&t, p) {
            Some((a, b, e)) => {
                let ghost o0 = out@.map_values(|s: String| s@);
                out.push(string_of_range(&t, a, b));
                assert(out@.map_values(|s: String| s@) =~= o0.push(t@.subrange(a as int, b as int)));
                assert(o0 + (seq![t@.subrange(a as int, b as int)] + aliases_from(t@, e as int))
                    =~= out@.map_values(|s: String| s@) + aliases_from(t@, e as int));
                p = e;
            },
            None => {
                p = p + 1;
            },
        }
    }
    proof {
        assert(aliases_from(t@, p as int) =~= Seq::<Seq<char>>::empty());
        assert(out@.map_values(|s: String| s@) + Seq::<Seq<char>>::empty() =~= out@.map_values(|s: String| s@));
    }
    out
}

/// A result with `acc` put in front of its text.
pub open spec fn prefixed_secret(acc: Seq<char>, r: Result<Seq<char>, Seq<char>>) -> Result<Seq<char>, Seq<char>> {
    match r {
        Ok(x) => Ok(acc + x),
        Err(n) => Err(n),
    }
}

/// The values handed to `fill_secrets`, as texts.
pub open spec fn value_texts(v: Seq<Option<String>>) -> Seq<Option<Seq<char>>> {
    v.map_values(|o: Option<String>| match o {
        Some(s) => Some(s@),
        None => None,
    })
}

/// Replaces the placeholders of `input`, in order, by `values`; the first placeholder
/// without a value is `E-SECRET-001`.
pub fn fill_secrets(input: &str, values: &Vec<Option<String>>) -> (r: Result<String, TeckelError>)
    ensures
        match fill_from(input@, 0, value_texts(values@)) {
            Ok(x) => r matches Ok(s) && s@ == x,
            Err(a) => r matches Err(e) && is_spec_error(e, TeckelErrorCode::ESecret001, unresolved_secret_message(a)),
        },
{
    let t = chars_of(input);
    let ghost vals = value_texts(values@);
    let mut out = String::new();
    let mut p: usize = 0;
    let mut k: usize = 0;
    proof {
        assert(vals.subrange(0, vals.len() as int) =~= vals);
        match fill_from(t@, 0, vals) {
            Ok(x) => {
                assert(out@ + x =~= x);
            },
            Err(_) => {},
        }
    }
    while p < t.len()
        invariant
            t@ == input@,
            vals == value_texts(values@),
            p <= t@.len(),
            k <= values@.len(),
            fill_from(t@, 0, vals) == prefixed_secret(out@, fill_from(t@, p as int, vals.subrange(k as int, vals.len() as int))),
        decreases t@.len() - p,
    {
        let ghost rest = vals.subrange(k as int, vals.len() as int);
        match match_secret(&t, p) {
            Some((a, b, e)) => {
                if k >= values.len() {
                    let alias = string_of_range(&t, a, b);
                    let mut m = String::new();
                    push_str(&mut m, "unresolved secret \"");
                    push_str(&mut m, alias.as_str());
                    push_str(&mut m, "\"");
                    return Err(TeckelError::spec(TeckelErrorCode::ESecret001, m));
                }
                match &values[k] {
                    Some(v) => {
                        assert(rest[0] == Some(v@));
                        assert(rest.drop_first() =~= vals.subrange(k + 1, vals.len() as int));
                        let ghost o0 = out@;
                        push_str(&mut out, v.as_str());
                        proof {
                            match fill_from(t@, e as int, rest.drop_first()) {
                                Ok(x) => {
                                    assert(o0 + (v@ + x) =~= out@ + x);
                                },
                                Err(_) => {},
                            }
                        }
                        p = e;
                        k = k + 1;
                    },
                    None => {
                        let alias = string_of_range(&t, a, b);
                        let mut m = String::new();
                        push_str(&mut m, "unresolved secret \"");
                        push_str(&mut m, alias.as_str());
                        push_str(&mut m, "\"");
                        return Err(TeckelError::spec(TeckelErrorCode::ESecret001, m));
                    },
                }
            },
            None => {
                let ghost o0 = out@;
                push_char(&mut out, t[p]);
                proof {
                    match fill_from(t@, p + 1, rest) {
                        Ok(x) => {
                            assert(o0 + (seq![t@[p as int]] + x) =~= out@ + x);
                        },
                        Err(_) => {},
                    }
                }
                p = p + 1;
            },
        }
    }
    assert(out@ + Seq::<char>::empty() =~= out@);
    Ok(out)
}

/// `v` is an answer that `lookup` gives when asked for the alias `alias`.
pub open spec fn answer_for<F: Fn(String) -> Option<String>>(lookup: F, alias: Seq<char>, v: Option<String>) -> bool {
    exists|b: String| b@ == alias && #[trigger] lookup.ensures((b,), v)
}

/// Resolves the `{{secrets.alias}}` placeholders of `input` with `lookup`: it is asked once for
/// each placeholder's alias, in order, and each placeholder is replaced by the answer that
/// `lookup` gave for that placeholder's own alias; the first alias without a value is
/// `E-SECRET-001`.
pub fn resolve_secrets_with<F: Fn(String) -> Option<String>>(input: &str, lookup: F) -> (r: Result<String, TeckelError>)
    requires
        forall|a: String| lookup.requires((a,)),
    ensures
        exists|vals: Seq<Option<String>>| {
            &&& vals.len() == aliases_from(input@, 0).len()
            &&& forall|i: int| 0 <= i < vals.len() ==> answer_for(lookup, aliases_from(input@, 0)[i], #[trigger] vals[i])
            &&& match #[trigger] fill_from(input@, 0, value_texts(vals)) {
                Ok(x) => r matches Ok(s) && s@ == x,
                Err(a) => r matches Err(e) && is_spec_error(e, TeckelErrorCode::ESecret001, unresolved_secret_message(a)),
            }
        },
{
    let aliases = secret_aliases(input);
    let mut values: Vec<Option<String>> = Vec::new();
    let mut i: usize = 0;
    while i < aliases.len()
        invariant
            i <= aliases@.len(),
            values@.len() == i,
            aliases@.len() == aliases_from(input@, 0).len(),
            forall|k: int| 0 <= k < aliases@.len() ==> (#[trigger] aliases@[k])@ == aliases_from(input@, 0)[k],
            forall|a: String| lookup.requires((a,)),
            forall|k: int| 0 <= k < i ==> answer_for(lookup, aliases_from(input@, 0)[k], #[trigger] values@[k]),
        decreases aliases@.len() - i,
    {
        let alias = aliases[i].clone();
        let ghost ga = alias;
        let ghost before = values@;
        let v = lookup(alias);
        proof {
            assert(lookup.ensures((ga,), v));
            assert(ga@ == aliases_from(input@, 0)[i as int]);
            assert(answer_for(lookup, aliases_from(input@, 0)[i as int], v));
        }
        values.push(v);
        proof {
            assert forall|k: int| 0 <= k < i + 1 implies answer_for(lookup, aliases_from(input@, 0)[k], #[trigger] values@[k]) by {
                if k < i {
                    assert(values@[k] == before[k]);
                } else {
                    assert(values@[k] == v);
                }
            }
        }
        i = i + 1;
    }
    let r = fill_secrets(input, &values);
    proof {
        assert(value_texts(values@).len() == values@.len());
    }
    r
}

/// Resolves the `{{secrets.alias}}` placeholders of `input`: each alias is handed to the
/// provider, in order, and its value replaces the placeholder; an alias without a value is
/// `E-SECRET-001` (the first one).
pub fn resolve_secrets<P: SecretsProvider + ?Sized>(input: &str, provider: &P) -> (r: Result<String, TeckelError>)
    ensures
        aliases_from(input@, 0).len() == 0 ==> (r matches Ok(s) && s@ == input@),
        exists|vals: Seq<Option<Seq<char>>>| {
            &&& vals.len() == aliases_from(input@, 0).len()
            &&& match #[trigger] fill_from(input@, 0, vals) {
                Ok(x) => r matches Ok(s) && s@ == x,
                Err(a) => r matches Err(e) && is_spec_error(e, TeckelErrorCode::ESecret001, unresolved_secret_message(a)),
            }
        },
{
    let r = resolve_secrets_with(input, |a: String| -> (v: Option<String>) { provider.resolve(a.as_str()) });
    proof {
        let vals = choose|vals: Seq<Option<String>>| {
            &&& vals.len() == aliases_from(input@, 0).len()
            &&& match #[trigger] fill_from(input@, 0, value_texts(vals)) {
                Ok(x) => r matches Ok(s) && s@ == x,
                Err(a) => r matches Err(e) && is_spec_error(e, TeckelErrorCode::ESecret001, unresolved_secret_message(a)),
            }
        };
        assert(value_texts(vals).len() == aliases_from(input@, 0).len());
        if aliases_from(input@, 0).len() == 0 {
            lemma_text_without_secrets_unchanged(input@, value_texts(vals));
        }
    }
    r
}

/// The name of the environment variable of a secret alias: `TECKEL_SECRET__`, then the
/// uppercased alias with `-` turned to `_`.
pub open spec fn env_key(alias: Seq<char>) -> Seq<char> {
    "TECKEL_SECRET__"@ + uppercase(alias).map_values(|c: char| if c == '-' { '_' } else { c })
}

/// What `str::to_uppercase` gives for a text.
pub uninterp spec fn uppercase(s: Seq<char>) -> Seq<char>;

/// Calls `str::to_uppercase`. The contract names the result; that it depends on the text
/// alone is all it claims.
#[verifier::external_body]
fn to_uppercase(s: &str) -> (r: String)
    ensures
        r@ == uppercase(s@),
{
    s.to_uppercase()
}

/// A secrets provider that reads environment variables: alias `foo_bar` is variable
/// `TECKEL_SECRET__FOO_BAR`. It holds the environment it reads, as (name, value) pairs.
pub struct EnvSecretsProvider {
    pub environment: Vec<(String, String)>,
}

/// The environment variable that holds secret `alias`.
pub fn secret_env_key(alias: &str) -> (r: String)
    ensures
        r@ == env_key(alias@),
{
    let up = to_uppercase(alias);
    let cs = chars_of(up.as_str());
    let mut r = String::new();
    push_str(&mut r, "TECKEL_SECRET__");
    let ghost r0 = r@;
    let mut i: usize = 0;
    while i < cs.len()
        invariant
            cs@ == uppercase(alias@),
            r0 == "TECKEL_SECRET__"@,
            i <= cs@.len(),
            r@ == r0 + cs@.subrange(0, i as int).map_values(|c: char| if c == '-' { '_' } else { c }),
        decreases cs@.len() - i,
    {
        let c = if cs[i] == '-' { '_' } else { cs[i] };
        push_char(&mut r, c);
        assert(cs@.subrange(0, i + 1).map_values(|c: char| if c == '-' { '_' } else { c })
            =~= cs@.subrange(0, i as int).map_values(|c: char| if c == '-' { '_' } else { c }).push(c));
        i = i + 1;
    }
    assert(cs@.subrange(0, cs@.len() as int) =~= cs@);
    r
}

impl SecretsProvider for EnvSecretsProvider {
    fn resolve(&self, alias: &str) -> (r: Option<String>)
        ensures
            match r {
                Some(v) => find_value(self.environment@, env_key(alias@)) == Some(v@),
                None => find_value(self.environment@, env_key(alias@)) is None,
            },
    {
        let key = secret_env_key(alias);
        match lookup_value(&self.environment, key.as_str()) {
            Some(v) => Some(v.clone()),
            None => None,
        }
    }
}

} // verus!
