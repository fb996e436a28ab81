//! Semantic validation of a document and its context (rules V-001 to V-008).
use vstd::prelude::*;
use vstd::utf8::encode_utf8;
use crate::asset::{Asset, Context, has_key, key_seq};
use crate::dag::{build_edges, context_edges};
use crate::document::{Document, InputDef, OutputDef, RawTransformation};
use crate::error::{TeckelError, TeckelErrorCode, is_spec_error};
use crate::expr_grammar::{is_alpha, is_digit};
use crate::graph::{is_topo_order, petgraph_toposort, toposort_nodes};
use crate::rewrite::doc_transformations;
use crate::expr_grammar::parse_spec;
use crate::source::{Branch, ColumnDef, JoinTarget, MergeAction, SchemaColumn, Source, WindowFuncDef, source_deps, texts};
use crate::text::{compare_text, push_str};

verus! {

pub open spec fn min2(x: int, y: int) -> int {
    if x <= y { x } else { y }
}

/// The edit distance between two byte strings: the fewest insertions, deletions and
/// substitutions of single bytes that turn one into the other.
pub open spec fn lev(a: Seq<u8>, b: Seq<u8>) -> int
    decreases a.len() + b.len(),
{
    if a.len() == 0 {
        b.len() as int
    } else if b.len() == 0 {
        a.len() as int
    } else {
        let cost: int = if a.last() == b.last() { 0 } else { 1 };
        min2(
            min2(lev(a.drop_last(), b) + 1, lev(a, b.drop_last()) + 1),
            lev(a.drop_last(), b.drop_last()) + cost,
        )
    }
}

proof fn lemma_lev_bounds(a: Seq<u8>, b: Seq<u8>)
    ensures
        0 <= lev(a, b),
        lev(a, b) <= if a.len() >= b.len() { a.len() as int } else { b.len() as int },
    decreases a.len() + b.len(),
{
    if a.len() > 0 && b.len() > 0 {
        lemma_lev_bounds(a.drop_last(), b);
        lemma_lev_bounds(a, b.drop_last());
        lemma_lev_bounds(a.drop_last(), b.drop_last());
    }
}

/// The edit distance from a byte string to itself is zero.
pub proof fn lemma_lev_self(a: Seq<u8>)
    ensures
        lev(a, a) == 0,
    decreases a.len(),
{
    if a.len() > 0 {
        lemma_lev_self(a.drop_last());
        lemma_lev_bounds(a.drop_last(), a);
        lemma_lev_bounds(a, a.drop_last());
    }
}

/// The edit distance does not depend on the order of its arguments.
pub proof fn lemma_lev_symmetric(a: Seq<u8>, b: Seq<u8>)
    ensures
        lev(a, b) == lev(b, a),
    decreases a.len() + b.len(),
{
    if a.len() > 0 && b.len() > 0 {
        lemma_lev_symmetric(a.drop_last(), b);
        lemma_lev_symmetric(a, b.drop_last());
        lemma_lev_symmetric(a.drop_last(), b.drop_last());
    }
}

/// The edit distance between the UTF-8 bytes of `a` and `b`.
pub fn levenshtein(a: &str, b: &str) -> (r: usize)
    ensures
        r == lev(encode_utf8(a@), encode_utf8(b@)),
{
    let x = a.as_bytes();
    let y = b.as_bytes();
    let ghost xs = x@;
    let ghost ys = y@;
    let m = y.len();
    let mut prev: Vec<usize> = Vec::new();
    let mut j: usize = 0;
    loop
        invariant_except_break
            j <= m,
            prev@.len() == j,
            forall|k: int| 0 <= k < j ==> #[trigger] prev@[k] == lev(Seq::<u8>::empty(), ys.subrange(0, k)),
        invariant
            m == ys.len(),
        ensures
            prev@.len() == m + 1,
            forall|k: int| 0 <= k <= m ==> #[trigger] prev@[k] == lev(Seq::<u8>::empty(), ys.subrange(0, k)),
        decreases m - j,
    {
        assert(lev(Seq::<u8>::empty(), ys.subrange(0, j as int)) == j);
        prev.push(j);
        if j == m {
            break;
        }
        j = j + 1;
    }
    assert(xs.subrange(0, 0) =~= Seq::<u8>::empty());
    let mut i: usize = 0;
    while i < x.len()
        invariant
            i <= xs.len(),
            x@ == xs,
            y@ == ys,
            m == ys.len(),
            prev@.len() == m + 1,
            forall|k: int| 0 <= k <= m ==> #[trigger] prev@[k] == lev(xs.subrange(0, i as int), ys.subrange(0, k)),
        decreases xs.len() - i,
    {
        let ghost ai = xs.subrange(0, i as int);
        let ghost ai1 = xs.subrange(0, i + 1);
        assert(ai1.drop_last() =~= ai);
        assert(ai1.last() == xs[i as int]);
        let mut curr: Vec<usize> = Vec::new();
        assert(ys.subrange(0, 0) =~= Seq::<u8>::empty());
        curr.push(i + 1);
        let mut k: usize = 0;
        while k < m
            invariant
                i < xs.len(),
                x@ == xs,
                y@ == ys,
                m == ys.len(),
                ai == xs.subrange(0, i as int),
                ai1 == xs.subrange(0, i + 1),
                ai1.drop_last() == ai,
                ai1.last() == xs[i as int],
                prev@.len() == m + 1,
                forall|q: int| 0 <= q <= m ==> #[trigger] prev@[q] == lev(ai, ys.subrange(0, q)),
                k <= m,
                curr@.len() == k + 1,
                forall|q: int| 0 <= q <= k ==> #[trigger] curr@[q] == lev(ai1, ys.subrange(0, q)),
            decreases m - k,
        {
            let ghost bk = ys.subrange(0, k as int);
            let ghost bk1 = ys.subrange(0, k + 1);
            assert(bk1.drop_last() =~= bk);
            assert(bk1.last() == ys[k as int]);
            let cost: usize = if x[i] == y[k] { 0 } else { 1 };
            let p1 = prev[k + 1].saturating_add(1);
            let c1 = curr[k].saturating_add(1);
            let p0 = prev[k].saturating_add(cost);
            let v = if p1 <= c1 { p1 } else { c1 };
            let v = if v <= p0 { v } else { p0 };
            proof {
                lemma_lev_bounds(ai1, bk1);
                assert(lev(ai1, bk1) == min2(
                    min2(lev(ai, bk1) + 1, lev(ai1, bk) + 1),
                    lev(ai, bk) + cost,
                ));
                assert(lev(ai1, bk1) <= usize::MAX) by {
                    assert(ai1.len() <= xs.len());
                    assert(bk1.len() <= ys.len());
                }
            }
            curr.push(v);
            k = k + 1;
        }
        prev = curr;
        i = i + 1;
    }
    assert(xs.subrange(0, xs.len() as int) =~= xs);
    assert(ys.subrange(0, m as int) =~= ys);
    prev[m]
}

// ── V-008: version ───────────────────────────────────────────────

pub open spec fn version_ok(v: Seq<char>) -> bool {
    v == "2.0"@ || v == "3.0"@
}

pub open spec fn version_message(v: Seq<char>) -> Seq<char> {
    "unsupported version \""@ + v + "\", expected \"2.0\" or \"3.0\""@
}

/// V-008: the document's version is "2.0" or "3.0"; else `E-VERSION-001`.
pub fn check_version(doc: &Document) -> (r: Result<(), TeckelError>)
    ensures
        version_ok(doc.version@) ==> r is Ok,
        !version_ok(doc.version@) ==> (r matches Err(e)
            && is_spec_error(e, TeckelErrorCode::EVersion001, version_message(doc.version@))),
{
    if compare_text(doc.version.as_str(), "2.0") == 0 || compare_text(doc.version.as_str(), "3.0") == 0 {
        return Ok(());
    }
    let mut m = String::new();
    push_str(&mut m, "unsupported version \"");
    push_str(&mut m, doc.version.as_str());
    push_str(&mut m, "\", expected \"2.0\" or \"3.0\"");
    Err(TeckelError::spec(TeckelErrorCode::EVersion001, m))
}

// ── V-007: asset reference format ────────────────────────────────

/// A valid asset reference: an ASCII letter, then up to 127 ASCII letters, digits, `_` or `-`.
pub open spec fn asset_ref_ok(s: Seq<char>) -> bool {
    &&& 1 <= s.len() <= 128
    &&& is_alpha(s[0])
    &&& forall|i: int| 1 <= i < s.len() ==> is_alpha(#[trigger] s[i]) || is_digit(s[i]) || s[i] == '_' || s[i] == '-'
}

/// Does `s` have the form of an asset reference?
pub fn is_asset_ref(s: &str) -> (r: bool)
    ensures
        r == asset_ref_ok(s@),
{
    let cs = crate::text::chars_of(s);
    if cs.len() < 1 || cs.len() > 128 {
        return false;
    }
    let c0 = cs[0];
    if !(('a' <= c0 && c0 <= 'z') || ('A' <= c0 && c0 <= 'Z')) {
        return false;
    }
    let mut i: usize = 1;
    while i < cs.len()
        invariant
            1 <= i <= cs@.len(),
            cs@ == s@,
            forall|j: int| 1 <= j < i ==> is_alpha(#[trigger] cs@[j]) || is_digit(cs@[j]) || cs@[j] == '_' || cs@[j] == '-',
        decreases cs@.len() - i,
    {
        let c = cs[i];
        if !(('a' <= c && c <= 'z') || ('A' <= c && c <= 'Z') || ('0' <= c && c <= '9') || c == '_' || c == '-') {
            return false;
        }
        i = i + 1;
    }
    true
}

pub open spec fn bad_ref_message(name: Seq<char>) -> Seq<char> {
    "invalid AssetRef \""@ + name + "\" -- must start with a letter"@
}

// ── V-001: reference integrity ───────────────────────────────────

/// Among `keys`, after the best match `cur` so far, the first one closest to `name` within
/// an edit distance of 3.
pub open spec fn best_match(keys: Seq<Seq<char>>, name: Seq<char>, cur: Option<(Seq<char>, int)>) -> Option<(Seq<char>, int)>
    decreases keys.len(),
{
    if keys.len() == 0 {
        cur
    } else {
        let d = lev(encode_utf8(name), encode_utf8(keys[0]));
        let next = if d <= 3 && (cur is None || d < cur->Some_0.1) { Some((keys[0], d)) } else { cur };
        best_match(keys.drop_first(), name, next)
    }
}

/// The hint that follows an unknown reference: the closest known name, if one is close.
pub open spec fn suggestion(keys: Seq<Seq<char>>, name: Seq<char>) -> Seq<char> {
    match best_match(keys, name, None) {
        Some((s, _)) => " (did you mean \""@ + s + "\"?)"@,
        None => Seq::empty(),
    }
}

/// A hint naming the asset of `ctx` closest to `name`, within an edit distance of 3, if any.
fn suggest_similar(name: &str, ctx: &Context) -> (r: String)
    ensures
        r@ == suggestion(key_seq(ctx@), name@),
{
    let n = ctx.len();
    let ghost keys = key_seq(ctx@);
    let mut best: Option<(usize, usize)> = None;
    let mut i: usize = 0;
    assert(keys.subrange(0, n as int) =~= keys);
    while i < n
        invariant
            n == ctx@.len(),
            keys == key_seq(ctx@),
            i <= n,
            best_match(keys, name@, None) == best_match(keys.subrange(i as int, n as int), name@, match best {
                Some((j, d)) => Some((keys[j as int], d as int)),
                None => None,
            }),
            best matches Some((j, d)) ==> j < n,
        decreases n - i,
    {
        let (k, _) = ctx.entry(i);
        let d = levenshtein(name, k.as_str());
        let ghost rest = keys.subrange(i as int, n as int);
        assert(rest[0] == keys[i as int]);
        assert(rest.drop_first() =~= keys.subrange(i + 1, n as int));
        let better = d <= 3 && match best {
            None => true,
            Some((_, bd)) => d < bd,
        };
        if better {
            best = Some((i, d));
        }
        i = i + 1;
    }
    assert(keys.subrange(n as int, n as int) =~= Seq::<Seq<char>>::empty());
    let mut r = String::new();
    match best {
        Some((j, _)) => {
            let (k, _) = ctx.entry(j);
            push_str(&mut r, " (did you mean \"");
            push_str(&mut r, k.as_str());
            push_str(&mut r, "\"?)");
        },
        None => {
            assert(r@ =~= Seq::<char>::empty());
        },
    }
    r
}


/// The errors of a list, with the error codes and messages they are expected to have.
pub open spec fn errors_match(errs: Seq<TeckelError>, expected: Seq<(TeckelErrorCode, Seq<char>)>) -> bool {
    &&& errs.len() == expected.len()
    &&& forall|i: int| 0 <= i < errs.len() ==> is_spec_error(#[trigger] errs[i], expected[i].0, expected[i].1)
}

fn push_error(errs: &mut Vec<TeckelError>, code: TeckelErrorCode, m: String, Ghost(expected): Ghost<Seq<(TeckelErrorCode, Seq<char>)>>)
    requires
        errors_match(old(errs)@, expected),
    ensures
        errors_match(final(errs)@, expected.push((code, m@))),
{
    errs.push(TeckelError::spec(code, m));
    proof {
        let e = expected.push((code, m@));
        assert forall|i: int| 0 <= i < errs@.len() implies is_spec_error(#[trigger] errs@[i], e[i].0, e[i].1) by {
            if i < expected.len() {
                assert(errs@[i] == old(errs)@[i]);
            }
        }
    }
}

/// The V-007 errors of a list of names, in order.
pub open spec fn name_errors(names: Seq<Seq<char>>) -> Seq<(TeckelErrorCode, Seq<char>)>
    decreases names.len(),
{
    if names.len() == 0 {
        Seq::empty()
    } else if asset_ref_ok(names.last()) {
        name_errors(names.drop_last())
    } else {
        name_errors(names.drop_last()).push((TeckelErrorCode::EName002, bad_ref_message(names.last())))
    }
}

pub open spec fn input_names(doc: Document) -> Seq<Seq<char>> {
    doc.input@.map_values(|d: InputDef| d.name@)
}

pub open spec fn transformation_names(doc: Document) -> Seq<Seq<char>> {
    doc_transformations(doc).map_values(|t: RawTransformation| t.name@)
}

pub open spec fn output_names(doc: Document) -> Seq<Seq<char>> {
    doc.output@.map_values(|o: OutputDef| o.name@)
}

/// The V-007 errors of the input names `ins` and the transformation names `ts`.
pub open spec fn format_errors(ins: Seq<Seq<char>>, ts: Seq<Seq<char>>) -> Seq<(TeckelErrorCode, Seq<char>)> {
    name_errors(ins + ts)
}

pub open spec fn empty_list_message(field: Seq<char>) -> Seq<char> {
    "\""@ + field + "\" must contain at least one element"@
}

/// The V-005 errors of a document with input names `ins` and output names `outs`.
pub open spec fn list_errors(ins: Seq<Seq<char>>, outs: Seq<Seq<char>>) -> Seq<(TeckelErrorCode, Seq<char>)> {
    (if ins.len() == 0 {
        seq![(TeckelErrorCode::EList001, empty_list_message("input"@))]
    } else {
        Seq::empty()
    }) + (if outs.len() == 0 {
        seq![(TeckelErrorCode::EList001, empty_list_message("output"@))]
    } else {
        Seq::empty()
    })
}

pub open spec fn undefined_message(name: Seq<char>, dep: Seq<char>, hint: Seq<char>) -> Seq<char> {
    "asset \""@ + name + "\" references undefined asset \""@ + dep + "\""@ + hint
}

/// The V-001 errors of the dependencies `deps` of the asset `name` of `c`, in order.
pub open spec fn dep_errors(c: Seq<(Seq<char>, Asset)>, name: Seq<char>, deps: Seq<Seq<char>>) -> Seq<(TeckelErrorCode, Seq<char>)>
    decreases deps.len(),
{
    if deps.len() == 0 {
        Seq::empty()
    } else if has_key(c, deps.last()) {
        dep_errors(c, name, deps.drop_last())
    } else {
        dep_errors(c, name, deps.drop_last()).push((
            TeckelErrorCode::ERef001,
            undefined_message(name, deps.last(), suggestion(key_seq(c), deps.last())),
        ))
    }
}

/// The V-001 errors of the first `m` assets of `c`, in order.
pub open spec fn ref_errors(c: Seq<(Seq<char>, Asset)>, m: int) -> Seq<(TeckelErrorCode, Seq<char>)>
    decreases m,
{
    if m <= 0 {
        Seq::empty()
    } else {
        ref_errors(c, m - 1) + dep_errors(c, c[m - 1].0, source_deps(c[m - 1].1.source))
    }
}

pub open spec fn dag_cycle_message() -> Seq<char> {
    "circular dependency detected in the pipeline DAG"@
}

/// petgraph finds no topological order of the dependency graph of `c` exactly when there is
/// none, that is when the graph has a cycle.
pub open spec fn cycle_iff_no_order(c: Seq<(Seq<char>, Asset)>) -> bool {
    petgraph_toposort(c.len(), context_edges(c)) is None
        <==> forall|o: Seq<usize>| !is_topo_order(c.len(), context_edges(c), o)
}

/// The V-002 error, when the dependency graph has a cycle.
pub open spec fn cycle_errors(c: Seq<(Seq<char>, Asset)>) -> Seq<(TeckelErrorCode, Seq<char>)> {
    if petgraph_toposort(c.len(), context_edges(c)) is None {
        seq![(TeckelErrorCode::ECycle001, dag_cycle_message())]
    } else {
        Seq::empty()
    }
}

pub open spec fn output_message(name: Seq<char>) -> Seq<char> {
    "output \""@ + name + "\" references undefined asset"@
}

/// Is output `j` named like an input or a transformation? (An output may not reference
/// another output.)
pub open spec fn output_name_known(ins: Seq<Seq<char>>, ts: Seq<Seq<char>>, outs: Seq<Seq<char>>, j: int) -> bool {
    ||| ins.contains(outs[j])
    ||| ts.contains(outs[j])
}

/// The V-003 errors of the first `m` outputs, in order.
pub open spec fn output_errors(ins: Seq<Seq<char>>, ts: Seq<Seq<char>>, outs: Seq<Seq<char>>, m: int) -> Seq<(TeckelErrorCode, Seq<char>)>
    decreases m,
{
    if m <= 0 {
        Seq::empty()
    } else if output_name_known(ins, ts, outs, m - 1) {
        output_errors(ins, ts, outs, m - 1)
    } else {
        output_errors(ins, ts, outs, m - 1).push((TeckelErrorCode::ERef001, output_message(outs[m - 1])))
    }
}

/// Every validation error of a context and the names of its document, in the order of the
/// rules: V-007, V-005, V-001, V-002, V-003.
pub open spec fn validation_errors_of(
    c: Seq<(Seq<char>, Asset)>,
    ins: Seq<Seq<char>>,
    ts: Seq<Seq<char>>,
    outs: Seq<Seq<char>>,
) -> Seq<(TeckelErrorCode, Seq<char>)> {
    format_errors(ins, ts) + list_errors(ins, outs) + ref_errors(c, c.len() as int) + cycle_errors(c)
        + output_errors(ins, ts, outs, outs.len() as int)
}

/// Every validation error of a context and its document.
pub open spec fn validation_errors(c: Seq<(Seq<char>, Asset)>, doc: Document) -> Seq<(TeckelErrorCode, Seq<char>)> {
    validation_errors_of(c, input_names(doc), transformation_names(doc), output_names(doc))
}

/// Every asset of `c` reads only from assets of `c`.
pub open spec fn deps_defined(c: Seq<(Seq<char>, Asset)>) -> bool {
    forall|i: int, k: int| 0 <= i < c.len() && 0 <= k < source_deps(c[i].1.source).len()
        ==> has_key(c, #[trigger] source_deps(c[i].1.source)[k])
}

proof fn lemma_no_dep_errors(c: Seq<(Seq<char>, Asset)>, name: Seq<char>, deps: Seq<Seq<char>>)
    requires
        dep_errors(c, name, deps).len() == 0,
    ensures
        forall|k: int| 0 <= k < deps.len() ==> has_key(c, #[trigger] deps[k]),
    decreases deps.len(),
{
    if deps.len() > 0 {
        assert(has_key(c, deps.last()));
        lemma_no_dep_errors(c, name, deps.drop_last());
        assert forall|k: int| 0 <= k < deps.len() implies has_key(c, #[trigger] deps[k]) by {
            if k < deps.len() - 1 {
                assert(deps[k] == deps.drop_last()[k]);
            }
        }
    }
}

proof fn lemma_no_ref_errors(c: Seq<(Seq<char>, Asset)>, m: int)
    requires
        0 <= m <= c.len(),
        ref_errors(c, m).len() == 0,
    ensures
        forall|i: int, k: int| 0 <= i < m && 0 <= k < source_deps(c[i].1.source).len()
            ==> has_key(c, #[trigger] source_deps(c[i].1.source)[k]),
    decreases m,
{
    if m > 0 {
        lemma_no_ref_errors(c, m - 1);
        lemma_no_dep_errors(c, c[m - 1].0, source_deps(c[m - 1].1.source));
    }
}

/// V-001 and V-002 together: a context without validation errors reads only from its own
/// assets, and its dependency graph has a topological order (no cycle).
pub proof fn lemma_valid_context_closed(
    c: Seq<(Seq<char>, Asset)>,
    ins: Seq<Seq<char>>,
    ts: Seq<Seq<char>>,
    outs: Seq<Seq<char>>,
)
    requires
        validation_errors_of(c, ins, ts, outs).len() == 0,
    ensures
        deps_defined(c),
        petgraph_toposort(c.len(), context_edges(c)) is Some,
{
    assert(ref_errors(c, c.len() as int).len() == 0);
    assert(cycle_errors(c).len() == 0);
    lemma_no_ref_errors(c, c.len() as int);
}

/// The names of a document that validation reads.
pub struct DocNames {
    pub inputs: Vec<String>,
    pub transformations: Vec<String>,
    pub outputs: Vec<String>,
}

fn names_of_inputs(v: &Vec<InputDef>) -> (r: Vec<String>)
    ensures
        texts(r@) == v@.map_values(|d: InputDef| d.name@),
{
    let mut r: Vec<String> = Vec::new();
    let mut i: usize = 0;
    while i < v.len()
        invariant
            i <= v@.len(),
            texts(r@) == v@.subrange(0, i as int).map_values(|d: InputDef| d.name@),
        decreases v@.len() - i,
    {
        let ghost before = r@;
        r.push(v[i].name.clone());
        proof {
            assert(r@ == before.push(v@[i as int].name));
            assert(texts(r@) =~= texts(before).push(v@[i as int].name@));
            assert(v@.subrange(0, i + 1).map_values(|d: InputDef| d.name@)
                =~= v@.subrange(0, i as int).map_values(|d: InputDef| d.name@).push(v@[i as int].name@));
        }
        i = i + 1;
    }
    assert(v@.subrange(0, v@.len() as int) =~= v@);
    r
}

fn names_of_outputs(v: &Vec<OutputDef>) -> (r: Vec<String>)
    ensures
        texts(r@) == v@.map_values(|d: OutputDef| d.name@),
{
    let mut r: Vec<String> = Vec::new();
    let mut i: usize = 0;
    while i < v.len()
        invariant
            i <= v@.len(),
            texts(r@) == v@.subrange(0, i as int).map_values(|d: OutputDef| d.name@),
        decreases v@.len() - i,
    {
        let ghost before = r@;
        r.push(v[i].name.clone());
        proof {
            assert(r@ == before.push(v@[i as int].name));
            assert(texts(r@) =~= texts(before).push(v@[i as int].name@));
            assert(v@.subrange(0, i + 1).map_values(|d: OutputDef| d.name@)
                =~= v@.subrange(0, i as int).map_values(|d: OutputDef| d.name@).push(v@[i as int].name@));
        }
        i = i + 1;
    }
    assert(v@.subrange(0, v@.len() as int) =~= v@);
    r
}

fn names_of_transformations(v: &Vec<RawTransformation>) -> (r: Vec<String>)
    ensures
        texts(r@) == v@.map_values(|d: RawTransformation| d.name@),
{
    let mut r: Vec<String> = Vec::new();
    let mut i: usize = 0;
    while i < v.len()
        invariant
            i <= v@.len(),
            texts(r@) == v@.subrange(0, i as int).map_values(|d: RawTransformation| d.name@),
        decreases v@.len() - i,
    {
        let ghost before = r@;
        r.push(v[i].name.clone());
        proof {
            assert(r@ == before.push(v@[i as int].name));
            assert(texts(r@) =~= texts(before).push(v@[i as int].name@));
            assert(v@.subrange(0, i + 1).map_values(|d: RawTransformation| d.name@)
                =~= v@.subrange(0, i as int).map_values(|d: RawTransformation| d.name@).push(v@[i as int].name@));
        }
        i = i + 1;
    }
    assert(v@.subrange(0, v@.len() as int) =~= v@);
    r
}

/// The input, transformation and output names of a document, in order.
pub fn doc_names(doc: &Document) -> (r: DocNames)
    ensures
        texts(r.inputs@) == input_names(*doc),
        texts(r.transformations@) == transformation_names(*doc),
        texts(r.outputs@) == output_names(*doc),
{
    let transformations = match &doc.transformation {
        Some(ts) => names_of_transformations(ts),
        None => {
            let r: Vec<String> = Vec::new();
            assert(texts(r@) =~= transformation_names(*doc));
            r
        },
    };
    DocNames { inputs: names_of_inputs(&doc.input), transformations, outputs: names_of_outputs(&doc.output) }
}

fn bad_ref_error_text(name: &str) -> (m: String)
    ensures
        m@ == bad_ref_message(name@),
{
    let mut m = String::new();
    push_str(&mut m, "invalid AssetRef \"");
    push_str(&mut m, name);
    push_str(&mut m, "\" -- must start with a letter");
    m
}

/// V-007: each input and transformation name has the form of an asset reference.
fn validate_asset_ref_format(names: &DocNames, errs: &mut Vec<TeckelError>, Ghost(before): Ghost<Seq<(TeckelErrorCode, Seq<char>)>>)
    requires
        errors_match(old(errs)@, before),
    ensures
        errors_match(final(errs)@, before + format_errors(texts(names.inputs@), texts(names.transformations@))),
{
    let ghost all = texts(names.inputs@) + texts(names.transformations@);
    let ni = names.inputs.len();
    let nt = names.transformations.len();
    let mut i: usize = 0;
    assert(all.subrange(0, 0) =~= Seq::<Seq<char>>::empty());
    while i < ni
        invariant
            ni == names.inputs@.len(),
            nt == names.transformations@.len(),
            all == texts(names.inputs@) + texts(names.transformations@),
            all.len() == ni + nt,
            i <= ni,
            errors_match(errs@, before + name_errors(all.subrange(0, i as int))),
        decreases ni - i,
    {
        let ghost pre = all.subrange(0, i as int);
        let ghost cur = all.subrange(0, i + 1);
        assert(cur.drop_last() =~= pre);
        let name = names.inputs[i].as_str();
        assert(cur.last() == name@);
        if !is_asset_ref(name) {
            let m = bad_ref_error_text(name);
            push_error(errs, TeckelErrorCode::EName002, m, Ghost(before + name_errors(pre)));
            assert(before + name_errors(cur) =~= (before + name_errors(pre)).push((TeckelErrorCode::EName002, m@)));
        } else {
            assert(name_errors(cur) == name_errors(pre));
        }
        i = i + 1;
    }
    let mut j: usize = 0;
    while j < nt
        invariant
            ni == names.inputs@.len(),
            nt == names.transformations@.len(),
            all == texts(names.inputs@) + texts(names.transformations@),
            all.len() == ni + nt,
            j <= nt,
            errors_match(errs@, before + name_errors(all.subrange(0, ni + j))),
        decreases nt - j,
    {
        let ghost pre = all.subrange(0, ni + j);
        let ghost cur = all.subrange(0, ni + j + 1);
        assert(cur.drop_last() =~= pre);
        let name = names.transformations[j].as_str();
        assert(cur.last() == name@);
        if !is_asset_ref(name) {
            let m = bad_ref_error_text(name);
            push_error(errs, TeckelErrorCode::EName002, m, Ghost(before + name_errors(pre)));
            assert(before + name_errors(cur) =~= (before + name_errors(pre)).push((TeckelErrorCode::EName002, m@)));
        } else {
            assert(name_errors(cur) == name_errors(pre));
        }
        j = j + 1;
    }
    assert(all.subrange(0, ni + nt) =~= all);
}

/// V-005: the input and output lists are not empty.
fn validate_non_empty_lists(names: &DocNames, errs: &mut Vec<TeckelError>, Ghost(before): Ghost<Seq<(TeckelErrorCode, Seq<char>)>>)
    requires
        errors_match(old(errs)@, before),
    ensures
        errors_match(final(errs)@, before + list_errors(texts(names.inputs@), texts(names.outputs@))),
{
    let ghost b1 = if names.inputs@.len() == 0 {
        before.push((TeckelErrorCode::EList001, empty_list_message("input"@)))
    } else {
        before
    };
    if names.inputs.len() == 0 {
        let m = String::from_str("\"input\" must contain at least one element");
        proof {
            reveal_strlit("\"input\" must contain at least one element");
            reveal_strlit("\"");
            reveal_strlit("input");
            reveal_strlit("\" must contain at least one element");
            assert(m@ =~= empty_list_message("input"@));
        }
        push_error(errs, TeckelErrorCode::EList001, m, Ghost(before));
    }
    if names.outputs.len() == 0 {
        let m = String::from_str("\"output\" must contain at least one element");
        proof {
            reveal_strlit("\"output\" must contain at least one element");
            reveal_strlit("\"");
            reveal_strlit("output");
            reveal_strlit("\" must contain at least one element");
            assert(m@ =~= empty_list_message("output"@));
        }
        push_error(errs, TeckelErrorCode::EList001, m, Ghost(b1));
    }
    assert(before + list_errors(texts(names.inputs@), texts(names.outputs@)) =~= if names.outputs@.len() == 0 {
        b1.push((TeckelErrorCode::EList001, empty_list_message("output"@)))
    } else {
        b1
    });
}
/// V-001: every dependency of every asset names an asset of the context.
fn validate_references(ctx: &Context, errs: &mut Vec<TeckelError>, Ghost(before): Ghost<Seq<(TeckelErrorCode, Seq<char>)>>)
    requires
        errors_match(old(errs)@, before),
    ensures
        errors_match(final(errs)@, before + ref_errors(ctx@, ctx@.len() as int)),
{
    let n = ctx.len();
    let mut i: usize = 0;
    while i < n
        invariant
            n == ctx@.len(),
            i <= n,
            errors_match(errs@, before + ref_errors(ctx@, i as int)),
        decreases n - i,
    {
        let (name, asset) = ctx.entry(i);
        let deps = asset.source.dependencies();
        let ghost ds = texts(deps@);
        let ghost base = before + ref_errors(ctx@, i as int);
        let mut k: usize = 0;
        assert(ds.subrange(0, 0) =~= Seq::<Seq<char>>::empty());
        assert(base + dep_errors(ctx@, name@, ds.subrange(0, 0)) =~= base);
        while k < deps.len()
            invariant
                n == ctx@.len(),
                i < n,
                name@ == ctx@[i as int].0,
                ds == texts(deps@),
                ds == source_deps(ctx@[i as int].1.source),
                base == before + ref_errors(ctx@, i as int),
                k <= deps@.len(),
                errors_match(errs@, base + dep_errors(ctx@, name@, ds.subrange(0, k as int))),
            decreases deps@.len() - k,
        {
            let ghost pre = ds.subrange(0, k as int);
            let ghost cur = ds.subrange(0, k + 1);
            assert(cur.drop_last() =~= pre);
            assert(cur.last() == deps@[k as int]@);
            if !ctx.contains_key(deps[k].as_str()) {
                let hint = suggest_similar(deps[k].as_str(), ctx);
                let mut m = String::new();
                push_str(&mut m, "asset \"");
                push_str(&mut m, name.as_str());
                push_str(&mut m, "\" references undefined asset \"");
                push_str(&mut m, deps[k].as_str());
                push_str(&mut m, "\"");
                push_str(&mut m, hint.as_str());
                proof {
                    assert(m@ =~= undefined_message(name@, deps@[k as int]@, suggestion(key_seq(ctx@), deps@[k as int]@)));
                }
                push_error(errs, TeckelErrorCode::ERef001, m, Ghost(base + dep_errors(ctx@, name@, pre)));
                assert(base + dep_errors(ctx@, name@, cur) =~= (base + dep_errors(ctx@, name@, pre)).push((TeckelErrorCode::ERef001, m@)));
            } else {
                assert(dep_errors(ctx@, name@, cur) == dep_errors(ctx@, name@, pre));
            }
            k = k + 1;
        }
        assert(ds.subrange(0, deps@.len() as int) =~= ds);
        assert(before + ref_errors(ctx@, i + 1) =~= base + dep_errors(ctx@, name@, ds));
        i = i + 1;
    }
}

/// V-002: the dependency graph has no cycle.
fn validate_no_cycles(ctx: &Context, errs: &mut Vec<TeckelError>, Ghost(before): Ghost<Seq<(TeckelErrorCode, Seq<char>)>>)
    requires
        errors_match(old(errs)@, before),
    ensures
        errors_match(final(errs)@, before + cycle_errors(ctx@)),
        cycle_iff_no_order(ctx@),
{
    let edges = build_edges(ctx);
    let order = toposort_nodes(ctx.len(), &edges);
    proof {
        if order is Some {
            assert(is_topo_order(ctx@.len(), context_edges(ctx@), order->Some_0@));
        }
    }
    if order.is_none() {
        let m = String::from_str("circular dependency detected in the pipeline DAG");
        push_error(errs, TeckelErrorCode::ECycle001, m, Ghost(before));
        assert(before + cycle_errors(ctx@) =~= before.push((TeckelErrorCode::ECycle001, dag_cycle_message())));
    } else {
        assert(before + cycle_errors(ctx@) =~= before);
    }
}

fn name_in(v: &Vec<String>, name: &str) -> (r: bool)
    ensures
        r == texts(v@).contains(name@),
{
    let mut i: usize = 0;
    while i < v.len()
        invariant
            i <= v@.len(),
            forall|j: int| 0 <= j < i ==> (#[trigger] v@[j])@ != name@,
        decreases v@.len() - i,
    {
        if compare_text(v[i].as_str(), name) == 0 {
            assert(texts(v@)[i as int] == name@);
            return true;
        }
        i = i + 1;
    }
    proof {
        if texts(v@).contains(name@) {
            let j = choose|j: int| 0 <= j < texts(v@).len() && texts(v@)[j] == name@;
            assert(v@[j]@ == name@);
        }
    }
    false
}

/// V-003: each output names an input or a transformation (or another output).
fn validate_output_references(names: &DocNames, errs: &mut Vec<TeckelError>, Ghost(before): Ghost<Seq<(TeckelErrorCode, Seq<char>)>>)
    requires
        errors_match(old(errs)@, before),
    ensures
        errors_match(final(errs)@, before + output_errors(
            texts(names.inputs@),
            texts(names.transformations@),
            texts(names.outputs@),
            names.outputs@.len() as int,
        )),
{
    let ghost ins = texts(names.inputs@);
    let ghost ts = texts(names.transformations@);
    let ghost outs = texts(names.outputs@);
    let n = names.outputs.len();
    let mut j: usize = 0;
    while j < n
        invariant
            n == names.outputs@.len(),
            ins == texts(names.inputs@),
            ts == texts(names.transformations@),
            outs == texts(names.outputs@),
            j <= n,
            errors_match(errs@, before + output_errors(ins, ts, outs, j as int)),
        decreases n - j,
    {
        let name = names.outputs[j].as_str();
        assert(outs[j as int] == name@);
        let known = name_in(&names.inputs, name) || name_in(&names.transformations, name);
        if !known {
            let mut m = String::new();
            push_str(&mut m, "output \"");
            push_str(&mut m, name);
            push_str(&mut m, "\" references undefined asset");
            push_error(errs, TeckelErrorCode::ERef001, m, Ghost(before + output_errors(ins, ts, outs, j as int)));
            assert(before + output_errors(ins, ts, outs, j + 1) =~= (before + output_errors(ins, ts, outs, j as int)).push((TeckelErrorCode::ERef001, m@)));
        } else {
            assert(output_errors(ins, ts, outs, j + 1) == output_errors(ins, ts, outs, j as int));
        }
        j = j + 1;
    }
}

/// Runs the validation rules V-007, V-005, V-001, V-002 and V-003 on a context and the names
/// of its document, collecting every error: `Ok` when there is none, else one `Validation`
/// error that holds them all, in the order of the rules.
pub fn validate_names(ctx: &Context, names: &DocNames) -> (r: Result<(), TeckelError>)
    ensures
        ({
            let errs = validation_errors_of(ctx@, texts(names.inputs@), texts(names.transformations@), texts(names.outputs@));
            &&& errs.len() == 0 ==> r is Ok
            &&& errs.len() > 0 ==> (r matches Err(TeckelError::Validation { count, errors })
                && count == errors@.len() && errors_match(errors@, errs))
        }),
        cycle_iff_no_order(ctx@),
{
    let ghost ins = texts(names.inputs@);
    let ghost ts = texts(names.transformations@);
    let ghost outs = texts(names.outputs@);
    let mut errs: Vec<TeckelError> = Vec::new();
    let ghost e0 = Seq::<(TeckelErrorCode, Seq<char>)>::empty();
    validate_asset_ref_format(names, &mut errs, Ghost(e0));
    let ghost e1 = e0 + format_errors(ins, ts);
    validate_non_empty_lists(names, &mut errs, Ghost(e1));
    let ghost e2 = e1 + list_errors(ins, outs);
    validate_references(ctx, &mut errs, Ghost(e2));
    let ghost e3 = e2 + ref_errors(ctx@, ctx@.len() as int);
    validate_no_cycles(ctx, &mut errs, Ghost(e3));
    let ghost e4 = e3 + cycle_errors(ctx@);
    validate_output_references(names, &mut errs, Ghost(e4));
    assert(e4 + output_errors(ins, ts, outs, outs.len() as int) =~= validation_errors_of(ctx@, ins, ts, outs));
    if errs.len() == 0 {
        Ok(())
    } else {
        let count = errs.len();
        Err(TeckelError::Validation { count, errors: errs })
    }
}

/// Runs the validation rules on a context and its document (see `validate_names`).
pub fn validate(ctx: &Context, doc: &Document) -> (r: Result<(), TeckelError>)
    ensures
        validation_errors(ctx@, *doc).len() == 0 ==> r is Ok,
        validation_errors(ctx@, *doc).len() > 0 ==> (r matches Err(TeckelError::Validation { count, errors })
            && count == errors@.len() && errors_match(errors@, validation_errors(ctx@, *doc))),
        cycle_iff_no_order(ctx@),
{
    let names = doc_names(doc);
    validate_names(ctx, &names)
}

} // verus!

verus! {

// ── Expression validation ────────────────────────────────────────

/// An optional string as a list of zero or one texts.
pub open spec fn opt_text(o: Option<String>) -> Seq<Seq<char>> {
    match o {
        Some(x) => seq![x@],
        None => Seq::empty(),
    }
}

pub open spec fn join_conditions(ts: Seq<JoinTarget>) -> Seq<Seq<char>> {
    ts.map_values(|t: JoinTarget| texts(t.on@)).flatten()
}

pub open spec fn branch_texts(bs: Seq<Branch>) -> Seq<Seq<char>> {
    bs.map_values(|b: Branch| seq![b.condition@, b.value@]).flatten()
}

pub open spec fn column_defaults(cs: Seq<SchemaColumn>) -> Seq<Seq<char>> {
    cs.map_values(|c: SchemaColumn| opt_text(c.default)).flatten()
}

pub open spec fn action_conditions(acts: Seq<MergeAction>) -> Seq<Seq<char>> {
    acts.map_values(|a: MergeAction| opt_text(a.condition)).flatten()
}

/// The expression and condition strings of a source, in the order its fields hold them.
/// (The assignments of a merge action's `set` map are not among them.)
pub open spec fn source_exprs(s: Source) -> Seq<Seq<char>> {
    match s {
        Source::Select(t) => texts(t.columns@),
        Source::Where(t) => seq![t.filter@],
        Source::GroupBy(t) => texts(t.agg@),
        Source::Join(t) => join_conditions(t.right@),
        Source::AddColumns(t) => t.columns@.map_values(|c: ColumnDef| c.expression@),
        Source::Window(t) => t.functions@.map_values(|f: WindowFuncDef| f.expression@),
        Source::Pivot(t) => texts(t.agg@),
        Source::Conditional(t) => branch_texts(t.branches@) + opt_text(t.otherwise),
        Source::Split(t) => seq![t.condition@],
        Source::Rollup(t) => texts(t.agg@),
        Source::Cube(t) => texts(t.agg@),
        Source::SchemaEnforce(t) => column_defaults(t.columns@),
        Source::Merge(t) => texts(t.on@) + action_conditions(t.when_matched@)
            + action_conditions(t.when_not_matched@) + action_conditions(t.when_not_matched_by_source@),
        Source::Parse(t) => match t.schema {
            Some(cs) => column_defaults(cs@),
            None => Seq::empty(),
        },
        Source::AsOfJoin(t) => texts(t.on@),
        Source::LateralJoin(t) => texts(t.on@),
        Source::GroupingSets(t) => texts(t.agg@),
        _ => Seq::empty(),
    }
}

/// The first of `es` that is no expression of the grammar.
pub open spec fn first_bad_in(es: Seq<Seq<char>>) -> Option<Seq<char>>
    decreases es.len(),
{
    if es.len() == 0 {
        None
    } else if parse_spec(es[0]) is Err {
        Some(es[0])
    } else {
        first_bad_in(es.drop_first())
    }
}

/// The first asset of `c` (in key order) holding an expression that does not parse: its name
/// and the first such expression.
pub open spec fn first_bad_expr(c: Seq<(Seq<char>, Asset)>) -> Option<(Seq<char>, Seq<char>)>
    decreases c.len(),
{
    if c.len() == 0 {
        None
    } else {
        match first_bad_in(source_exprs(c[0].1.source)) {
            Some(x) => Some((c[0].0, x)),
            None => first_bad_expr(c.drop_first()),
        }
    }
}

proof fn lemma_flatten_has(v: Seq<Seq<Seq<char>>>, i: int, j: int)
    requires
        0 <= i < v.len(),
        0 <= j < v[i].len(),
    ensures
        v.flatten().contains(v[i][j]),
    decreases i,
{
    let f = v.first();
    let rest = v.drop_first();
    assert(v.flatten() == f + rest.flatten());
    if i == 0 {
        assert((f + rest.flatten())[j] == v[i][j]);
    } else {
        assert(rest[i - 1] == v[i]);
        lemma_flatten_has(rest, i - 1, j);
        let k = choose|k: int| 0 <= k < rest.flatten().len() && rest.flatten()[k] == v[i][j];
        assert((f + rest.flatten())[f.len() + k] == v[i][j]);
    }
}

proof fn lemma_concat_has(a: Seq<Seq<char>>, b: Seq<Seq<char>>, x: Seq<char>)
    requires
        a.contains(x) || b.contains(x),
    ensures
        (a + b).contains(x),
{
    if a.contains(x) {
        let k = choose|k: int| 0 <= k < a.len() && a[k] == x;
        assert((a + b)[k] == x);
    } else {
        let k = choose|k: int| 0 <= k < b.len() && b[k] == x;
        assert((a + b)[a.len() + k] == x);
    }
}

proof fn lemma_texts_has(v: Seq<String>, i: int)
    requires
        0 <= i < v.len(),
    ensures
        texts(v).contains(v[i]@),
{
    assert(texts(v)[i] == v[i]@);
}

proof fn lemma_defaults_have(cs: Seq<SchemaColumn>, i: int)
    requires
        0 <= i < cs.len(),
        cs[i].default is Some,
    ensures
        column_defaults(cs).contains(cs[i].default->Some_0@),
{
    let m = cs.map_values(|c: SchemaColumn| opt_text(c.default));
    assert(m[i] == opt_text(cs[i].default));
    assert(m[i][0] == cs[i].default->Some_0@);
    lemma_flatten_has(m, i, 0);
}

proof fn lemma_action_conditions_have(acts: Seq<MergeAction>, i: int)
    requires
        0 <= i < acts.len(),
        acts[i].condition is Some,
    ensures
        action_conditions(acts).contains(acts[i].condition->Some_0@),
{
    let m = acts.map_values(|a: MergeAction| opt_text(a.condition));
    assert(m[i] == opt_text(acts[i].condition));
    assert(m[i][0] == acts[i].condition->Some_0@);
    lemma_flatten_has(m, i, 0);
}

/// Expression validation reads every expression and condition string that a source holds:
/// the columns of a select, the filter of a where, the aggregates of a group-by, pivot,
/// rollup, cube or grouping sets, the join conditions, the column and window expressions,
/// the branches and default of a conditional, the split condition, the column defaults of a
/// schema, the merge condition and action conditions, and the conditions of as-of and
/// lateral joins.
pub proof fn lemma_expressions_of_source(s: Source)
    ensures
        match s {
            Source::Select(t) => forall|i: int| 0 <= i < t.columns@.len() ==> source_exprs(s).contains(#[trigger] t.columns@[i]@),
            Source::Where(t) => source_exprs(s).contains(t.filter@),
            Source::GroupBy(t) => forall|i: int| 0 <= i < t.agg@.len() ==> source_exprs(s).contains(#[trigger] t.agg@[i]@),
            Source::Join(t) => forall|i: int, j: int| 0 <= i < t.right@.len() && 0 <= j < t.right@[i].on@.len()
                ==> source_exprs(s).contains(#[trigger] t.right@[i].on@[j]@),
            Source::AddColumns(t) => forall|i: int| 0 <= i < t.columns@.len() ==> source_exprs(s).contains(#[trigger] t.columns@[i].expression@),
            Source::Window(t) => forall|i: int| 0 <= i < t.functions@.len() ==> source_exprs(s).contains(#[trigger] t.functions@[i].expression@),
            Source::Pivot(t) => forall|i: int| 0 <= i < t.agg@.len() ==> source_exprs(s).contains(#[trigger] t.agg@[i]@),
            Source::Conditional(t) => (forall|i: int| 0 <= i < t.branches@.len() ==> source_exprs(s).contains(#[trigger] t.branches@[i].condition@)
                && source_exprs(s).contains(t.branches@[i].value@))
                && (t.otherwise matches Some(o) ==> source_exprs(s).contains(o@)),
            Source::Split(t) => source_exprs(s).contains(t.condition@),
            Source::Rollup(t) => forall|i: int| 0 <= i < t.agg@.len() ==> source_exprs(s).contains(#[trigger] t.agg@[i]@),
            Source::Cube(t) => forall|i: int| 0 <= i < t.agg@.len() ==> source_exprs(s).contains(#[trigger] t.agg@[i]@),
            Source::SchemaEnforce(t) => forall|i: int| 0 <= i < t.columns@.len() && (#[trigger] t.columns@[i]).default is Some
                ==> source_exprs(s).contains(t.columns@[i].default->Some_0@),
            Source::Merge(t) => (forall|i: int| 0 <= i < t.on@.len() ==> source_exprs(s).contains(#[trigger] t.on@[i]@))
                && (forall|i: int| 0 <= i < t.when_matched@.len() && (#[trigger] t.when_matched@[i]).condition is Some
                    ==> source_exprs(s).contains(t.when_matched@[i].condition->Some_0@))
                && (forall|i: int| 0 <= i < t.when_not_matched@.len() && (#[trigger] t.when_not_matched@[i]).condition is Some
                    ==> source_exprs(s).contains(t.when_not_matched@[i].condition->Some_0@))
                && (forall|i: int| 0 <= i < t.when_not_matched_by_source@.len() && (#[trigger] t.when_not_matched_by_source@[i]).condition is Some
                    ==> source_exprs(s).contains(t.when_not_matched_by_source@[i].condition->Some_0@)),
            Source::Parse(t) => t.schema matches Some(cs) ==> forall|i: int| 0 <= i < cs@.len() && (#[trigger] cs@[i]).default is Some
                ==> source_exprs(s).contains(cs@[i].default->Some_0@),
            Source::AsOfJoin(t) => forall|i: int| 0 <= i < t.on@.len() ==> source_exprs(s).contains(#[trigger] t.on@[i]@),
            Source::LateralJoin(t) => forall|i: int| 0 <= i < t.on@.len() ==> source_exprs(s).contains(#[trigger] t.on@[i]@),
            Source::GroupingSets(t) => forall|i: int| 0 <= i < t.agg@.len() ==> source_exprs(s).contains(#[trigger] t.agg@[i]@),
            _ => true,
        },
{
    match s {
        Source::Select(t) => {
            assert forall|i: int| 0 <= i < t.columns@.len() implies source_exprs(s).contains(#[trigger] t.columns@[i]@) by {
                lemma_texts_has(t.columns@, i);
            }
        },
        Source::Where(t) => {
            assert(source_exprs(s)[0] == t.filter@);
        },
        Source::GroupBy(t) => {
            assert forall|i: int| 0 <= i < t.agg@.len() implies source_exprs(s).contains(#[trigger] t.agg@[i]@) by {
                lemma_texts_has(t.agg@, i);
            }
        },
        Source::Join(t) => {
            let m = t.right@.map_values(|x: JoinTarget| texts(x.on@));
            assert forall|i: int, j: int| 0 <= i < t.right@.len() && 0 <= j < t.right@[i].on@.len()
                implies source_exprs(s).contains(#[trigger] t.right@[i].on@[j]@) by {
                assert(m[i] == texts(t.right@[i].on@));
                assert(m[i][j] == t.right@[i].on@[j]@);
                lemma_flatten_has(m, i, j);
            }
        },
        Source::AddColumns(t) => {
            assert forall|i: int| 0 <= i < t.columns@.len() implies source_exprs(s).contains(#[trigger] t.columns@[i].expression@) by {
                assert(source_exprs(s)[i] == t.columns@[i].expression@);
            }
        },
        Source::Window(t) => {
            assert forall|i: int| 0 <= i < t.functions@.len() implies source_exprs(s).contains(#[trigger] t.functions@[i].expression@) by {
                assert(source_exprs(s)[i] == t.functions@[i].expression@);
            }
        },
        Source::Pivot(t) => {
            assert forall|i: int| 0 <= i < t.agg@.len() implies source_exprs(s).contains(#[trigger] t.agg@[i]@) by {
                lemma_texts_has(t.agg@, i);
            }
        },
        Source::Conditional(t) => {
            let b = branch_texts(t.branches@);
            let m = t.branches@.map_values(|x: Branch| seq![x.condition@, x.value@]);
            assert forall|i: int| 0 <= i < t.branches@.len() implies source_exprs(s).contains(#[trigger] t.branches@[i].condition@)
                && source_exprs(s).contains(t.branches@[i].value@) by {
                assert(m[i] == seq![t.branches@[i].condition@, t.branches@[i].value@]);
                assert(m[i][0] == t.branches@[i].condition@);
                assert(m[i][1] == t.branches@[i].value@);
                lemma_flatten_has(m, i, 0);
                lemma_flatten_has(m, i, 1);
                lemma_concat_has(b, opt_text(t.otherwise), t.branches@[i].condition@);
                lemma_concat_has(b, opt_text(t.otherwise), t.branches@[i].value@);
            }
            if let Some(o) = t.otherwise {
                assert(opt_text(t.otherwise)[0] == o@);
                lemma_concat_has(b, opt_text(t.otherwise), o@);
            }
        },
        Source::Split(t) => {
            assert(source_exprs(s)[0] == t.condition@);
        },
        Source::Rollup(t) => {
            assert forall|i: int| 0 <= i < t.agg@.len() implies source_exprs(s).contains(#[trigger] t.agg@[i]@) by {
                lemma_texts_has(t.agg@, i);
            }
        },
        Source::Cube(t) => {
            assert forall|i: int| 0 <= i < t.agg@.len() implies source_exprs(s).contains(#[trigger] t.agg@[i]@) by {
                lemma_texts_has(t.agg@, i);
            }
        },
        Source::SchemaEnforce(t) => {
            assert forall|i: int| 0 <= i < t.columns@.len() && (#[trigger] t.columns@[i]).default is Some
                implies source_exprs(s).contains(t.columns@[i].default->Some_0@) by {
                lemma_defaults_have(t.columns@, i);
            }
        },
        Source::Merge(t) => {
            let a0 = texts(t.on@);
            let a1 = action_conditions(t.when_matched@);
            let a2 = action_conditions(t.when_not_matched@);
            let a3 = action_conditions(t.when_not_matched_by_source@);
            assert(source_exprs(s) == a0 + a1 + a2 + a3);
            assert forall|i: int| 0 <= i < t.on@.len() implies source_exprs(s).contains(#[trigger] t.on@[i]@) by {
                lemma_texts_has(t.on@, i);
                lemma_concat_has(a0, a1, t.on@[i]@);
                lemma_concat_has(a0 + a1, a2, t.on@[i]@);
                lemma_concat_has(a0 + a1 + a2, a3, t.on@[i]@);
            }
            assert forall|i: int| 0 <= i < t.when_matched@.len() && (#[trigger] t.when_matched@[i]).condition is Some
                implies source_exprs(s).contains(t.when_matched@[i].condition->Some_0@) by {
                let x = t.when_matched@[i].condition->Some_0@;
                lemma_action_conditions_have(t.when_matched@, i);
                lemma_concat_has(a0, a1, x);
                lemma_concat_has(a0 + a1, a2, x);
                lemma_concat_has(a0 + a1 + a2, a3, x);
            }
            assert forall|i: int| 0 <= i < t.when_not_matched@.len() && (#[trigger] t.when_not_matched@[i]).condition is Some
                implies source_exprs(s).contains(t.when_not_matched@[i].condition->Some_0@) by {
                let x = t.when_not_matched@[i].condition->Some_0@;
                lemma_action_conditions_have(t.when_not_matched@, i);
                lemma_concat_has(a0 + a1, a2, x);
                lemma_concat_has(a0 + a1 + a2, a3, x);
            }
            assert forall|i: int| 0 <= i < t.when_not_matched_by_source@.len() && (#[trigger] t.when_not_matched_by_source@[i]).condition is Some
                implies source_exprs(s).contains(t.when_not_matched_by_source@[i].condition->Some_0@) by {
                let x = t.when_not_matched_by_source@[i].condition->Some_0@;
                lemma_action_conditions_have(t.when_not_matched_by_source@, i);
                lemma_concat_has(a0 + a1 + a2, a3, x);
            }
        },
        Source::Parse(t) => {
            if let Some(cs) = t.schema {
                assert forall|i: int| 0 <= i < cs@.len() && (#[trigger] cs@[i]).default is Some
                    implies source_exprs(s).contains(cs@[i].default->Some_0@) by {
                    lemma_defaults_have(cs@, i);
                }
            }
        },
        Source::AsOfJoin(t) => {
            assert forall|i: int| 0 <= i < t.on@.len() implies source_exprs(s).contains(#[trigger] t.on@[i]@) by {
                lemma_texts_has(t.on@, i);
            }
        },
        Source::LateralJoin(t) => {
            assert forall|i: int| 0 <= i < t.on@.len() implies source_exprs(s).contains(#[trigger] t.on@[i]@) by {
                lemma_texts_has(t.on@, i);
            }
        },
        Source::GroupingSets(t) => {
            assert forall|i: int| 0 <= i < t.agg@.len() implies source_exprs(s).contains(#[trigger] t.agg@[i]@) by {
                lemma_texts_has(t.agg@, i);
            }
        },
        _ => {},
    }
}

proof fn lemma_first_bad_in_some(es: Seq<Seq<char>>, e: Seq<char>)
    requires
        es.contains(e),
        parse_spec(e) is Err,
    ensures
        first_bad_in(es) is Some,
    decreases es.len(),
{
    if parse_spec(es[0]) is Ok {
        let k = choose|k: int| 0 <= k < es.len() && es[k] == e;
        assert(k != 0);
        assert(es.drop_first()[k - 1] == e);
        lemma_first_bad_in_some(es.drop_first(), e);
    }
}

/// An expression or condition string of any asset that does not parse is reported: if the
/// source of asset `x` holds `e` (see `lemma_expressions_of_source`) and `e` is no expression
/// of the grammar, then expression validation finds a bad expression (`E-EXPR-001`).
pub proof fn lemma_bad_expression_reported(c: Seq<(Seq<char>, Asset)>, x: int, e: Seq<char>)
    requires
        0 <= x < c.len(),
        source_exprs(c[x].1.source).contains(e),
        parse_spec(e) is Err,
    ensures
        first_bad_expr(c) is Some,
    decreases x,
{
    if first_bad_in(source_exprs(c[0].1.source)) is None {
        if x == 0 {
            lemma_first_bad_in_some(source_exprs(c[0].1.source), e);
        } else {
            assert(c.drop_first()[x - 1] == c[x]);
            lemma_bad_expression_reported(c.drop_first(), x - 1, e);
        }
    }
}

/// `msg` reports that `expr`, in asset `name`, does not parse: it is
/// `invalid expression in "name": `, the parser's message for `expr`, then ` (expression: "expr")`.
pub open spec fn is_expr_message(msg: Seq<char>, name: Seq<char>, expr: Seq<char>) -> bool {
    msg == "invalid expression in \""@ + name + "\": "@ + parse_spec(expr)->Err_0 + " (expression: \""@
        + expr + "\")"@
}

fn push_all(r: &mut Vec<String>, v: &Vec<String>)
    ensures
        texts(final(r)@) == texts(old(r)@) + texts(v@),
{
    let ghost r0 = r@;
    let mut i: usize = 0;
    while i < v.len()
        invariant
            i <= v@.len(),
            texts(r@) == texts(r0) + texts(v@.subrange(0, i as int)),
        decreases v@.len() - i,
    {
        let ghost before = r@;
        r.push(v[i].clone());
        assert(texts(r@) =~= texts(before).push(v@[i as int]@));
        assert(texts(v@.subrange(0, i + 1)) =~= texts(v@.subrange(0, i as int)).push(v@[i as int]@));
        i = i + 1;
    }
    assert(v@.subrange(0, v@.len() as int) =~= v@);
}

fn push_opt(r: &mut Vec<String>, o: &Option<String>)
    ensures
        texts(final(r)@) == texts(old(r)@) + opt_text(*o),
{
    match o {
        Some(x) => {
            let ghost before = r@;
            r.push(x.clone());
            assert(texts(r@) =~= texts(before) + seq![x@]);
        },
        None => {
            assert(texts(r@) =~= texts(r@) + Seq::<Seq<char>>::empty());
        },
    }
}

fn push_join_conditions(r: &mut Vec<String>, ts: &Vec<JoinTarget>)
    ensures
        texts(final(r)@) == texts(old(r)@) + join_conditions(ts@),
{
    let ghost r0 = r@;
    let mut i: usize = 0;
    while i < ts.len()
        invariant
            i <= ts@.len(),
            texts(r@) == texts(r0) + join_conditions(ts@.subrange(0, i as int)),
        decreases ts@.len() - i,
    {
        let ghost before = r@;
        push_all(r, &ts[i].on);
        proof {
            let f = |t: JoinTarget| texts(t.on@);
            let p = ts@.subrange(0, i as int).map_values(f);
            assert(ts@.subrange(0, i + 1).map_values(f) =~= p.push(f(ts@[i as int])));
            p.lemma_flatten_push(f(ts@[i as int]));
            assert(texts(r@) =~= texts(r0) + join_conditions(ts@.subrange(0, i + 1)));
        }
        i = i + 1;
    }
    assert(ts@.subrange(0, ts@.len() as int) =~= ts@);
}

fn push_branch_texts(r: &mut Vec<String>, bs: &Vec<Branch>)
    ensures
        texts(final(r)@) == texts(old(r)@) + branch_texts(bs@),
{
    let ghost r0 = r@;
    let mut i: usize = 0;
    while i < bs.len()
        invariant
            i <= bs@.len(),
            texts(r@) == texts(r0) + branch_texts(bs@.subrange(0, i as int)),
        decreases bs@.len() - i,
    {
        let ghost before = r@;
        r.push(bs[i].condition.clone());
        r.push(bs[i].value.clone());
        proof {
            let f = |b: Branch| seq![b.condition@, b.value@];
            let p = bs@.subrange(0, i as int).map_values(f);
            assert(bs@.subrange(0, i + 1).map_values(f) =~= p.push(f(bs@[i as int])));
            p.lemma_flatten_push(f(bs@[i as int]));
            assert(texts(r@) =~= texts(before) + f(bs@[i as int]));
            assert(texts(r@) =~= texts(r0) + branch_texts(bs@.subrange(0, i + 1)));
        }
        i = i + 1;
    }
    assert(bs@.subrange(0, bs@.len() as int) =~= bs@);
}

fn push_column_defaults(r: &mut Vec<String>, cs: &Vec<SchemaColumn>)
    ensures
        texts(final(r)@) == texts(old(r)@) + column_defaults(cs@),
{
    let ghost r0 = r@;
    let mut i: usize = 0;
    while i < cs.len()
        invariant
            i <= cs@.len(),
            texts(r@) == texts(r0) + column_defaults(cs@.subrange(0, i as int)),
        decreases cs@.len() - i,
    {
        push_opt(r, &cs[i].default);
        proof {
            let f = |c: SchemaColumn| opt_text(c.default);
            let p = cs@.subrange(0, i as int).map_values(f);
            assert(cs@.subrange(0, i + 1).map_values(f) =~= p.push(f(cs@[i as int])));
            p.lemma_flatten_push(f(cs@[i as int]));
            assert(texts(r@) =~= texts(r0) + column_defaults(cs@.subrange(0, i + 1)));
        }
        i = i + 1;
    }
    assert(cs@.subrange(0, cs@.len() as int) =~= cs@);
}

fn push_action_conditions(r: &mut Vec<String>, acts: &Vec<MergeAction>)
    ensures
        texts(final(r)@) == texts(old(r)@) + action_conditions(acts@),
{
    let ghost r0 = r@;
    let mut i: usize = 0;
    while i < acts.len()
        invariant
            i <= acts@.len(),
            texts(r@) == texts(r0) + action_conditions(acts@.subrange(0, i as int)),
        decreases acts@.len() - i,
    {
        push_opt(r, &acts[i].condition);
        proof {
            let f = |a: MergeAction| opt_text(a.condition);
            let p = acts@.subrange(0, i as int).map_values(f);
            assert(acts@.subrange(0, i + 1).map_values(f) =~= p.push(f(acts@[i as int])));
            p.lemma_flatten_push(f(acts@[i as int]));
            assert(texts(r@) =~= texts(r0) + action_conditions(acts@.subrange(0, i + 1)));
        }
        i = i + 1;
    }
    assert(acts@.subrange(0, acts@.len() as int) =~= acts@);
}

fn push_column_exprs(r: &mut Vec<String>, cs: &Vec<ColumnDef>)
    ensures
        texts(final(r)@) == texts(old(r)@) + cs@.map_values(|c: ColumnDef| c.expression@),
{
    let ghost r0 = r@;
    let mut i: usize = 0;
    while i < cs.len()
        invariant
            i <= cs@.len(),
            texts(r@) == texts(r0) + cs@.subrange(0, i as int).map_values(|c: ColumnDef| c.expression@),
        decreases cs@.len() - i,
    {
        let ghost before = r@;
        r.push(cs[i].expression.clone());
        assert(texts(r@) =~= texts(before).push(cs@[i as int].expression@));
        assert(cs@.subrange(0, i + 1).map_values(|c: ColumnDef| c.expression@)
            =~= cs@.subrange(0, i as int).map_values(|c: ColumnDef| c.expression@).push(cs@[i as int].expression@));
        i = i + 1;
    }
    assert(cs@.subrange(0, cs@.len() as int) =~= cs@);
}

fn push_function_exprs(r: &mut Vec<String>, fs: &Vec<WindowFuncDef>)
    ensures
        texts(final(r)@) == texts(old(r)@) + fs@.map_values(|f: WindowFuncDef| f.expression@),
{
    let ghost r0 = r@;
    let mut i: usize = 0;
    while i < fs.len()
        invariant
            i <= fs@.len(),
            texts(r@) == texts(r0) + fs@.subrange(0, i as int).map_values(|f: WindowFuncDef| f.expression@),
        decreases fs@.len() - i,
    {
        let ghost before = r@;
        r.push(fs[i].expression.clone());
        assert(texts(r@) =~= texts(before).push(fs@[i as int].expression@));
        assert(fs@.subrange(0, i + 1).map_values(|f: WindowFuncDef| f.expression@)
            =~= fs@.subrange(0, i as int).map_values(|f: WindowFuncDef| f.expression@).push(fs@[i as int].expression@));
        i = i + 1;
    }
    assert(fs@.subrange(0, fs@.len() as int) =~= fs@);
}

/// The expression and condition strings of `s` (see `source_exprs`).
#[verifier::spinoff_prover]
pub fn source_expressions(s: &Source) -> (r: Vec<String>)
    ensures
        texts(r@) == source_exprs(*s),
{
    let mut r: Vec<String> = Vec::new();
    assert(texts(r@) =~= Seq::<Seq<char>>::empty());
    match s {
        Source::Select(t) => push_all(&mut r, &t.columns),
        Source::Where(t) => {
            r.push(t.filter.clone());
            assert(texts(r@) =~= seq![t.filter@]);
        },
        Source::GroupBy(t) => push_all(&mut r, &t.agg),
        Source::Join(t) => push_join_conditions(&mut r, &t.right),
        Source::AddColumns(t) => push_column_exprs(&mut r, &t.columns),
        Source::Window(t) => push_function_exprs(&mut r, &t.functions),
        Source::Pivot(t) => push_all(&mut r, &t.agg),
        Source::Conditional(t) => {
            push_branch_texts(&mut r, &t.branches);
            push_opt(&mut r, &t.otherwise);
        },
        Source::Split(t) => {
            r.push(t.condition.clone());
            assert(texts(r@) =~= seq![t.condition@]);
        },
        Source::Rollup(t) => push_all(&mut r, &t.agg),
        Source::Cube(t) => push_all(&mut r, &t.agg),
        Source::SchemaEnforce(t) => push_column_defaults(&mut r, &t.columns),
        Source::Merge(t) => {
            push_all(&mut r, &t.on);
            push_action_conditions(&mut r, &t.when_matched);
            push_action_conditions(&mut r, &t.when_not_matched);
            push_action_conditions(&mut r, &t.when_not_matched_by_source);
        },
        Source::Parse(t) => match &t.schema {
            Some(cs) => push_column_defaults(&mut r, cs),
            None => {},
        },
        Source::AsOfJoin(t) => push_all(&mut r, &t.on),
        Source::LateralJoin(t) => push_all(&mut r, &t.on),
        Source::GroupingSets(t) => push_all(&mut r, &t.agg),
        _ => {},
    }
    proof {
        assert(Seq::<Seq<char>>::empty() + source_exprs(*s) =~= source_exprs(*s));
    }
    r
}

/// Parses every expression and condition string of the context with the expression parser
/// (`E-EXPR-001` for the first one, in key order, that does not parse; the reason is the
/// parser's own message).
#[verifier::spinoff_prover]
pub fn validate_expressions(ctx: &Context) -> (r: Result<(), TeckelError>)
    ensures
        match first_bad_expr(ctx@) {
            None => r is Ok,
            Some((name, expr)) => r matches Err(TeckelError::Spec { code, message })
                && code == TeckelErrorCode::EExpr001 && is_expr_message(message@, name, expr),
        },
{
    let ghost c = ctx@;
    let n = ctx.len();
    let mut i: usize = 0;
    assert(c.subrange(0, n as int) =~= c);
    while i < n
        invariant
            c == ctx@,
            n == c.len(),
            i <= n,
            first_bad_expr(c) == first_bad_expr(c.subrange(i as int, n as int)),
        decreases n - i,
    {
        let ghost rest = c.subrange(i as int, n as int);
        assert(rest[0] == c[i as int]);
        assert(rest.drop_first() =~= c.subrange(i + 1, n as int));
        let (name, asset) = ctx.entry(i);
        let exprs = source_expressions(&asset.source);
        let ghost es = texts(exprs@);
        let mut j: usize = 0;
        assert(es.subrange(0, es.len() as int) =~= es);
        while j < exprs.len()
            invariant
                es == texts(exprs@),
                es.len() == exprs@.len(),
                j <= exprs@.len(),
                first_bad_in(es) == first_bad_in(es.subrange(j as int, es.len() as int)),
                c == ctx@,
                n == c.len(),
                i < n,
                rest == c.subrange(i as int, n as int),
                first_bad_expr(c) == first_bad_expr(rest),
                name@ == c[i as int].0,
                es == source_exprs(c[i as int].1.source),
            decreases exprs@.len() - j,
        {
            let ghost tail = es.subrange(j as int, es.len() as int);
            assert(tail[0] == exprs@[j as int]@);
            assert(tail.drop_first() =~= es.subrange(j + 1, es.len() as int));
            match crate::expr_parser::parse_expression(exprs[j].as_str()) {
                Ok(_) => {},
                Err(m) => {
                    let mut msg = String::new();
                    push_str(&mut msg, "invalid expression in \"");
                    push_str(&mut msg, name.as_str());
                    push_str(&mut msg, "\": ");
                    push_str(&mut msg, m.as_str());
                    push_str(&mut msg, " (expression: \"");
                    push_str(&mut msg, exprs[j].as_str());
                    push_str(&mut msg, "\")");
                    proof {
                        let pre = "invalid expression in \""@ + name@ + "\": "@;
                        let post = " (expression: \""@ + exprs@[j as int]@ + "\")"@;
                        assert(msg@ =~= pre + m@ + post);
                        assert(first_bad_in(es) == Some(exprs@[j as int]@));
                        assert(first_bad_expr(rest) == Some((name@, exprs@[j as int]@)));
                    }
                    return Err(TeckelError::spec(TeckelErrorCode::EExpr001, msg));
                },
            }
            j = j + 1;
        }
        assert(es.subrange(es.len() as int, es.len() as int) =~= Seq::<Seq<char>>::empty());
        assert(first_bad_in(es) is None);
        assert(first_bad_expr(rest) == first_bad_expr(rest.drop_first()));
        i = i + 1;
    }
    assert(c.subrange(n as int, n as int) =~= Seq::<(Seq<char>, Asset)>::empty());
    Ok(())
}

} // verus!
