//! The dependency graph of a context: execution plans and tag propagation.
use vstd::prelude::*;
use crate::asset::{Asset, Context, has_key, key_index, keys_increasing, lookup};
use crate::error::{TeckelError, TeckelErrorCode, is_spec_error};
use crate::graph::{is_topo_order, petgraph_toposort, toposort_nodes};
use crate::source::{Source, source_deps, texts};
use crate::pipeline::{Pipeline, same_sections};
use crate::source::copy_names;
use crate::types::AssetRef;

verus! {

/// The edges into node `i` from the dependencies `deps` that name assets of `c`, in order.
pub open spec fn dep_edges(c: Seq<(Seq<char>, Asset)>, deps: Seq<Seq<char>>, i: int) -> Seq<(usize, usize)>
    decreases deps.len(),
{
    if deps.len() == 0 {
        Seq::empty()
    } else {
        let rest = dep_edges(c, deps.drop_last(), i);
        if has_key(c, deps.last()) {
            rest.push((key_index(c, deps.last()) as usize, i as usize))
        } else {
            rest
        }
    }
}

/// The edges into the first `m` assets of `c`: from each dependency in `c` to its dependent.
pub open spec fn graph_edges(c: Seq<(Seq<char>, Asset)>, m: int) -> Seq<(usize, usize)>
    decreases m,
{
    if m <= 0 {
        Seq::empty()
    } else {
        graph_edges(c, m - 1) + dep_edges(c, source_deps(c[m - 1].1.source), m - 1)
    }
}

/// The dependency graph of a context, by asset index, in the order the edges are added.
pub open spec fn context_edges(c: Seq<(Seq<char>, Asset)>) -> Seq<(usize, usize)> {
    graph_edges(c, c.len() as int)
}

proof fn lemma_dep_edges_bounds(c: Seq<(Seq<char>, Asset)>, deps: Seq<Seq<char>>, i: int)
    requires
        0 <= i < c.len(),
        c.len() <= usize::MAX,
    ensures
        forall|e: int| 0 <= e < dep_edges(c, deps, i).len() ==>
            (#[trigger] dep_edges(c, deps, i)[e]).0 < c.len() && dep_edges(c, deps, i)[e].1 == i,
    decreases deps.len(),
{
    if deps.len() > 0 {
        lemma_dep_edges_bounds(c, deps.drop_last(), i);
        let d = deps.last();
        let r = dep_edges(c, deps.drop_last(), i);
        if has_key(c, d) {
            let k = key_index(c, d);
            assert(0 <= k < c.len());
            assert((k as usize) as int == k);
            assert((i as usize) as int == i);
            let t = r.push((k as usize, i as usize));
            assert(dep_edges(c, deps, i) == t);
            assert forall|e: int| 0 <= e < t.len() implies (#[trigger] t[e]).0 < c.len() && t[e].1 == i by {
                if e < r.len() {
                    assert(t[e] == r[e]);
                }
            }
        } else {
            assert(dep_edges(c, deps, i) == r);
        }
    } else {
        assert(dep_edges(c, deps, i) == Seq::<(usize, usize)>::empty());
    }
}

proof fn lemma_graph_edges_bounds(c: Seq<(Seq<char>, Asset)>, m: int)
    requires
        0 <= m <= c.len(),
        c.len() <= usize::MAX,
    ensures
        forall|e: int| 0 <= e < graph_edges(c, m).len() ==>
            (#[trigger] graph_edges(c, m)[e]).0 < c.len() && graph_edges(c, m)[e].1 < m,
    decreases m,
{
    if m > 0 {
        lemma_graph_edges_bounds(c, m - 1);
        lemma_dep_edges_bounds(c, source_deps(c[m - 1].1.source), m - 1);
        let a = graph_edges(c, m - 1);
        let b = dep_edges(c, source_deps(c[m - 1].1.source), m - 1);
        assert forall|e: int| 0 <= e < graph_edges(c, m).len() implies
            (#[trigger] graph_edges(c, m)[e]).0 < c.len() && graph_edges(c, m)[e].1 < m by {
            if e < a.len() {
                assert(graph_edges(c, m)[e] == a[e]);
            } else {
                assert(graph_edges(c, m)[e] == b[e - a.len()]);
            }
        }
    }
}

/// The dependency edges of a context.
pub(crate) fn build_edges(ctx: &Context) -> (r: Vec<(usize, usize)>)
    ensures
        r@ == context_edges(ctx@),
        forall|e: int| 0 <= e < r@.len() ==> (#[trigger] r@[e]).0 < ctx@.len() && r@[e].1 < ctx@.len(),
{
    let n = ctx.len();
    let mut edges: Vec<(usize, usize)> = Vec::new();
    let mut i: usize = 0;
    while i < n
        invariant
            n == ctx@.len(),
            i <= n,
            edges@ == graph_edges(ctx@, i as int),
        decreases n - i,
    {
        let (_, asset) = ctx.entry(i);
        let deps = asset.source.dependencies();
        let ghost ds = texts(deps@);
        let mut j: usize = 0;
        while j < deps.len()
            invariant
                n == ctx@.len(),
                i < n,
                j <= deps@.len(),
                ds == texts(deps@),
                ds == source_deps(ctx@[i as int].1.source),
                edges@ == graph_edges(ctx@, i as int) + dep_edges(ctx@, ds.subrange(0, j as int), i as int),
            decreases deps@.len() - j,
        {
            let ghost pre = ds.subrange(0, j as int);
            let ghost cur = ds.subrange(0, j + 1);
            assert(cur.drop_last() =~= pre);
            assert(cur.last() == deps@[j as int]@);
            match ctx.find(deps[j].as_str()) {
                Some(k) => {
                    edges.push((k, i));
                },
                None => {},
            }
            assert(edges@ =~= graph_edges(ctx@, i as int) + dep_edges(ctx@, cur, i as int));
            j = j + 1;
        }
        assert(ds.subrange(0, deps@.len() as int) =~= ds);
        assert(edges@ =~= graph_edges(ctx@, i + 1));
        i = i + 1;
    }
    proof {
        lemma_graph_edges_bounds(ctx@, n as int);
    }
    edges
}

pub open spec fn cycle_message() -> Seq<char> {
    "circular dependency detected — cannot produce execution plan"@
}

/// The plan that a node order gives: the names of the assets in that order, or, without an
/// order, `E-CYCLE-001`.
pub fn plan_from_order(ctx: &Context, order: Option<Vec<usize>>) -> (r: Result<Vec<AssetRef>, TeckelError>)
    requires
        order matches Some(v) ==> forall|i: int| 0 <= i < v@.len() ==> (#[trigger] v@[i]) < ctx@.len(),
    ensures
        match order {
            Some(v) => r matches Ok(p) && p@.len() == v@.len()
                && forall|i: int| 0 <= i < v@.len() ==> (#[trigger] p@[i])@ == ctx@[v@[i] as int].0,
            None => r matches Err(e) && is_spec_error(e, TeckelErrorCode::ECycle001, cycle_message()),
        },
{
    match order {
        Some(v) => {
            let mut p: Vec<AssetRef> = Vec::new();
            let mut i: usize = 0;
            while i < v.len()
                invariant
                    i <= v@.len(),
                    p@.len() == i,
                    forall|j: int| 0 <= j < v@.len() ==> (#[trigger] v@[j]) < ctx@.len(),
                    forall|j: int| 0 <= j < i ==> (#[trigger] p@[j])@ == ctx@[v@[j] as int].0,
                decreases v@.len() - i,
            {
                let (name, _) = ctx.entry(v[i]);
                p.push(name.clone());
                i = i + 1;
            }
            Ok(p)
        },
        None => {
            let m = String::from_str("circular dependency detected — cannot produce execution plan");
            Err(TeckelError::spec(TeckelErrorCode::ECycle001, m))
        },
    }
}

/// The plan that petgraph's order of the dependency graph gives.
pub open spec fn plan_ok(c: Seq<(Seq<char>, Asset)>, p: Seq<AssetRef>, o: Seq<usize>) -> bool {
    &&& p.len() == o.len()
    &&& forall|i: int| 0 <= i < o.len() ==> (#[trigger] p[i])@ == c[o[i] as int].0
}

/// The names of the assets in petgraph's topological order of the dependency graph, with
/// the assets as nodes in the order of their names; on a cycle, `E-CYCLE-001`.
fn topological_plan(ctx: &Context) -> (r: Result<Vec<AssetRef>, TeckelError>)
    ensures
        match petgraph_toposort(ctx@.len(), context_edges(ctx@)) {
            Some(o) => r matches Ok(p) && plan_ok(ctx@, p@, o) && is_topo_order(ctx@.len(), context_edges(ctx@), o),
            None => r matches Err(e) && is_spec_error(e, TeckelErrorCode::ECycle001, cycle_message())
                && forall|o: Seq<usize>| !is_topo_order(ctx@.len(), context_edges(ctx@), o),
        },
{
    let edges = build_edges(ctx);
    let order = toposort_nodes(ctx.len(), &edges);
    plan_from_order(ctx, order)
}

/// The group of an asset's kind: inputs, then transformations, then outputs.
pub open spec fn plan_group(a: Asset) -> int {
    match a.source {
        Source::Input(_) => 0,
        Source::Output(_) => 2,
        _ => 1,
    }
}

/// The group in which the node at place `q` of order `o` runs: the group of its asset's kind,
/// raised to the group of every earlier node of `o` that it depends on. So inputs come first,
/// then transformations, then outputs, except that an asset never runs before what it reads.
pub open spec fn place_group(c: Seq<(Seq<char>, Asset)>, o: Seq<usize>, q: int) -> int
    decreases q, q + 1,
{
    if q < 0 || q >= o.len() {
        0
    } else {
        let own = plan_group(c[o[q] as int].1);
        let d = deps_group(c, o, q, q);
        if d > own {
            d
        } else {
            own
        }
    }
}

/// The highest group of the nodes among the first `j` of order `o` that the node at place `q`
/// depends on (0 when there is none).
pub open spec fn deps_group(c: Seq<(Seq<char>, Asset)>, o: Seq<usize>, q: int, j: int) -> int
    decreases q, j,
{
    if j <= 0 || j > q {
        0
    } else {
        let rest = deps_group(c, o, q, j - 1);
        let here = if context_edges(c).contains((o[j - 1], o[q])) {
            place_group(c, o, j - 1)
        } else {
            0
        };
        if here > rest {
            here
        } else {
            rest
        }
    }
}

/// The groups of the places of order `o`.
pub open spec fn place_groups(c: Seq<(Seq<char>, Asset)>, o: Seq<usize>) -> Seq<int> {
    Seq::new(o.len(), |q: int| place_group(c, o, q))
}

/// The nodes of order `o` whose places have group `k` in `g`, in the order of `o`.
pub open spec fn of_group(g: Seq<int>, o: Seq<usize>, k: int) -> Seq<usize>
    decreases o.len(),
{
    if o.len() == 0 {
        Seq::empty()
    } else {
        let rest = of_group(g, o.drop_last(), k);
        if g[o.len() - 1] == k {
            rest.push(o.last())
        } else {
            rest
        }
    }
}

/// Order `o` regrouped by place group (see `place_group`), each group in the order of `o`.
pub open spec fn grouped_order(c: Seq<(Seq<char>, Asset)>, o: Seq<usize>) -> Seq<usize> {
    let g = place_groups(c, o);
    of_group(g, o, 0) + of_group(g, o, 1) + of_group(g, o, 2)
}

fn asset_group(a: &Asset) -> (r: u8)
    ensures
        r as int == plan_group(*a),
{
    match &a.source {
        Source::Input(_) => 0,
        Source::Output(_) => 2,
        _ => 1,
    }
}

fn edge_in(edges: &Vec<(usize, usize)>, a: usize, b: usize) -> (r: bool)
    ensures
        r == edges@.contains((a, b)),
{
    let mut i: usize = 0;
    while i < edges.len()
        invariant
            i <= edges@.len(),
            forall|k: int| 0 <= k < i ==> edges@[k] != (a, b),
        decreases edges@.len() - i,
    {
        let (x, y) = edges[i];
        if x == a && y == b {
            assert(edges@[i as int] == (a, b));
            return true;
        }
        i = i + 1;
    }
    false
}

fn place_groups_of(ctx: &Context, edges: &Vec<(usize, usize)>, order: &Vec<usize>) -> (r: Vec<u8>)
    requires
        edges@ == context_edges(ctx@),
        forall|i: int| 0 <= i < order@.len() ==> (#[trigger] order@[i]) < ctx@.len(),
    ensures
        r@.len() == order@.len(),
        forall|q: int| 0 <= q < order@.len() ==> (#[trigger] r@[q]) as int == place_group(ctx@, order@, q),
{
    let mut r: Vec<u8> = Vec::new();
    let mut q: usize = 0;
    while q < order.len()
        invariant
            q <= order@.len(),
            r@.len() == q,
            edges@ == context_edges(ctx@),
            forall|i: int| 0 <= i < order@.len() ==> (#[trigger] order@[i]) < ctx@.len(),
            forall|j: int| 0 <= j < q ==> (#[trigger] r@[j]) as int == place_group(ctx@, order@, j),
        decreases order@.len() - q,
    {
        let (_, a) = ctx.entry(order[q]);
        let own = asset_group(a);
        let mut d: u8 = 0;
        let mut j: usize = 0;
        while j < q
            invariant
                j <= q,
                q < order@.len(),
                r@.len() == q,
                edges@ == context_edges(ctx@),
                forall|j2: int| 0 <= j2 < q ==> (#[trigger] r@[j2]) as int == place_group(ctx@, order@, j2),
                d as int == deps_group(ctx@, order@, q as int, j as int),
            decreases q - j,
        {
            if edge_in(edges, order[j], order[q]) && r[j] > d {
                d = r[j];
            }
            j = j + 1;
        }
        let g = if d > own { d } else { own };
        r.push(g);
        q = q + 1;
    }
    r
}

fn push_group(groups: &Vec<u8>, order: &Vec<usize>, k: u8, out: &mut Vec<usize>)
    requires
        groups@.len() == order@.len(),
    ensures
        final(out)@ == old(out)@ + of_group(groups@.map_values(|x: u8| x as int), order@, k as int),
{
    let ghost g = groups@.map_values(|x: u8| x as int);
    let ghost o0 = out@;
    let mut i: usize = 0;
    while i < order.len()
        invariant
            i <= order@.len(),
            groups@.len() == order@.len(),
            g == groups@.map_values(|x: u8| x as int),
            out@ == o0 + of_group(g, order@.subrange(0, i as int), k as int),
        decreases order@.len() - i,
    {
        let x = order[i];
        let ghost sub = order@.subrange(0, i + 1);
        assert(sub.drop_last() =~= order@.subrange(0, i as int));
        assert(sub.last() == x);
        if groups[i] == k {
            out.push(x);
        }
        assert(out@ =~= o0 + of_group(g, sub, k as int));
        i = i + 1;
    }
    assert(order@.subrange(0, order@.len() as int) =~= order@);
}

/// An execution plan: every asset name once, each after every asset that it depends on;
/// inputs first, then transformations, then outputs, as far as that order allows (see
/// `place_group`); within each group, the assets in petgraph's topological order of the
/// dependency graph (with the assets as nodes in the order of their names). On a cycle,
/// `E-CYCLE-001`.
pub fn execution_plan(ctx: &Context) -> (r: Result<Vec<AssetRef>, TeckelError>)
    ensures
        match petgraph_toposort(ctx@.len(), context_edges(ctx@)) {
            Some(o) => r matches Ok(p) && plan_ok(ctx@, p@, grouped_order(ctx@, o))
                && is_topo_order(ctx@.len(), context_edges(ctx@), o)
                && is_topo_order(ctx@.len(), context_edges(ctx@), grouped_order(ctx@, o)),
            None => r matches Err(e) && is_spec_error(e, TeckelErrorCode::ECycle001, cycle_message())
                && forall|o: Seq<usize>| !is_topo_order(ctx@.len(), context_edges(ctx@), o),
        },
{
    let edges = build_edges(ctx);
    let order = match toposort_nodes(ctx.len(), &edges) {
        Some(o) => o,
        None => return plan_from_order(ctx, None),
    };
    let groups = place_groups_of(ctx, &edges, &order);
    let mut grouped: Vec<usize> = Vec::new();
    push_group(&groups, &order, 0, &mut grouped);
    push_group(&groups, &order, 1, &mut grouped);
    push_group(&groups, &order, 2, &mut grouped);
    proof {
        assert(groups@.map_values(|x: u8| x as int) =~= place_groups(ctx@, order@));
        assert(grouped@ =~= grouped_order(ctx@, order@));
        lemma_group_members(ctx@, order@);
        lemma_grouped_is_topo(ctx@, order@);
    }
    plan_from_order(ctx, Some(grouped))
}

/// Every place group is 0, 1 or 2.
proof fn lemma_place_group_range(c: Seq<(Seq<char>, Asset)>, o: Seq<usize>, q: int)
    ensures
        0 <= place_group(c, o, q) <= 2,
        forall|j: int| #![trigger deps_group(c, o, q, j)] 0 <= deps_group(c, o, q, j) <= 2,
    decreases q, 2int,
{
    assert forall|j: int| #![trigger deps_group(c, o, q, j)] 0 <= deps_group(c, o, q, j) <= 2 by {
        lemma_deps_group_range(c, o, q, j);
    }    if 0 <= q < o.len() {
        lemma_deps_group_range(c, o, q, q);
        assert(0 <= plan_group(c[o[q] as int].1) <= 2);
    }
}

proof fn lemma_deps_group_range(c: Seq<(Seq<char>, Asset)>, o: Seq<usize>, q: int, j: int)
    ensures
        0 <= deps_group(c, o, q, j) <= 2,
    decreases q, 1int, j,
{
    if j > 0 && j <= q {
        lemma_deps_group_range(c, o, q, j - 1);
        lemma_place_group_range(c, o, j - 1);
    }
}

/// A node's place group is at least that of every earlier node that it depends on.
proof fn lemma_deps_group_ge(c: Seq<(Seq<char>, Asset)>, o: Seq<usize>, q: int, j: int, y: int)
    requires
        0 <= y < j <= q,
        context_edges(c).contains((o[y], o[q])),
    ensures
        deps_group(c, o, q, j) >= place_group(c, o, y),
    decreases j,
{
    if y < j - 1 {
        lemma_deps_group_ge(c, o, q, j - 1, y);
    }
}

/// Every node of a group comes from a place of the order with that group.
proof fn lemma_of_group_from(g: Seq<int>, o: Seq<usize>, k: int)
    ensures
        forall|a: int| #![trigger of_group(g, o, k)[a]] 0 <= a < of_group(g, o, k).len() ==> exists|q: int|
            0 <= q < o.len() && #[trigger] o[q] == of_group(g, o, k)[a] && g[q] == k,
    decreases o.len(),
{
    if o.len() > 0 {
        let d = o.drop_last();
        lemma_of_group_from(g, d, k);
        let rest = of_group(g, d, k);
        assert forall|a: int| #![trigger of_group(g, o, k)[a]] 0 <= a < of_group(g, o, k).len() implies exists|q: int|
            0 <= q < o.len() && #[trigger] o[q] == of_group(g, o, k)[a] && g[q] == k by {
            if a < rest.len() {
                assert(of_group(g, o, k)[a] == rest[a]);
                let q = choose|q: int| 0 <= q < d.len() && #[trigger] d[q] == rest[a] && g[q] == k;
                assert(o[q] == d[q]);
            } else {
                assert(of_group(g, o, k)[a] == o.last());
                assert(o[o.len() - 1] == o.last());
            }
        }
    }
}

/// Two places of the order with group `k` keep their order in that group's list.
proof fn lemma_of_group_keeps(g: Seq<int>, o: Seq<usize>, k: int, qx: int, qy: int)
    requires
        0 <= qx < qy < o.len(),
        g[qx] == k,
        g[qy] == k,
    ensures
        exists|ax: int, ay: int| 0 <= ax < ay < of_group(g, o, k).len()
            && #[trigger] of_group(g, o, k)[ax] == o[qx] && #[trigger] of_group(g, o, k)[ay] == o[qy],
    decreases o.len(),
{
    let d = o.drop_last();
    if qy < o.len() - 1 {
        assert(d[qx] == o[qx] && d[qy] == o[qy]);
        lemma_of_group_keeps(g, d, k, qx, qy);
        let rest = of_group(g, d, k);
        let (ax, ay) = choose|ax: int, ay: int| 0 <= ax < ay < rest.len() && #[trigger] rest[ax] == d[qx] && #[trigger] rest[ay] == d[qy];
        assert(of_group(g, o, k)[ax] == rest[ax] && of_group(g, o, k)[ay] == rest[ay]);
    } else {
        assert(d[qx] == o[qx]);
        lemma_of_group_has(g, d, k, qx);
        let rest = of_group(g, d, k);
        let ax = choose|ax: int| 0 <= ax < rest.len() && #[trigger] rest[ax] == d[qx];
        assert(of_group(g, o, k) == rest.push(o.last()));
        assert(of_group(g, o, k)[ax] == o[qx]);
        assert(of_group(g, o, k)[rest.len() as int] == o[qy]);
    }
}

/// A place of the order with group `k` has its node in that group's list.
proof fn lemma_of_group_has(g: Seq<int>, o: Seq<usize>, k: int, q: int)
    requires
        0 <= q < o.len(),
        g[q] == k,
    ensures
        exists|a: int| 0 <= a < of_group(g, o, k).len() && #[trigger] of_group(g, o, k)[a] == o[q],
    decreases o.len(),
{
    let d = o.drop_last();
    let rest = of_group(g, d, k);
    if q < o.len() - 1 {
        assert(d[q] == o[q]);
        lemma_of_group_has(g, d, k, q);
        let a = choose|a: int| 0 <= a < rest.len() && #[trigger] rest[a] == d[q];
        assert(of_group(g, o, k)[a] == rest[a]);
    } else {
        assert(of_group(g, o, k) == rest.push(o.last()));
        assert(of_group(g, o, k)[rest.len() as int] == o[q]);
    }
}

/// A group's list has no repeated node when the order has none.
proof fn lemma_of_group_distinct(g: Seq<int>, o: Seq<usize>, k: int)
    requires
        forall|i: int, j: int| 0 <= i < j < o.len() ==> #[trigger] o[i] != #[trigger] o[j],
    ensures
        forall|a: int, b: int| 0 <= a < b < of_group(g, o, k).len()
            ==> #[trigger] of_group(g, o, k)[a] != #[trigger] of_group(g, o, k)[b],
    decreases o.len(),
{
    if o.len() > 0 {
        let d = o.drop_last();
        assert forall|i: int, j: int| 0 <= i < j < d.len() implies #[trigger] d[i] != #[trigger] d[j] by {
            assert(d[i] == o[i] && d[j] == o[j]);
        }
        lemma_of_group_distinct(g, d, k);
        lemma_of_group_from(g, d, k);
        let rest = of_group(g, d, k);
        assert forall|a: int, b: int| 0 <= a < b < of_group(g, o, k).len()
            implies #[trigger] of_group(g, o, k)[a] != #[trigger] of_group(g, o, k)[b] by {
            if b < rest.len() {
                assert(of_group(g, o, k)[a] == rest[a] && of_group(g, o, k)[b] == rest[b]);
            } else {
                assert(of_group(g, o, k)[a] == rest[a]);
                assert(of_group(g, o, k)[b] == o.last());
                let q = choose|q: int| 0 <= q < d.len() && #[trigger] d[q] == rest[a] && g[q] == k;
                assert(o[q] == d[q]);
                assert(o[q] != o[o.len() - 1]);
            }
        }
    }
}

/// When every group is 0, 1 or 2, each place lands in exactly one list: the three lists
/// together are as long as the order.
proof fn lemma_of_group_lengths(g: Seq<int>, o: Seq<usize>)
    requires
        forall|q: int| 0 <= q < o.len() ==> 0 <= #[trigger] g[q] <= 2,
    ensures
        of_group(g, o, 0).len() + of_group(g, o, 1).len() + of_group(g, o, 2).len() == o.len(),
    decreases o.len(),
{
    if o.len() > 0 {
        lemma_of_group_lengths(g, o.drop_last());
        assert(0 <= g[o.len() - 1] <= 2);
    }
}

/// Where a place of the regrouped order lies: in its group's list at an offset, and the node
/// there comes from a place of the order with that group.
proof fn lemma_grouped_place(c: Seq<(Seq<char>, Asset)>, o: Seq<usize>, i: int)
    requires
        0 <= i < grouped_order(c, o).len(),
    ensures
        ({
            let g = place_groups(c, o);
            let l0 = of_group(g, o, 0).len() as int;
            let l1 = of_group(g, o, 1).len() as int;
            let b = if i < l0 { 0int } else if i < l0 + l1 { 1int } else { 2int };
            let off = if b == 0 { 0int } else if b == 1 { l0 } else { l0 + l1 };
            &&& 0 <= i - off < of_group(g, o, b).len()
            &&& grouped_order(c, o)[i] == of_group(g, o, b)[i - off]
            &&& exists|q: int| 0 <= q < o.len() && #[trigger] o[q] == grouped_order(c, o)[i] && g[q] == b
        }),
{
    let g = place_groups(c, o);
    lemma_of_group_from(g, o, 0);
    lemma_of_group_from(g, o, 1);
    lemma_of_group_from(g, o, 2);
}

/// What `execution_plan` needs of the regrouped order: its nodes are those of the order.
proof fn lemma_group_members(c: Seq<(Seq<char>, Asset)>, o: Seq<usize>)
    requires
        forall|i: int| 0 <= i < o.len() ==> (#[trigger] o[i]) < c.len(),
    ensures
        forall|i: int| 0 <= i < grouped_order(c, o).len() ==> (#[trigger] grouped_order(c, o)[i]) < c.len(),
{
    assert forall|i: int| 0 <= i < grouped_order(c, o).len() implies (#[trigger] grouped_order(c, o)[i]) < c.len() by {
        lemma_grouped_place(c, o, i);
    }
}

/// The place groups of an order, as a sequence, are all 0, 1 or 2.
proof fn lemma_place_groups_range(c: Seq<(Seq<char>, Asset)>, o: Seq<usize>)
    ensures
        forall|q: int| 0 <= q < o.len() ==> 0 <= #[trigger] place_groups(c, o)[q] <= 2,
{
    assert forall|q: int| 0 <= q < o.len() implies 0 <= #[trigger] place_groups(c, o)[q] <= 2 by {
        lemma_place_group_range(c, o, q);
    }
}

proof fn lemma_dep_edge_in(c: Seq<(Seq<char>, Asset)>, deps: Seq<Seq<char>>, x: int, k: int)
    requires
        0 <= k < deps.len(),
        has_key(c, deps[k]),
    ensures
        exists|e: int| 0 <= e < dep_edges(c, deps, x).len()
            && #[trigger] dep_edges(c, deps, x)[e] == (key_index(c, deps[k]) as usize, x as usize),
    decreases deps.len(),
{
    let r = dep_edges(c, deps.drop_last(), x);
    if k == deps.len() - 1 {
        let t = r.push((key_index(c, deps.last()) as usize, x as usize));
        assert(dep_edges(c, deps, x) == t);
        assert(t[r.len() as int] == (key_index(c, deps[k]) as usize, x as usize));
    } else {
        lemma_dep_edge_in(c, deps.drop_last(), x, k);
        assert(deps.drop_last()[k] == deps[k]);
        let e = choose|e: int| 0 <= e < r.len() && #[trigger] r[e] == (key_index(c, deps[k]) as usize, x as usize);
        if has_key(c, deps.last()) {
            let t = r.push((key_index(c, deps.last()) as usize, x as usize));
            assert(dep_edges(c, deps, x) == t);
            assert(t[e] == r[e]);
        } else {
            assert(dep_edges(c, deps, x) == r);
        }
    }
}

proof fn lemma_graph_edge_in(c: Seq<(Seq<char>, Asset)>, m: int, x: int, k: int)
    requires
        0 <= x < m <= c.len(),
        0 <= k < source_deps(c[x].1.source).len(),
        has_key(c, source_deps(c[x].1.source)[k]),
    ensures
        exists|e: int| 0 <= e < graph_edges(c, m).len()
            && #[trigger] graph_edges(c, m)[e] == (key_index(c, source_deps(c[x].1.source)[k]) as usize, x as usize),
    decreases m,
{
    let a = graph_edges(c, m - 1);
    let b = dep_edges(c, source_deps(c[m - 1].1.source), m - 1);
    let w = (key_index(c, source_deps(c[x].1.source)[k]) as usize, x as usize);
    assert(graph_edges(c, m) == a + b);
    if x == m - 1 {
        lemma_dep_edge_in(c, source_deps(c[x].1.source), x, k);
        let e = choose|e: int| 0 <= e < b.len() && #[trigger] b[e] == w;
        assert((a + b)[a.len() + e] == b[e]);
    } else {
        lemma_graph_edge_in(c, m - 1, x, k);
        let e = choose|e: int| 0 <= e < a.len() && #[trigger] a[e] == w;
        assert((a + b)[e] == a[e]);
    }
}

/// The regrouped order holds each node of the order once.
proof fn lemma_group_members_in(c: Seq<(Seq<char>, Asset)>, o: Seq<usize>)
    requires
        forall|i: int, j: int| 0 <= i < j < o.len() ==> #[trigger] o[i] != #[trigger] o[j],
    ensures
        grouped_order(c, o).len() == o.len(),
        forall|i: int| 0 <= i < grouped_order(c, o).len() ==> o.contains(#[trigger] grouped_order(c, o)[i]),
        forall|i: int, j: int| 0 <= i < j < grouped_order(c, o).len()
            ==> #[trigger] grouped_order(c, o)[i] != #[trigger] grouped_order(c, o)[j],
{
    let g = place_groups(c, o);
    lemma_place_groups_range(c, o);
    lemma_of_group_lengths(g, o);
    lemma_of_group_distinct(g, o, 0);
    lemma_of_group_distinct(g, o, 1);
    lemma_of_group_distinct(g, o, 2);
    let go = grouped_order(c, o);
    assert forall|i: int| 0 <= i < go.len() implies o.contains(#[trigger] go[i]) by {
        lemma_grouped_place(c, o, i);
    }
    assert forall|i: int, j: int| 0 <= i < j < go.len() implies #[trigger] go[i] != #[trigger] go[j] by {
        lemma_grouped_place(c, o, i);
        lemma_grouped_place(c, o, j);
        let l0 = of_group(g, o, 0).len() as int;
        let l1 = of_group(g, o, 1).len() as int;
        let bi = if i < l0 { 0int } else if i < l0 + l1 { 1int } else { 2int };
        let bj = if j < l0 { 0int } else if j < l0 + l1 { 1int } else { 2int };
        let qi = choose|q: int| 0 <= q < o.len() && #[trigger] o[q] == go[i] && g[q] == bi;
        let qj = choose|q: int| 0 <= q < o.len() && #[trigger] o[q] == go[j] && g[q] == bj;
        if bi != bj {
            if go[i] == go[j] {
                if qi < qj {
                    assert(o[qi] != o[qj]);
                } else if qj < qi {
                    assert(o[qj] != o[qi]);
                }
            }
        }
    }
}

/// The regrouped order of a topological order is a topological order too: a node's place
/// group is at least that of every node it depends on, and within a group the order is kept.
proof fn lemma_grouped_is_topo(c: Seq<(Seq<char>, Asset)>, o: Seq<usize>)
    requires
        is_topo_order(c.len(), context_edges(c), o),
    ensures
        is_topo_order(c.len(), context_edges(c), grouped_order(c, o)),
{
    let g = place_groups(c, o);
    let go = grouped_order(c, o);
    let edges = context_edges(c);
    let n = c.len();
    lemma_group_members_in(c, o);
    lemma_group_members(c, o);
    lemma_of_group_distinct(g, o, 0);
    lemma_of_group_distinct(g, o, 1);
    lemma_of_group_distinct(g, o, 2);
    assert forall|e: int, i: int, j: int|
        0 <= e < edges.len() && 0 <= i < n && 0 <= j < n && #[trigger] go[i] == (#[trigger] edges[e]).0
            && #[trigger] go[j] == edges[e].1 implies i < j by {
        lemma_grouped_place(c, o, i);
        lemma_grouped_place(c, o, j);
        let l0 = of_group(g, o, 0).len() as int;
        let l1 = of_group(g, o, 1).len() as int;
        let bi = if i < l0 { 0int } else if i < l0 + l1 { 1int } else { 2int };
        let bj = if j < l0 { 0int } else if j < l0 + l1 { 1int } else { 2int };
        let qy = choose|q: int| 0 <= q < o.len() && #[trigger] o[q] == go[i] && g[q] == bi;
        let qx = choose|q: int| 0 <= q < o.len() && #[trigger] o[q] == go[j] && g[q] == bj;
        assert(o[qy] == edges[e].0 && o[qx] == edges[e].1);
        assert(qy < qx);
        assert(edges[e] == (o[qy], o[qx]));
        assert(edges.contains((o[qy], o[qx])));
        lemma_deps_group_ge(c, o, qx, qx, qy);
        assert(g[qx] == place_group(c, o, qx));
        assert(g[qy] == place_group(c, o, qy));
        assert(bi <= bj);
        if bi == bj {
            lemma_of_group_keeps(g, o, bi, qy, qx);
            let l = of_group(g, o, bi);
            let (ay, ax) = choose|ay: int, ax: int| 0 <= ay < ax < l.len() && #[trigger] l[ay] == o[qy] && #[trigger] l[ax] == o[qx];
            let off = if bi == 0 { 0int } else if bi == 1 { l0 } else { l0 + l1 };
            assert(l[i - off] == l[ay]);
            assert(l[j - off] == l[ax]);
        }
    }
}

proof fn lemma_dep_edges_from(c: Seq<(Seq<char>, Asset)>, deps: Seq<Seq<char>>, i: int, e: int)
    requires
        0 <= e < dep_edges(c, deps, i).len(),
    ensures
        exists|k: int| 0 <= k < deps.len() && has_key(c, #[trigger] deps[k])
            && dep_edges(c, deps, i)[e] == (key_index(c, deps[k]) as usize, i as usize),
    decreases deps.len(),
{
    let d = deps.drop_last();
    let r = dep_edges(c, d, i);
    if e < r.len() {
        lemma_dep_edges_from(c, d, i, e);
        let k = choose|k: int| 0 <= k < d.len() && has_key(c, #[trigger] d[k])
            && r[e] == (key_index(c, d[k]) as usize, i as usize);
        assert(d[k] == deps[k]);
        if has_key(c, deps.last()) {
            assert(dep_edges(c, deps, i)[e] == r[e]);
        }
    } else {
        assert(deps[deps.len() - 1] == deps.last());
    }
}

proof fn lemma_graph_edge_from(c: Seq<(Seq<char>, Asset)>, m: int, e: int)
    requires
        0 <= m <= c.len(),
        0 <= e < graph_edges(c, m).len(),
    ensures
        exists|x: int, k: int| #![trigger source_deps(c[x].1.source)[k]]
            0 <= x < m && 0 <= k < source_deps(c[x].1.source).len()
            && has_key(c, source_deps(c[x].1.source)[k])
            && graph_edges(c, m)[e] == (key_index(c, source_deps(c[x].1.source)[k]) as usize, x as usize),
    decreases m,
{
    let a = graph_edges(c, m - 1);
    let b = dep_edges(c, source_deps(c[m - 1].1.source), m - 1);
    assert(graph_edges(c, m) == a + b);
    if e < a.len() {
        lemma_graph_edge_from(c, m - 1, e);
        assert(graph_edges(c, m)[e] == a[e]);
    } else {
        lemma_dep_edges_from(c, source_deps(c[m - 1].1.source), m - 1, e - a.len());
        assert(graph_edges(c, m)[e] == b[e - a.len()]);
    }
}

/// An edge into node `x` comes from an asset that `x` names among its dependencies.
proof fn lemma_edge_source(c: Seq<(Seq<char>, Asset)>, y: usize, x: usize)
    requires
        c.len() <= usize::MAX,
        context_edges(c).contains((y, x)),
    ensures
        (y as int) < c.len(),
        (x as int) < c.len(),
        exists|k: int| 0 <= k < source_deps(c[x as int].1.source).len()
            && #[trigger] source_deps(c[x as int].1.source)[k] == c[y as int].0,
{
    let edges = context_edges(c);
    let e = choose|e: int| 0 <= e < edges.len() && edges[e] == (y, x);
    lemma_graph_edge_from(c, c.len() as int, e);
    let (x1, k) = choose|x1: int, k: int| #![trigger source_deps(c[x1].1.source)[k]]
        0 <= x1 < c.len() && 0 <= k < source_deps(c[x1].1.source).len()
        && has_key(c, source_deps(c[x1].1.source)[k])
        && edges[e] == (key_index(c, source_deps(c[x1].1.source)[k]) as usize, x1 as usize);
    let dep = source_deps(c[x1].1.source)[k];
    let ki = key_index(c, dep);
    assert(0 <= ki < c.len() && c[ki].0 == dep);
    assert((x1 as usize) as int == x1);
    assert((ki as usize) as int == ki);
    assert(x as int == x1);
    assert(y as int == ki);
}

/// No earlier node gives a group to a node that has no edge into it.
proof fn lemma_deps_group_none(c: Seq<(Seq<char>, Asset)>, o: Seq<usize>, q: int, j: int)
    requires
        forall|y: usize| !context_edges(c).contains((y, o[q])),
    ensures
        deps_group(c, o, q, j) == 0,
    decreases j,
{
    if j > 0 && j <= q {
        lemma_deps_group_none(c, o, q, j - 1);
        assert(!context_edges(c).contains((o[j - 1], o[q])));
    }
}

/// When no asset but an output reads from an output, every place group is the group of the
/// asset's kind.
proof fn lemma_place_group_is_kind(c: Seq<(Seq<char>, Asset)>, o: Seq<usize>, q: int)
    requires
        keys_increasing(c),
        c.len() <= usize::MAX,
        forall|i: int| 0 <= i < o.len() ==> (#[trigger] o[i]) < c.len(),
        forall|x: int, k: int| 0 <= x < c.len() && !(c[x].1.source is Output)
            && 0 <= k < source_deps(c[x].1.source).len()
            ==> !(lookup(c, #[trigger] source_deps(c[x].1.source)[k]) matches Some(b) && b.source is Output),
        0 <= q < o.len(),
    ensures
        place_group(c, o, q) == plan_group(c[o[q] as int].1),
    decreases q, 1int,
{
    lemma_deps_group_le_kind(c, o, q, q);
}

proof fn lemma_deps_group_le_kind(c: Seq<(Seq<char>, Asset)>, o: Seq<usize>, q: int, j: int)
    requires
        keys_increasing(c),
        c.len() <= usize::MAX,
        forall|i: int| 0 <= i < o.len() ==> (#[trigger] o[i]) < c.len(),
        forall|x: int, k: int| 0 <= x < c.len() && !(c[x].1.source is Output)
            && 0 <= k < source_deps(c[x].1.source).len()
            ==> !(lookup(c, #[trigger] source_deps(c[x].1.source)[k]) matches Some(b) && b.source is Output),
        0 <= q < o.len(),
    ensures
        deps_group(c, o, q, j) <= plan_group(c[o[q] as int].1),
    decreases q, 0int, j,
{
    if j > 0 && j <= q {
        lemma_deps_group_le_kind(c, o, q, j - 1);
        if context_edges(c).contains((o[j - 1], o[q])) {
            lemma_place_group_is_kind(c, o, j - 1);
            lemma_edge_source(c, o[j - 1], o[q]);
            let x = o[q] as int;
            let y = o[j - 1] as int;
            let k = choose|k: int| 0 <= k < source_deps(c[x].1.source).len()
                && #[trigger] source_deps(c[x].1.source)[k] == c[y].0;
            let dep = source_deps(c[x].1.source)[k];
            crate::asset::lemma_lookup_at(c, y);
            assert(lookup(c, dep) == Some(c[y].1));
            assert(!(c[x].1.source is Input));
            assert(place_group(c, o, j - 1) == plan_group(c[y].1));
            if !(c[x].1.source is Output) {
                assert(!(c[y].1.source is Output));
            }
        }
    }
}

/// In an execution plan, the inputs come first: an asset before an input is an input.
pub proof fn lemma_plan_inputs_first(c: Seq<(Seq<char>, Asset)>, p: Seq<AssetRef>, o: Seq<usize>, i: int, j: int)
    requires
        keys_increasing(c),
        c.len() <= usize::MAX,
        plan_ok(c, p, grouped_order(c, o)),
        is_topo_order(c.len(), context_edges(c), o),
        0 <= i < j < p.len(),
        lookup(c, p[j]@) matches Some(b) && b.source is Input,
    ensures
        lookup(c, p[i]@) matches Some(a) && a.source is Input,
{
    let go = grouped_order(c, o);
    let g = place_groups(c, o);
    lemma_group_members(c, o);
    lemma_group_members_in(c, o);
    lemma_grouped_place(c, o, i);
    lemma_grouped_place(c, o, j);
    crate::asset::lemma_lookup_at(c, go[i] as int);
    crate::asset::lemma_lookup_at(c, go[j] as int);
    let l0 = of_group(g, o, 0).len() as int;
    let l1 = of_group(g, o, 1).len() as int;
    let bi = if i < l0 { 0int } else if i < l0 + l1 { 1int } else { 2int };
    let bj = if j < l0 { 0int } else if j < l0 + l1 { 1int } else { 2int };
    let qy = choose|q: int| 0 <= q < o.len() && #[trigger] o[q] == go[i] && g[q] == bi;
    let qx = choose|q: int| 0 <= q < o.len() && #[trigger] o[q] == go[j] && g[q] == bj;
    assert forall|y: usize| !context_edges(c).contains((y, o[qx])) by {
        if context_edges(c).contains((y, o[qx])) {
            lemma_edge_source(c, y, o[qx]);
            assert(source_deps(c[o[qx] as int].1.source).len() > 0);
        }
    }
    lemma_deps_group_none(c, o, qx, qx);
    assert(g[qx] == place_group(c, o, qx));
    lemma_place_group_range(c, o, qy);
    assert(g[qy] == place_group(c, o, qy));
}

/// In an execution plan of a context where only outputs read from outputs, the inputs come
/// first, then the transformations, then the outputs.
pub proof fn lemma_plan_grouped(c: Seq<(Seq<char>, Asset)>, p: Seq<AssetRef>, o: Seq<usize>, i: int, j: int)
    requires
        keys_increasing(c),
        c.len() <= usize::MAX,
        plan_ok(c, p, grouped_order(c, o)),
        is_topo_order(c.len(), context_edges(c), o),
        forall|x: int, k: int| 0 <= x < c.len() && !(c[x].1.source is Output)
            && 0 <= k < source_deps(c[x].1.source).len()
            ==> !(lookup(c, #[trigger] source_deps(c[x].1.source)[k]) matches Some(b) && b.source is Output),
        0 <= i < j < p.len(),
    ensures
        lookup(c, p[i]@) matches Some(a) && lookup(c, p[j]@) matches Some(b)
            && plan_group(a) <= plan_group(b),
{
    let go = grouped_order(c, o);
    let g = place_groups(c, o);
    lemma_group_members(c, o);
    lemma_group_members_in(c, o);
    lemma_grouped_place(c, o, i);
    lemma_grouped_place(c, o, j);
    crate::asset::lemma_lookup_at(c, go[i] as int);
    crate::asset::lemma_lookup_at(c, go[j] as int);
    let l0 = of_group(g, o, 0).len() as int;
    let l1 = of_group(g, o, 1).len() as int;
    let bi = if i < l0 { 0int } else if i < l0 + l1 { 1int } else { 2int };
    let bj = if j < l0 { 0int } else if j < l0 + l1 { 1int } else { 2int };
    let qy = choose|q: int| 0 <= q < o.len() && #[trigger] o[q] == go[i] && g[q] == bi;
    let qx = choose|q: int| 0 <= q < o.len() && #[trigger] o[q] == go[j] && g[q] == bj;
    lemma_place_group_is_kind(c, o, qy);
    lemma_place_group_is_kind(c, o, qx);
}

/// In an execution plan, an asset comes after every asset of the context that it depends on:
/// if the asset at place `j` names, among its dependencies, the asset at place `i`, then
/// `i < j`.
pub proof fn lemma_plan_respects_dependencies(
    c: Seq<(Seq<char>, Asset)>,
    p: Seq<AssetRef>,
    o: Seq<usize>,
    i: int,
    j: int,
    k: int,
)
    requires
        keys_increasing(c),
        c.len() <= usize::MAX,
        plan_ok(c, p, grouped_order(c, o)),
        is_topo_order(c.len(), context_edges(c), o),
        0 <= i < p.len(),
        0 <= j < p.len(),
        lookup(c, p[j]@) matches Some(a) && 0 <= k < source_deps(a.source).len()
            && source_deps(a.source)[k] == p[i]@,
    ensures
        i < j,
{
    let g = grouped_order(c, o);
    lemma_grouped_is_topo(c, o);
    let x = g[j] as int;
    let y = g[i] as int;
    assert(p[j]@ == c[x].0 && p[i]@ == c[y].0);
    crate::asset::lemma_lookup_at(c, x);
    crate::asset::lemma_lookup_at(c, y);
    let deps = source_deps(c[x].1.source);
    assert(deps[k] == c[y].0);
    lemma_graph_edge_in(c, c.len() as int, x, k);
    let edges = context_edges(c);
    let e = choose|e: int| 0 <= e < edges.len() && #[trigger] edges[e] == (key_index(c, deps[k]) as usize, x as usize);
    assert((y as usize) as int == y);
    assert((x as usize) as int == x);
    assert(g[i] == edges[e].0 && g[j] == edges[e].1);
}

} // verus!

verus! {

// ── Tag propagation ──────────────────────────────────────────────

/// `acc` followed by each text of `xs` that is not yet there, in order.
pub open spec fn add_new(acc: Seq<Seq<char>>, xs: Seq<Seq<char>>) -> Seq<Seq<char>>
    decreases xs.len(),
{
    if xs.len() == 0 {
        acc
    } else {
        let a = add_new(acc, xs.drop_last());
        if a.contains(xs.last()) {
            a
        } else {
            a.push(xs.last())
        }
    }
}

/// The texts of `xs` that are not in `remove`, in order.
pub open spec fn without(xs: Seq<Seq<char>>, remove: Seq<Seq<char>>) -> Seq<Seq<char>>
    decreases xs.len(),
{
    if xs.len() == 0 {
        Seq::empty()
    } else if remove.contains(xs.last()) {
        without(xs.drop_last(), remove)
    } else {
        without(xs.drop_last(), remove).push(xs.last())
    }
}

/// The texts of all the lists, each once, in order of first appearance.
pub open spec fn merge_all(lists: Seq<Seq<Seq<char>>>) -> Seq<Seq<char>>
    decreases lists.len(),
{
    if lists.len() == 0 {
        Seq::empty()
    } else {
        add_new(merge_all(lists.drop_last()), lists.last())
    }
}

/// The tags of an asset after propagation: its own tags, then the inherited ones that are
/// neither removed nor already its own.
pub open spec fn propagated(own: Seq<Seq<char>>, remove: Seq<Seq<char>>, inherited: Seq<Seq<Seq<char>>>) -> Seq<Seq<char>> {
    add_new(own, without(merge_all(inherited), remove))
}

/// The tag lists, under `tags`, of the dependencies `deps` that are assets of `c`, in order.
pub open spec fn dep_tag_lists(c: Seq<(Seq<char>, Asset)>, deps: Seq<Seq<char>>, tags: Seq<Seq<Seq<char>>>) -> Seq<Seq<Seq<char>>>
    decreases deps.len(),
{
    if deps.len() == 0 {
        Seq::empty()
    } else {
        let rest = dep_tag_lists(c, deps.drop_last(), tags);
        if has_key(c, deps.last()) {
            rest.push(tags[key_index(c, deps.last())])
        } else {
            rest
        }
    }
}

/// The tags of each asset of `c`, by index.
pub open spec fn tags_of(c: Seq<(Seq<char>, Asset)>) -> Seq<Seq<Seq<char>>> {
    Seq::new(c.len(), |i: int| texts(c[i].1.metadata.tags@))
}

/// Every asset of `c1` carries the tags that propagation gives from the assets of `c0`: its
/// own tags in `c0`, then those of its dependencies in `c1` that it does not remove.
/// Nothing else differs.
pub open spec fn tags_propagated(c0: Seq<(Seq<char>, Asset)>, c1: Seq<(Seq<char>, Asset)>) -> bool {
    &&& c1.len() == c0.len()
    &&& forall|i: int| 0 <= i < c0.len() ==> {
        &&& (#[trigger] c1[i]).0 == c0[i].0
        &&& c1[i].1.asset_ref == c0[i].1.asset_ref
        &&& c1[i].1.source == c0[i].1.source
        &&& c1[i].1.metadata.description == c0[i].1.metadata.description
        &&& c1[i].1.metadata.remove_tags == c0[i].1.metadata.remove_tags
        &&& c1[i].1.metadata.meta == c0[i].1.metadata.meta
        &&& c1[i].1.metadata.owner == c0[i].1.metadata.owner
        &&& c1[i].1.metadata.columns == c0[i].1.metadata.columns
        &&& c1[i].1.metadata.freshness == c0[i].1.metadata.freshness
        &&& c1[i].1.metadata.maturity == c0[i].1.metadata.maturity
        &&& texts(c1[i].1.metadata.tags@) == propagated(
            texts(c0[i].1.metadata.tags@),
            texts(c0[i].1.metadata.remove_tags@),
            dep_tag_lists(c0, source_deps(c0[i].1.source), tags_of(c1)),
        )
    }
}

fn contains_text(v: &Vec<String>, t: &str) -> (r: bool)
    ensures
        r == texts(v@).contains(t@),
{
    let mut i: usize = 0;
    while i < v.len()
        invariant
            i <= v@.len(),
            forall|j: int| 0 <= j < i ==> (#[trigger] v@[j])@ != t@,
        decreases v@.len() - i,
    {
        if crate::text::compare_text(v[i].as_str(), t) == 0 {
            assert(texts(v@)[i as int] == t@);
            return true;
        }
        i = i + 1;
    }
    proof {
        if texts(v@).contains(t@) {
            let j = choose|j: int| 0 <= j < texts(v@).len() && texts(v@)[j] == t@;
            assert(v@[j]@ == t@);
        }
    }
    false
}

/// Appends to `acc` each string of `xs` that it does not hold yet, in order.
fn append_new(acc: &mut Vec<String>, xs: &Vec<String>)
    ensures
        texts(final(acc)@) == add_new(texts(old(acc)@), texts(xs@)),
{
    let ghost a0 = texts(acc@);
    let mut i: usize = 0;
    while i < xs.len()
        invariant
            i <= xs@.len(),
            texts(acc@) == add_new(a0, texts(xs@).subrange(0, i as int)),
        decreases xs@.len() - i,
    {
        let ghost cur = texts(xs@).subrange(0, i + 1);
        assert(cur.drop_last() =~= texts(xs@).subrange(0, i as int));
        assert(cur.last() == xs@[i as int]@);
        if !contains_text(acc, xs[i].as_str()) {
            let ghost before = acc@;
            acc.push(xs[i].clone());
            assert(texts(acc@) =~= texts(before).push(xs@[i as int]@));
        }
        i = i + 1;
    }
    assert(texts(xs@).subrange(0, xs@.len() as int) =~= texts(xs@));
}

/// The strings of `xs` whose text is not in `remove`, in order.
fn keep_unremoved(xs: &Vec<String>, remove: &Vec<String>) -> (r: Vec<String>)
    ensures
        texts(r@) == without(texts(xs@), texts(remove@)),
{
    let mut r: Vec<String> = Vec::new();
    let mut i: usize = 0;
    while i < xs.len()
        invariant
            i <= xs@.len(),
            texts(r@) == without(texts(xs@).subrange(0, i as int), texts(remove@)),
        decreases xs@.len() - i,
    {
        let ghost cur = texts(xs@).subrange(0, i + 1);
        assert(cur.drop_last() =~= texts(xs@).subrange(0, i as int));
        assert(cur.last() == xs@[i as int]@);
        if !contains_text(remove, xs[i].as_str()) {
            let ghost before = r@;
            r.push(xs[i].clone());
            assert(texts(r@) =~= texts(before).push(xs@[i as int]@));
        }
        i = i + 1;
    }
    assert(texts(xs@).subrange(0, xs@.len() as int) =~= texts(xs@));
    r
}

/// An order of `n` distinct nodes below `n` names every node.
proof fn lemma_order_covers(n: nat, o: Seq<usize>, x: int)
    requires
        o.len() == n,
        forall|i: int| 0 <= i < n ==> (#[trigger] o[i]) < n,
        forall|i: int, j: int| 0 <= i < j < n ==> #[trigger] o[i] != #[trigger] o[j],
        0 <= x < n,
    ensures
        exists|s: int| 0 <= s < n && o[s] == x,
{
    let m = o.map_values(|v: usize| v as int);
    assert forall|i: int, j: int| 0 <= i < m.len() && 0 <= j < m.len() && i != j implies m[i] != m[j] by {
        if i < j {
            assert(o[i] != o[j]);
        } else {
            assert(o[j] != o[i]);
        }
    }
    assert(m.no_duplicates());
    m.unique_seq_to_set();
    let r = vstd::set_lib::set_int_range(0, n as int);
    vstd::set_lib::lemma_int_range(0, n as int);
    assert(m.to_set().subset_of(r)) by {
        assert forall|v: int| m.to_set().contains(v) implies r.contains(v) by {
            let i = choose|i: int| 0 <= i < m.len() && m[i] == v;
            assert(o[i] < n);
        }
    }
    vstd::set_lib::lemma_len_subset(m.to_set(), r);
    vstd::set_lib::lemma_subset_equality(m.to_set(), r);
    assert(r.contains(x));
    assert(m.to_set().contains(x));
    let s = choose|s: int| 0 <= s < m.len() && m[s] == x;
    assert(o[s] as int == x);
}

/// Dependency tag lists read only the tags of the dependencies.
proof fn lemma_dep_tag_lists_frame(
    c: Seq<(Seq<char>, Asset)>,
    deps: Seq<Seq<char>>,
    v: Seq<Seq<Seq<char>>>,
    w: Seq<Seq<Seq<char>>>,
)
    requires
        forall|k: int| 0 <= k < deps.len() && has_key(c, #[trigger] deps[k])
            ==> v[key_index(c, deps[k])] == w[key_index(c, deps[k])],
    ensures
        dep_tag_lists(c, deps, v) == dep_tag_lists(c, deps, w),
    decreases deps.len(),
{
    if deps.len() > 0 {
        assert forall|k: int| 0 <= k < deps.drop_last().len() && has_key(c, #[trigger] deps.drop_last()[k])
            implies v[key_index(c, deps.drop_last()[k])] == w[key_index(c, deps.drop_last()[k])] by {
            assert(deps.drop_last()[k] == deps[k]);
        }
        lemma_dep_tag_lists_frame(c, deps.drop_last(), v, w);
        if has_key(c, deps.last()) {
            assert(deps.last() == deps[deps.len() - 1]);
        }
    }
}

/// The tags held so far, by asset index; none where not yet resolved.
pub open spec fn resolved_tags(r: Seq<Option<Vec<String>>>) -> Seq<Seq<Seq<char>>> {
    Seq::new(r.len(), |j: int| match r[j] {
        Some(v) => texts(v@),
        None => Seq::empty(),
    })
}

/// Every dependency of asset `i` that is in `c` has its tags resolved.
pub open spec fn deps_resolved(c: Seq<(Seq<char>, Asset)>, i: int, r: Seq<Option<Vec<String>>>) -> bool {
    forall|k: int| 0 <= k < source_deps(c[i].1.source).len() && has_key(c, #[trigger] source_deps(c[i].1.source)[k])
        ==> r[key_index(c, source_deps(c[i].1.source)[k])] is Some
}

/// The resolved tags of asset `i` are its own, then what its dependencies pass on.
pub open spec fn resolved_ok(c: Seq<(Seq<char>, Asset)>, i: int, r: Seq<Option<Vec<String>>>) -> bool {
    r[i] matches Some(v) ==> {
        &&& deps_resolved(c, i, r)
        &&& texts(v@) == propagated(
            texts(c[i].1.metadata.tags@),
            texts(c[i].1.metadata.remove_tags@),
            dep_tag_lists(c, source_deps(c[i].1.source), resolved_tags(r)),
        )
    }
}

/// The tags that asset `x` inherits, given the resolved tags of its dependencies.
fn inherited_tags(ctx: &Context, x: usize, resolved: &Vec<Option<Vec<String>>>) -> (r: Vec<String>)
    requires
        x < ctx@.len(),
        resolved@.len() == ctx@.len(),
        deps_resolved(ctx@, x as int, resolved@),
    ensures
        texts(r@) == merge_all(dep_tag_lists(ctx@, source_deps(ctx@[x as int].1.source), resolved_tags(resolved@))),
{
    let (_, asset) = ctx.entry(x);
    let deps = asset.source.dependencies();
    let ghost ds = texts(deps@);
    let ghost v = resolved_tags(resolved@);
    let mut inherited: Vec<String> = Vec::new();
    let mut k: usize = 0;
    assert(ds.subrange(0, 0) =~= Seq::<Seq<char>>::empty());
    while k < deps.len()
        invariant
            x < ctx@.len(),
            resolved@.len() == ctx@.len(),
            deps_resolved(ctx@, x as int, resolved@),
            ds == texts(deps@),
            ds == source_deps(ctx@[x as int].1.source),
            v == resolved_tags(resolved@),
            k <= deps@.len(),
            texts(inherited@) == merge_all(dep_tag_lists(ctx@, ds.subrange(0, k as int), v)),
        decreases deps@.len() - k,
    {
        let ghost pre = ds.subrange(0, k as int);
        let ghost cur = ds.subrange(0, k + 1);
        assert(cur.drop_last() =~= pre);
        assert(cur.last() == deps@[k as int]@);
        assert(ds[k as int] == deps@[k as int]@);
        let ghost lists = dep_tag_lists(ctx@, pre, v);
        match ctx.find(deps[k].as_str()) {
            Some(y) => {
                assert(has_key(ctx@, ds[k as int]));
                assert(resolved@[y as int] is Some);
                assert(dep_tag_lists(ctx@, cur, v) == lists.push(v[y as int]));
                assert(lists.push(v[y as int]).drop_last() =~= lists);
                match &resolved[y] {
                    Some(ts) => {
                        assert(v[y as int] == texts(ts@));
                        append_new(&mut inherited, ts);
                    },
                    None => {},
                }
            },
            None => {
                assert(dep_tag_lists(ctx@, cur, v) == lists);
            },
        }
        k = k + 1;
    }
    assert(ds.subrange(0, deps@.len() as int) =~= ds);
    inherited
}

/// Propagates tags downstream through the dependency graph, in the order of the execution plan.
///
/// Each asset keeps its own tags first, then the tags of its dependencies (in the order
/// the dependencies are named, each tag once) that it does not list in `remove_tags` and
/// does not already carry. A cycle gives `E-CYCLE-001` and leaves the pipeline unchanged.
#[verifier::spinoff_prover]
#[verifier::rlimit(60)]
pub fn propagate_tags(pipeline: &mut Pipeline) -> (r: Result<(), TeckelError>)
    ensures
        same_sections(*final(pipeline), *old(pipeline)),
        match petgraph_toposort(old(pipeline).context@.len(), context_edges(old(pipeline).context@)) {
            Some(o) => r is Ok && tags_propagated(old(pipeline).context@, final(pipeline).context@)
                && is_topo_order(old(pipeline).context@.len(), context_edges(old(pipeline).context@), o),
            None => r matches Err(e) && is_spec_error(e, TeckelErrorCode::ECycle001, cycle_message())
                && final(pipeline).context@ == old(pipeline).context@
                && forall|o: Seq<usize>| !is_topo_order(old(pipeline).context@.len(), context_edges(old(pipeline).context@), o),
        },
{
    let plan = match topological_plan(&pipeline.context) {
        Ok(p) => p,
        Err(e) => return Err(e),
    };
    let ghost c0 = pipeline.context@;
    let ghost o = petgraph_toposort(c0.len(), context_edges(c0))->Some_0;
    proof {
        use_type_invariant(&pipeline.context);
    }
    let n = pipeline.context.len();
    let mut resolved: Vec<Option<Vec<String>>> = Vec::new();
    let mut i: usize = 0;
    while i < n
        invariant
            i <= n,
            resolved@.len() == i,
            forall|j: int| 0 <= j < i ==> (#[trigger] resolved@[j]) is None,
            same_sections(*pipeline, *old(pipeline)),
        decreases n - i,
    {
        resolved.push(None);
        i = i + 1;
    }
    let mut t: usize = 0;
    while t < plan.len()
        invariant
            same_sections(*pipeline, *old(pipeline)),
            c0 == pipeline.context@,
            keys_increasing(c0),
            n == c0.len(),
            c0.len() <= usize::MAX,
            plan_ok(c0, plan@, o),
            is_topo_order(c0.len(), context_edges(c0), o),
            plan@.len() == n,
            t <= n,
            resolved@.len() == n,
            forall|j: int| 0 <= j < n ==> ((#[trigger] resolved@[j]) is Some <==> exists|s: int| 0 <= s < t && o[s] == j),
            forall|j: int| 0 <= j < n ==> #[trigger] resolved_ok(c0, j, resolved@),
        decreases n - t,
    {
        let x = match pipeline.context.find(plan[t].as_str()) {
            Some(x) => x,
            None => {
                proof {
                    crate::asset::lemma_lookup_at(c0, o[t as int] as int);
                }
                t = t + 1;
                continue;
            },
        };
        proof {
            crate::asset::lemma_lookup_at(c0, o[t as int] as int);
            assert(x == o[t as int]);
            if resolved@[x as int] is Some {
                let s = choose|s: int| 0 <= s < t && o[s] == x;
                assert(o[s] != o[t as int]);
            }
            assert forall|k: int| 0 <= k < source_deps(c0[x as int].1.source).len()
                && has_key(c0, #[trigger] source_deps(c0[x as int].1.source)[k])
                implies resolved@[key_index(c0, source_deps(c0[x as int].1.source)[k])] is Some by {
                let d = source_deps(c0[x as int].1.source)[k];
                let y = key_index(c0, d);
                lemma_order_covers(n as nat, o, y);
                let sy = choose|s: int| 0 <= s < n && o[s] == y;
                lemma_graph_edge_in(c0, n as int, x as int, k);
                let edges = context_edges(c0);
                let e = choose|e: int| 0 <= e < edges.len() && #[trigger] edges[e] == (y as usize, x as usize);
                assert((y as usize) as int == y);
                assert(o[sy] == edges[e].0 && o[t as int] == edges[e].1);
                assert(sy < t);
            }
        }
        let inherited = inherited_tags(&pipeline.context, x, &resolved);
        let (_, asset) = pipeline.context.entry(x);
        let kept = keep_unremoved(&inherited, &asset.metadata.remove_tags);
        let mut fin = copy_names(&asset.metadata.tags);
        append_new(&mut fin, &kept);
        let ghost r0 = resolved@;
        resolved.set(x, Some(fin));
        proof {
            let v0 = resolved_tags(r0);
            let v1 = resolved_tags(resolved@);
            assert forall|j: int| 0 <= j < n implies #[trigger] resolved_ok(c0, j, resolved@) by {
                if resolved@[j] is Some {
                    assert(resolved_ok(c0, j, r0) || j == x);
                    assert forall|k: int| 0 <= k < source_deps(c0[j].1.source).len()
                        && has_key(c0, #[trigger] source_deps(c0[j].1.source)[k])
                        implies v0[key_index(c0, source_deps(c0[j].1.source)[k])]
                            == v1[key_index(c0, source_deps(c0[j].1.source)[k])] by {
                        let y = key_index(c0, source_deps(c0[j].1.source)[k]);
                        assert(0 <= y < n);
                        assert(r0[y] is Some);
                        assert(y != x);
                    }
                    lemma_dep_tag_lists_frame(c0, source_deps(c0[j].1.source), v0, v1);
                }
            }
            assert forall|j: int| 0 <= j < n implies ((#[trigger] resolved@[j]) is Some <==> exists|s: int| 0 <= s < t + 1 && o[s] == j) by {
                if j == x {
                    assert(o[t as int] == j);
                } else if resolved@[j] is Some {
                    assert(r0[j] is Some);
                    let s = choose|s: int| 0 <= s < t && o[s] == j;
                    assert(0 <= s < t + 1 && o[s] == j);
                } else {
                    assert(r0[j] is None);
                    if exists|s: int| 0 <= s < t + 1 && o[s] == j {
                        let s = choose|s: int| 0 <= s < t + 1 && o[s] == j;
                        assert(s != t);
                    }
                }
            }
        }
        t = t + 1;
    }
    proof {
        assert forall|j: int| 0 <= j < n implies (#[trigger] resolved@[j]) is Some by {
            lemma_order_covers(n as nat, o, j);
        }
    }
    let ghost rf = resolved@;
    let mut m = n;
    while resolved.len() > 0
        invariant
            same_sections(*pipeline, *old(pipeline)),
            m == resolved@.len(),
            m <= n,
            rf.len() == n,
            n == c0.len(),
            resolved@ == rf.subrange(0, m as int),
            forall|j: int| 0 <= j < n ==> (#[trigger] rf[j]) is Some,
            pipeline.context@.len() == n,
            forall|j: int| 0 <= j < m ==> #[trigger] pipeline.context@[j] == c0[j],
            forall|j: int| m <= j < n ==> {
                &&& (#[trigger] pipeline.context@[j]).0 == c0[j].0
                &&& pipeline.context@[j].1.asset_ref == c0[j].1.asset_ref
                &&& pipeline.context@[j].1.source == c0[j].1.source
                &&& pipeline.context@[j].1.metadata == (crate::asset::AssetMetadata {
                    tags: rf[j]->Some_0,
                    ..c0[j].1.metadata
                })
            },
        decreases m,
    {
        assert(resolved@[m - 1] == rf[m - 1]);
        let last = resolved.pop().unwrap().unwrap();
        m = m - 1;
        assert(resolved@ =~= rf.subrange(0, m as int));
        pipeline.context.set_tags(m, last);
    }
    proof {
        let c1 = pipeline.context@;
        let v = resolved_tags(rf);
        assert(tags_of(c1) =~= v) by {
            assert forall|j: int| 0 <= j < n implies tags_of(c1)[j] == v[j] by {
                assert(c1[j].1.metadata.tags == rf[j]->Some_0);
            }
        }
        assert forall|j: int| 0 <= j < c0.len() implies {
            &&& (#[trigger] c1[j]).0 == c0[j].0
            &&& c1[j].1.asset_ref == c0[j].1.asset_ref
            &&& c1[j].1.source == c0[j].1.source
            &&& c1[j].1.metadata.description == c0[j].1.metadata.description
            &&& c1[j].1.metadata.remove_tags == c0[j].1.metadata.remove_tags
            &&& c1[j].1.metadata.meta == c0[j].1.metadata.meta
            &&& c1[j].1.metadata.owner == c0[j].1.metadata.owner
            &&& c1[j].1.metadata.columns == c0[j].1.metadata.columns
            &&& c1[j].1.metadata.freshness == c0[j].1.metadata.freshness
            &&& c1[j].1.metadata.maturity == c0[j].1.metadata.maturity
            &&& texts(c1[j].1.metadata.tags@) == propagated(
                texts(c0[j].1.metadata.tags@),
                texts(c0[j].1.metadata.remove_tags@),
                dep_tag_lists(c0, source_deps(c0[j].1.source), tags_of(c1)),
            )
        } by {
            assert(resolved_ok(c0, j, rf));
        }
    }
    Ok(())
}

} // verus!

verus! {

proof fn lemma_add_new(acc: Seq<Seq<char>>, xs: Seq<Seq<char>>)
    ensures
        add_new(acc, xs).len() >= acc.len(),
        add_new(acc, xs).subrange(0, acc.len() as int) == acc,
        forall|t: Seq<char>| add_new(acc, xs).contains(t) <==> (acc.contains(t) || xs.contains(t)),
    decreases xs.len(),
{
    if xs.len() > 0 {
        lemma_add_new(acc, xs.drop_last());
        let a = add_new(acc, xs.drop_last());
        assert forall|t: Seq<char>| add_new(acc, xs).contains(t) <==> (acc.contains(t) || xs.contains(t)) by {
            if xs.contains(t) && !xs.drop_last().contains(t) {
                let k = choose|k: int| 0 <= k < xs.len() && xs[k] == t;
                if k < xs.len() - 1 {
                    assert(xs.drop_last()[k] == t);
                }
                assert(t == xs.last());
            }
            if xs.drop_last().contains(t) {
                let k = choose|k: int| 0 <= k < xs.drop_last().len() && xs.drop_last()[k] == t;
                assert(xs[k] == t);
            }
            if !a.contains(xs.last()) && add_new(acc, xs).contains(t) && !a.contains(t) {
                let k = choose|k: int| 0 <= k < a.push(xs.last()).len() && a.push(xs.last())[k] == t;
                assert(k == a.len());
                assert(xs[xs.len() - 1] == t);
            }
            if a.contains(t) {
                let k = choose|k: int| 0 <= k < a.len() && a[k] == t;
                assert(a.push(xs.last())[k] == t);
            }
            if t == xs.last() && !a.contains(t) {
                assert(a.push(xs.last())[a.len() as int] == t);
            }
        }
        if !a.contains(xs.last()) {
            assert(a.push(xs.last()).subrange(0, acc.len() as int) =~= a.subrange(0, acc.len() as int));
        }
    }
}

proof fn lemma_without(xs: Seq<Seq<char>>, remove: Seq<Seq<char>>)
    ensures
        forall|t: Seq<char>| without(xs, remove).contains(t) <==> (xs.contains(t) && !remove.contains(t)),
    decreases xs.len(),
{
    if xs.len() > 0 {
        lemma_without(xs.drop_last(), remove);
        let w = without(xs.drop_last(), remove);
        assert forall|t: Seq<char>| without(xs, remove).contains(t) <==> (xs.contains(t) && !remove.contains(t)) by {
            if xs.drop_last().contains(t) {
                let k = choose|k: int| 0 <= k < xs.drop_last().len() && xs.drop_last()[k] == t;
                assert(xs[k] == t);
            }
            if xs.contains(t) && !xs.drop_last().contains(t) {
                let k = choose|k: int| 0 <= k < xs.len() && xs[k] == t;
                if k < xs.len() - 1 {
                    assert(xs.drop_last()[k] == t);
                }
            }
            if !remove.contains(xs.last()) {
                if w.contains(t) {
                    let k = choose|k: int| 0 <= k < w.len() && w[k] == t;
                    assert(w.push(xs.last())[k] == t);
                }
                if t == xs.last() {
                    assert(w.push(xs.last())[w.len() as int] == t);
                }
                if w.push(xs.last()).contains(t) && !w.contains(t) {
                    let k = choose|k: int| 0 <= k < w.push(xs.last()).len() && w.push(xs.last())[k] == t;
                    assert(k == w.len());
                }
            }
        }
    }
}

proof fn lemma_merge_all(lists: Seq<Seq<Seq<char>>>)
    ensures
        forall|t: Seq<char>| merge_all(lists).contains(t) <==> exists|l: int| 0 <= l < lists.len() && (#[trigger] lists[l]).contains(t),
    decreases lists.len(),
{
    if lists.len() > 0 {
        let d = lists.drop_last();
        lemma_merge_all(d);
        lemma_add_new(merge_all(d), lists.last());
        assert(merge_all(lists) == add_new(merge_all(d), lists.last()));
        assert forall|t: Seq<char>| merge_all(lists).contains(t) <==> exists|l: int| 0 <= l < lists.len() && (#[trigger] lists[l]).contains(t) by {
            if merge_all(lists).contains(t) {
                if merge_all(d).contains(t) {
                    let l = choose|l: int| 0 <= l < d.len() && (#[trigger] d[l]).contains(t);
                    assert(lists[l] == d[l]);
                } else {
                    assert(lists.last().contains(t));
                    assert(lists[lists.len() - 1].contains(t));
                }
            }
            if exists|l: int| 0 <= l < lists.len() && (#[trigger] lists[l]).contains(t) {
                let l = choose|l: int| 0 <= l < lists.len() && (#[trigger] lists[l]).contains(t);
                if l < lists.len() - 1 {
                    assert(d[l] == lists[l]);
                    assert(merge_all(d).contains(t));
                } else {
                    assert(lists.last().contains(t));
                }
            }
        }
    }
}

/// The tags that propagation gives an asset begin with its own tags, and hold exactly its own
/// tags and the tags of its dependencies that it does not remove.
pub proof fn lemma_propagated_tags(own: Seq<Seq<char>>, remove: Seq<Seq<char>>, inherited: Seq<Seq<Seq<char>>>)
    ensures
        propagated(own, remove, inherited).len() >= own.len(),
        propagated(own, remove, inherited).subrange(0, own.len() as int) == own,
        forall|t: Seq<char>| propagated(own, remove, inherited).contains(t) <==> (own.contains(t) || (!remove.contains(t)
            && exists|l: int| 0 <= l < inherited.len() && (#[trigger] inherited[l]).contains(t))),
{
    lemma_merge_all(inherited);
    lemma_without(merge_all(inherited), remove);
    lemma_add_new(own, without(merge_all(inherited), remove));
}

} // verus!

verus! {

/// An execution plan names every asset of the context, each exactly once.
pub proof fn lemma_plan_lists_every_asset(c: Seq<(Seq<char>, Asset)>, p: Seq<AssetRef>, o: Seq<usize>)
    requires
        keys_increasing(c),
        plan_ok(c, p, grouped_order(c, o)),
        is_topo_order(c.len(), context_edges(c), o),
    ensures
        p.len() == c.len(),
        forall|x: int| 0 <= x < c.len() ==> exists|i: int| 0 <= i < p.len() && (#[trigger] p[i])@ == (#[trigger] c[x]).0,
        forall|i: int, j: int| 0 <= i < j < p.len() ==> (#[trigger] p[i])@ != (#[trigger] p[j])@,
{
    let g = grouped_order(c, o);
    lemma_group_members_in(c, o);
    lemma_group_members(c, o);
    assert forall|x: int| 0 <= x < c.len() implies exists|i: int| 0 <= i < p.len() && (#[trigger] p[i])@ == (#[trigger] c[x]).0 by {
        lemma_order_covers(c.len(), o, x);
        let s = choose|s: int| 0 <= s < c.len() && o[s] == x;
        let gg = place_groups(c, o);
        lemma_place_groups_range(c, o);
        let k = gg[s];
        lemma_of_group_has(gg, o, k, s);
        let l = of_group(gg, o, k);
        let a = choose|a: int| 0 <= a < l.len() && #[trigger] l[a] == o[s];
        let l0 = of_group(gg, o, 0).len() as int;
        let l1 = of_group(gg, o, 1).len() as int;
        let i = if k == 0 { a } else if k == 1 { l0 + a } else { l0 + l1 + a };
        assert(g[i] == l[a]);
        assert(p[i]@ == c[g[i] as int].0);
    }
    assert forall|i: int, j: int| 0 <= i < j < p.len() implies (#[trigger] p[i])@ != (#[trigger] p[j])@ by {
        let a = g[i] as int;
        let b = g[j] as int;
        assert(g[i] != g[j]);
        if a < b {
            assert(crate::text::text_lt(c[a].0, c[b].0));
            crate::text::lemma_text_lt_irreflexive(c[a].0);
        } else {
            assert(crate::text::text_lt(c[b].0, c[a].0));
            crate::text::lemma_text_lt_irreflexive(c[b].0);
        }
    }
}

} // verus!
