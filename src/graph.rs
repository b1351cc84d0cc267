//! Directed graphs over vertex indices, and cycle search.
//!
//! A graph is a vector of successor lists: `g[u]` holds the targets of the
//! edges leaving `u`. The same search serves node graphs inside one chain and
//! the graph of sub-chain references between chains.
use vstd::prelude::*;

verus! {

/// There is an edge from `u` to `v`.
pub open spec fn has_edge(g: Seq<Vec<usize>>, u: int, v: int) -> bool {
    &&& 0 <= u < g.len()
    &&& exists|j: int| 0 <= j < g[u]@.len() && g[u]@[j] as int == v
}

/// Every successor names a vertex of the graph.
pub open spec fn graph_wf(g: Seq<Vec<usize>>) -> bool {
    forall|u: int, j: int| 0 <= u < g.len() && 0 <= j < g[u]@.len() ==> (#[trigger] g[u]@[j]) < g.len()
}

/// `p` is a walk along edges of `g`.
pub open spec fn is_path(g: Seq<Vec<usize>>, p: Seq<usize>) -> bool {
    &&& p.len() >= 1
    &&& forall|i: int| 0 <= i < p.len() ==> #[trigger] p[i] < g.len()
    &&& forall|i: int| 0 <= i < p.len() - 1 ==> has_edge(g, #[trigger] p[i] as int, p[i + 1] as int)
}

/// `c` is a closed walk: a path of at least one edge that ends where it starts.
pub open spec fn is_cycle(g: Seq<Vec<usize>>, c: Seq<usize>) -> bool {
    &&& c.len() >= 2
    &&& is_path(g, c)
    &&& c[0] == c[c.len() - 1]
}

/// A closed walk passes each vertex once: only its end repeats its start.
pub open spec fn visits_once(c: Seq<usize>) -> bool {
    forall|i: int, j: int| 0 <= i < j < c.len() - 1 ==> c[i] != c[j]
}

/// No closed walk exists in `g`.
pub open spec fn acyclic(g: Seq<Vec<usize>>) -> bool {
    forall|c: Seq<usize>| !is_cycle(g, c)
}

/// `p` is a walk of vertices below `n` along the relation `e`.
pub open spec fn path_via(e: spec_fn(int, int) -> bool, n: int, p: Seq<usize>) -> bool {
    &&& p.len() >= 1
    &&& forall|i: int| 0 <= i < p.len() ==> #[trigger] p[i] < n
    &&& forall|i: int| 0 <= i < p.len() - 1 ==> e(#[trigger] p[i] as int, p[i + 1] as int)
}

/// `c` is a closed walk along `e`.
pub open spec fn cycle_via(e: spec_fn(int, int) -> bool, n: int, c: Seq<usize>) -> bool {
    &&& c.len() >= 2
    &&& path_via(e, n, c)
    &&& c[0] == c[c.len() - 1]
}

/// No closed walk along `e` among the vertices below `n`.
pub open spec fn acyclic_via(e: spec_fn(int, int) -> bool, n: int) -> bool {
    forall|c: Seq<usize>| !cycle_via(e, n, c)
}

/// A graph whose edges are those of the relation `e` has the same cycles.
pub proof fn lemma_same_cycles(g: Seq<Vec<usize>>, e: spec_fn(int, int) -> bool)
    requires
        forall|u: int, v: int| 0 <= u < g.len() && 0 <= v < g.len() ==> (has_edge(g, u, v) <==> #[trigger] e(u, v)),
    ensures
        forall|c: Seq<usize>| #[trigger] is_cycle(g, c) <==> cycle_via(e, g.len() as int, c),
        acyclic(g) <==> acyclic_via(e, g.len() as int),
{
    assert forall|c: Seq<usize>| #[trigger] is_cycle(g, c) <==> cycle_via(e, g.len() as int, c) by {
        if is_cycle(g, c) {
            assert forall|i: int| 0 <= i < c.len() - 1 implies e(#[trigger] c[i] as int, c[i + 1] as int) by {
                assert(has_edge(g, c[i] as int, c[i + 1] as int));
            }
        }
        if cycle_via(e, g.len() as int, c) {
            assert forall|i: int| 0 <= i < c.len() - 1 implies has_edge(g, #[trigger] c[i] as int, c[i + 1] as int) by {
                assert(e(c[i] as int, c[i + 1] as int));
                assert(c[i + 1] < g.len());
            }
        }
    }
    if !acyclic(g) {
        let c = choose|c: Seq<usize>| is_cycle(g, c);
        assert(cycle_via(e, g.len() as int, c));
    }
    if !acyclic_via(e, g.len() as int) {
        let c = choose|c: Seq<usize>| cycle_via(e, g.len() as int, c);
        assert(is_cycle(g, c));
    }
}

/// Builds the graph over vertices `0..ids.len()` with an edge from `i` to
/// `j` whenever `targets[i]` names `ids[j]`.
pub fn link_graph(ids: &Vec<u128>, targets: &Vec<Vec<u128>>) -> (g: Vec<Vec<usize>>)
    requires
        targets@.len() == ids@.len(),
    ensures
        g@.len() == ids@.len(),
        graph_wf(g@),
        forall|i: int, j: int| 0 <= i < ids@.len() && 0 <= j < ids@.len() ==>
            (#[trigger] has_edge(g@, i, j) <==> targets@[i]@.contains(ids@[j])),
{
    let n = ids.len();
    let mut g: Vec<Vec<usize>> = Vec::new();
    let mut i: usize = 0;
    while i < n
        invariant
            n == ids@.len(),
            targets@.len() == n,
            i <= n,
            g@.len() == i,
            forall|u: int, q: int| 0 <= u < i && 0 <= q < g@[u]@.len() ==> (#[trigger] g@[u]@[q]) < n,
            forall|u: int, v: int| 0 <= u < i && 0 <= v < n ==>
                ((exists|q: int| 0 <= q < g@[u]@.len() && #[trigger] g@[u]@[q] as int == v) <==> targets@[u]@.contains(ids@[v])),
        decreases n - i,
    {
        let row_targets = &targets[i];
        let mut row: Vec<usize> = Vec::new();
        let mut p: usize = 0;
        while p < row_targets.len()
            invariant
                n == ids@.len(),
                i < n,
                *row_targets == targets@[i as int],
                p <= row_targets@.len(),
                forall|q: int| 0 <= q < row@.len() ==> #[trigger] row@[q] < n,
                forall|v: int| #![trigger ids@[v]] 0 <= v < n ==>
                    ((exists|q: int| 0 <= q < row@.len() && #[trigger] row@[q] as int == v) <==>
                        (exists|t: int| 0 <= t < p && #[trigger] row_targets@[t] == ids@[v])),
            decreases row_targets@.len() - p,
        {
            let t = row_targets[p];
            let mut j: usize = 0;
            let ghost row0 = row@;
            while j < n
                invariant
                    n == ids@.len(),
                    j <= n,
                    p < row_targets@.len(),
                    t == row_targets@[p as int],
                    row@.len() >= row0.len(),
                    forall|q: int| 0 <= q < row0.len() ==> row@[q] == row0[q],
                    forall|q: int| 0 <= q < row@.len() ==> #[trigger] row@[q] < n,
                    forall|q: int| row0.len() <= q < row@.len() ==> ids@[#[trigger] row@[q] as int] == t,
                    forall|v: int| 0 <= v < j && ids@[v] == t ==> exists|q: int| 0 <= q < row@.len() && #[trigger] row@[q] as int == v,
                decreases n - j,
            {
                if ids[j] == t {
                    let ghost before = row@;
                    row.push(j);
                    proof {
                        assert(row@[row@.len() - 1] == j);
                        assert forall|v: int| 0 <= v < j + 1 && ids@[v] == t implies exists|q: int|
                            0 <= q < row@.len() && #[trigger] row@[q] as int == v by {
                            if v < j {
                                let q = choose|q: int| 0 <= q < before.len() && #[trigger] before[q] as int == v;
                                assert(row@[q] == before[q]);
                            } else {
                                assert(row@[row@.len() - 1] as int == v);
                            }
                        }
                    }
                }
                j = j + 1;
            }
            proof {
                assert forall|v: int| #![trigger ids@[v]] 0 <= v < n implies
                    ((exists|q: int| 0 <= q < row@.len() && #[trigger] row@[q] as int == v) <==>
                        (exists|s: int| 0 <= s < p + 1 && #[trigger] row_targets@[s] == ids@[v])) by {
                    if exists|q: int| 0 <= q < row@.len() && #[trigger] row@[q] as int == v {
                        let q = choose|q: int| 0 <= q < row@.len() && #[trigger] row@[q] as int == v;
                        if q < row0.len() {
                            assert(row0[q] as int == v);
                            let s = choose|s: int| 0 <= s < p && #[trigger] row_targets@[s] == ids@[v];
                        } else {
                            assert(row_targets@[p as int] == ids@[v]);
                        }
                    }
                    if exists|s: int| 0 <= s < p + 1 && #[trigger] row_targets@[s] == ids@[v] {
                        let s = choose|s: int| 0 <= s < p + 1 && #[trigger] row_targets@[s] == ids@[v];
                        if s < p {
                            let q = choose|q: int| 0 <= q < row0.len() && #[trigger] row0[q] as int == v;
                            assert(row@[q] as int == v);
                        }
                    }
                }
            }
            p = p + 1;
        }
        let ghost g0 = g@;
        g.push(row);
        proof {
            assert forall|u: int, v: int| 0 <= u < i + 1 && 0 <= v < n implies
                ((exists|q: int| 0 <= q < g@[u]@.len() && #[trigger] g@[u]@[q] as int == v) <==> targets@[u]@.contains(ids@[v])) by {
                if u < i {
                    assert(g@[u] == g0[u]);
                } else {
                    assert(g@[u] == row);
                    assert(row_targets@ == targets@[u]@);
                    if targets@[u]@.contains(ids@[v]) {
                        let s = choose|s: int| 0 <= s < targets@[u]@.len() && targets@[u]@[s] == ids@[v];
                        assert(row_targets@[s] == ids@[v]);
                    }
                    if exists|s: int| 0 <= s < row_targets@.len() && #[trigger] row_targets@[s] == ids@[v] {
                        let s = choose|s: int| 0 <= s < row_targets@.len() && #[trigger] row_targets@[s] == ids@[v];
                        assert(targets@[u]@[s] == ids@[v]);
                    }
                }
            }
            assert forall|u: int, q: int| 0 <= u < i + 1 && 0 <= q < g@[u]@.len() implies (#[trigger] g@[u]@[q]) < n by {
                if u < i {
                    assert(g@[u] == g0[u]);
                }
            }
        }
        i = i + 1;
    }
    g
}

/// The parts joined by ` -> `.
pub open spec fn arrow_join(parts: Seq<Seq<char>>) -> Seq<char>
    decreases parts.len(),
{
    if parts.len() == 0 {
        Seq::empty()
    } else if parts.len() == 1 {
        parts[0]
    } else {
        arrow_join(parts.drop_last()) + " -> "@ + parts.last()
    }
}

/// The names of the vertices of `path`, in order, joined by ` -> `.
pub fn path_text(names: &Vec<String>, path: &Vec<usize>) -> (r: String)
    requires
        forall|i: int| 0 <= i < path@.len() ==> #[trigger] path@[i] < names@.len(),
    ensures
        r@ == arrow_join(path@.map_values(|v: usize| names@[v as int]@)),
{
    let ghost parts = path@.map_values(|v: usize| names@[v as int]@);
    let mut out = String::new();
    let mut i: usize = 0;
    while i < path.len()
        invariant
            i <= path@.len(),
            parts == path@.map_values(|v: usize| names@[v as int]@),
            forall|q: int| 0 <= q < path@.len() ==> #[trigger] path@[q] < names@.len(),
            out@ == arrow_join(parts.subrange(0, i as int)),
        decreases path@.len() - i,
    {
        let ghost prev = out@;
        assert(parts.subrange(0, i + 1).drop_last() =~= parts.subrange(0, i as int));
        if i > 0 {
            out.append(" -> ");
        }
        out.append(names[path[i]].as_str());
        proof {
            if i == 0 {
                assert(prev =~= Seq::<char>::empty());
                assert(out@ =~= parts[0]);
            }
        }
        i = i + 1;
    }
    assert(parts.subrange(0, path@.len() as int) =~= parts);
    out
}

/// Number of unvisited (colour 0) entries.
pub open spec fn count_white(c: Seq<u8>) -> nat
    decreases c.len(),
{
    if c.len() == 0 {
        0
    } else {
        count_white(c.drop_last()) + if c.last() == 0 {
            1nat
        } else {
            0nat
        }
    }
}

proof fn lemma_count_white_bound(c: Seq<u8>)
    ensures
        count_white(c) <= c.len(),
    decreases c.len(),
{
    if c.len() > 0 {
        lemma_count_white_bound(c.drop_last());
    }
}

proof fn lemma_count_white_all(c: Seq<u8>)
    requires
        forall|k: int| 0 <= k < c.len() ==> c[k] == 0,
    ensures
        count_white(c) == c.len(),
    decreases c.len(),
{
    if c.len() > 0 {
        lemma_count_white_all(c.drop_last());
    }
}

proof fn lemma_count_white_update(c: Seq<u8>, i: int, x: u8)
    requires
        0 <= i < c.len(),
        c[i] == 0,
        x != 0,
    ensures
        count_white(c.update(i, x)) + 1 == count_white(c),
    decreases c.len(),
{
    let d = c.update(i, x);
    if i == c.len() - 1 {
        assert(d.drop_last() =~= c.drop_last());
    } else {
        assert(d.drop_last() =~= c.drop_last().update(i, x));
        lemma_count_white_update(c.drop_last(), i, x);
    }
}

proof fn lemma_count_white_keep(c: Seq<u8>, i: int, x: u8)
    requires
        0 <= i < c.len(),
        c[i] != 0,
        x != 0,
    ensures
        count_white(c.update(i, x)) == count_white(c),
    decreases c.len(),
{
    let d = c.update(i, x);
    if i == c.len() - 1 {
        assert(d.drop_last() =~= c.drop_last());
    } else {
        assert(d.drop_last() =~= c.drop_last().update(i, x));
        lemma_count_white_keep(c.drop_last(), i, x);
    }
}

/// Along a path whose every edge lowers `rank`, the rank of each later vertex
/// is below that of the first.
proof fn lemma_rank_falls_along_path(g: Seq<Vec<usize>>, rank: Seq<usize>, p: Seq<usize>, i: int)
    requires
        is_path(g, p),
        rank.len() == g.len(),
        forall|u: int, v: int| #[trigger] has_edge(g, u, v) ==> rank[v] < rank[u],
        1 <= i < p.len(),
    ensures
        rank[p[i] as int] < rank[p[0] as int],
    decreases i,
{
    assert(has_edge(g, p[i - 1] as int, p[i] as int));
    if i > 1 {
        lemma_rank_falls_along_path(g, rank, p, i - 1);
    }
}

/// A graph with a rank that every edge lowers has no cycle.
proof fn lemma_ranked_acyclic(g: Seq<Vec<usize>>, rank: Seq<usize>)
    requires
        rank.len() == g.len(),
        forall|u: int, v: int| #[trigger] has_edge(g, u, v) ==> rank[v] < rank[u],
    ensures
        acyclic(g),
{
    assert forall|c: Seq<usize>| !is_cycle(g, c) by {
        if is_cycle(g, c) {
            lemma_rank_falls_along_path(g, rank, c, c.len() - 1);
        }
    }
}

/// Searches `g` for a cycle by depth-first search with an explicit stack of
/// frames `(vertex, index of the next edge to follow)`.
///
/// Vertices are white (unvisited), grey (on the stack) or black (finished).
/// Meeting a grey vertex closes a cycle, which is returned in traversal
/// order, starting and ending at the vertex met again. When the search ends
/// without one, the finishing order ranks the vertices so that every edge
/// goes down, which shows that there is none.
pub fn find_cycle(g: &Vec<Vec<usize>>) -> (r: Option<Vec<usize>>)
    requires
        graph_wf(g@),
    ensures
        r.is_none() <==> acyclic(g@),
        r matches Some(c) ==> is_cycle(g@, c@) && visits_once(c@),
{
    let n = g.len();
    let mut color: Vec<u8> = Vec::new();
    let mut fin: Vec<usize> = Vec::new();
    let mut i: usize = 0;
    while i < n
        invariant
            i <= n,
            n == g@.len(),
            color@.len() == i,
            fin@.len() == i,
            forall|k: int| 0 <= k < i ==> color@[k] == 0,
        decreases n - i,
    {
        color.push(0);
        fin.push(0);
        i = i + 1;
    }
    proof {
        lemma_count_white_all(color@);
    }
    let mut counter: usize = 0;
    let mut s: usize = 0;
    while s < n
        invariant
            s <= n,
            n == g@.len(),
            graph_wf(g@),
            color@.len() == n,
            fin@.len() == n,
            forall|v: int| 0 <= v < n ==> color@[v] == 0 || color@[v] == 2,
            forall|v: int| 0 <= v < s ==> color@[v] == 2,
            forall|v: int| 0 <= v < n && color@[v] == 2 ==> fin@[v] < counter,
            forall|u: int, j: int|
                0 <= u < n && color@[u] == 2 && 0 <= j < g@[u]@.len() ==> color@[#[trigger] g@[u]@[j] as int] == 2
                    && fin@[g@[u]@[j] as int] < fin@[u],
            counter + count_white(color@) == n,
        decreases n - s,
    {
        if color[s] == 0 {
            let mut stack: Vec<(usize, usize)> = Vec::new();
            proof {
                lemma_count_white_update(color@, s as int, 1);
            }
            color.set(s, 1);
            stack.push((s, 0));
            assert(stack@[0].0 == s);
            while stack.len() > 0
                invariant
                    s < n,
                    n == g@.len(),
                    graph_wf(g@),
                    color@.len() == n,
                    fin@.len() == n,
                    forall|v: int| 0 <= v < n ==> color@[v] <= 2,
                    forall|v: int| 0 <= v < s ==> color@[v] == 2,
                    color@[s as int] != 0,
                    forall|v: int| 0 <= v < n && color@[v] == 2 ==> fin@[v] < counter,
                    forall|u: int, j: int|
                        0 <= u < n && color@[u] == 2 && 0 <= j < g@[u]@.len() ==> color@[#[trigger] g@[u]@[j] as int]
                            == 2 && fin@[g@[u]@[j] as int] < fin@[u],
                    counter + stack@.len() + count_white(color@) == n,
                    // frames
                    forall|k: int|
                        0 <= k < stack@.len() ==> (#[trigger] stack@[k]).0 < n && stack@[k].1 <= g@[stack@[k].0 as int]@.len()
                            && color@[stack@[k].0 as int] == 1,
                    forall|k1: int, k2: int|
                        0 <= k1 < stack@.len() && 0 <= k2 < stack@.len() && k1 != k2 ==> (#[trigger] stack@[k1]).0
                            != (#[trigger] stack@[k2]).0,
                    forall|v: int| 0 <= v < n && color@[v] == 1 ==> exists|k: int| 0 <= k < stack@.len() && (#[trigger] stack@[k]).0 == v,
                    forall|k: int|
                        0 <= k < stack@.len() - 1 ==> (#[trigger] stack@[k]).1 < g@[stack@[k].0 as int]@.len()
                            && g@[stack@[k].0 as int]@[stack@[k].1 as int] == stack@[k + 1].0,
                    forall|k: int, j: int|
                        0 <= k < stack@.len() && 0 <= j < stack@[k].1 ==> color@[#[trigger] g@[stack@[k].0 as int]@[j] as int] == 2,
                decreases count_white(color@), stack@.len(), g@[stack@.last().0 as int]@.len() - stack@.last().1,
            {
                let top = stack.len() - 1;
                let (u, ei) = stack[top];
                let ghost old_color = color@;
                let ghost old_stack = stack@;
                if ei < g[u].len() {
                    let v = g[u][ei];
                    if color[v] == 2 {
                        stack.set(top, (u, ei + 1));
                        proof {
                            assert forall|w: int| 0 <= w < n && color@[w] == 1 implies exists|q: int|
                                0 <= q < stack@.len() && (#[trigger] stack@[q]).0 == w by {
                                let q = choose|q: int| 0 <= q < old_stack.len() && (#[trigger] old_stack[q]).0 == w;
                                assert(stack@[q].0 == old_stack[q].0);
                            }
                            assert forall|k: int, j: int|
                                0 <= k < stack@.len() && 0 <= j < stack@[k].1 implies color@[#[trigger] g@[stack@[k].0 as int]@[j] as int] == 2 by {
                                if k != top {
                                    assert(stack@[k] == old_stack[k]) by {}
                                }
                            }
                        }
                    } else if color[v] == 1 {
                        // `v` is on the stack: the frames from it up to the top close a cycle.
                        let mut k: usize = 0;
                        while stack[k].0 != v
                            invariant
                                0 <= k < stack.len(),
                                exists|q: int| k <= q < stack@.len() && (#[trigger] stack@[q]).0 == v,
                            decreases stack@.len() - k,
                        {
                            k = k + 1;
                        }
                        let mut cyc: Vec<usize> = Vec::new();
                        let mut t: usize = k;
                        while t < stack.len()
                            invariant
                                k <= t <= stack@.len(),
                                cyc@.len() == t - k,
                                forall|q: int| 0 <= q < cyc@.len() ==> cyc@[q] == (#[trigger] stack@[k + q]).0,
                            decreases stack@.len() - t,
                        {
                            cyc.push(stack[t].0);
                            t = t + 1;
                        }
                        let ghost pre = cyc@;
                        assert(pre[0] == stack@[k as int + 0].0);
                        cyc.push(v);
                        proof {
                            let c = cyc@;
                            assert(c[0] == v);
                            assert forall|q: int| 0 <= q < c.len() implies #[trigger] c[q] < g@.len() by {
                                if q < c.len() - 1 {
                                    assert(c[q] == stack@[k + q].0);
                                }
                            }
                            assert forall|q: int| 0 <= q < c.len() - 1 implies has_edge(g@, #[trigger] c[q] as int, c[q + 1] as int) by {
                                let a = stack@[k + q];
                                assert(c[q] == a.0);
                                if q < c.len() - 2 {
                                    assert(pre[q + 1] == stack@[k + (q + 1)].0);
                                    assert(c[q + 1] == stack@[k + q + 1].0);
                                    assert(g@[a.0 as int]@[a.1 as int] == stack@[k + q + 1].0);
                                } else {
                                    assert(k + q == top);
                                    assert(g@[u as int]@[ei as int] == v);
                                }
                            }
                            assert(is_cycle(g@, c));
                            assert forall|i: int, j: int| 0 <= i < j < c.len() - 1 implies c[i] != c[j] by {
                                assert(c[i] == stack@[k + i].0);
                                assert(c[j] == stack@[k + j].0);
                            }
                        }
                        return Some(cyc);
                    } else {
                        proof {
                            lemma_count_white_update(color@, v as int, 1);
                        }
                        color.set(v, 1);
                        stack.push((v, 0));
                        proof {
                            assert forall|w: int| 0 <= w < n && color@[w] == 1 implies exists|q: int|
                                0 <= q < stack@.len() && (#[trigger] stack@[q]).0 == w by {
                                if w == v {
                                    assert(stack@[stack@.len() - 1].0 == w);
                                } else {
                                    assert(old_color[w] == 1);
                                    let q = choose|q: int| 0 <= q < old_stack.len() && (#[trigger] old_stack[q]).0 == w;
                                    assert(stack@[q] == old_stack[q]);
                                }
                            }
                            assert forall|q: int| 0 <= q < stack@.len() - 1 implies (#[trigger] stack@[q]).1 < g@[stack@[q].0 as int]@.len()
                                && g@[stack@[q].0 as int]@[stack@[q].1 as int] == stack@[q + 1].0 by {
                                if q < top {
                                    assert(stack@[q] == old_stack[q]);
                                    assert(stack@[q + 1] == old_stack[q + 1]);
                                }
                            }
                            assert forall|k1: int, k2: int|
                                0 <= k1 < stack@.len() && 0 <= k2 < stack@.len() && k1 != k2 implies (#[trigger] stack@[k1]).0
                                    != (#[trigger] stack@[k2]).0 by {
                                if k1 < stack@.len() - 1 {
                                    assert(stack@[k1] == old_stack[k1]);
                                }
                                if k2 < stack@.len() - 1 {
                                    assert(stack@[k2] == old_stack[k2]);
                                }
                            }
                            assert forall|q: int, j: int|
                                0 <= q < stack@.len() && 0 <= j < stack@[q].1 implies color@[#[trigger] g@[stack@[q].0 as int]@[j] as int] == 2 by {
                                if q < stack@.len() - 1 {
                                    assert(stack@[q] == old_stack[q]);
                                    assert(old_color[g@[stack@[q].0 as int]@[j] as int] == 2);
                                }
                            }
                        }
                    }
                } else {
                    proof {
                        lemma_count_white_keep(color@, u as int, 2);
                    }
                    color.set(u, 2);
                    fin.set(u, counter);
                    counter = counter + 1;
                    stack.pop();
                    proof {
                        assert forall|k: int| 0 <= k < stack@.len() implies (#[trigger] stack@[k]) == old_stack[k] by {}
                        assert forall|k: int| 0 <= k < stack@.len() implies (#[trigger] stack@[k]).0 != u by {
                            assert(old_stack[k].0 != old_stack[top as int].0);
                        }
                        assert forall|w: int| 0 <= w < n && color@[w] == 1 implies exists|q: int|
                            0 <= q < stack@.len() && (#[trigger] stack@[q]).0 == w by {
                            let q = choose|q: int| 0 <= q < old_stack.len() && (#[trigger] old_stack[q]).0 == w;
                            assert(q != top);
                            assert(stack@[q] == old_stack[q]);
                        }
                        assert forall|a: int, j: int|
                            0 <= a < n && color@[a] == 2 && 0 <= j < g@[a]@.len() implies color@[#[trigger] g@[a]@[j] as int] == 2
                                && fin@[g@[a]@[j] as int] < fin@[a] by {
                            if a == u {
                                assert(old_color[g@[a]@[j] as int] == 2);
                            } else {
                                assert(old_color[a] == 2);
                            }
                        }
                    }
                }
            }
            proof {
                assert forall|v: int| 0 <= v < n implies color@[v] == 0 || color@[v] == 2 by {
                    if color@[v] == 1 {
                        let q = choose|q: int| 0 <= q < stack@.len() && (#[trigger] stack@[q]).0 == v;
                    }
                }
            }
        }
        s = s + 1;
    }
    proof {
        lemma_count_white_bound(color@);
        assert forall|u: int, v: int| #[trigger] has_edge(g@, u, v) implies fin@[v] < fin@[u] by {
            let j = choose|j: int| 0 <= j < g@[u]@.len() && g@[u]@[j] as int == v;
            assert(color@[g@[u]@[j] as int] == 2);
        }
        lemma_ranked_acyclic(g@, fin@);
    }
    None
}

} // verus!
