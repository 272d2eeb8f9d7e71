//! Roadmap dependency graphs and the search for cycles in them.
use vstd::prelude::*;

use crate::text::{owned, str_eq};

verus! {

/// A dependency graph: each roadmap with the roadmaps it depends on.
pub type Graph = Seq<(Seq<char>, Seq<Seq<char>>)>;

/// Whether the graph has an edge from `u` to `v`.
pub open spec fn edge(g: Graph, u: Seq<char>, v: Seq<char>) -> bool {
    exists|i: int| 0 <= i < g.len() && g[i].0 == u && #[trigger] g[i].1.contains(v)
}

/// Whether consecutive names of `p` are joined by edges.
pub open spec fn is_path(g: Graph, p: Seq<Seq<char>>) -> bool {
    p.len() >= 1 && forall|i: int| 0 <= i < p.len() - 1 ==> #[trigger] edge(g, p[i], p[i + 1])
}

/// Whether `b` can be reached from `a` by following one edge or more.
pub open spec fn reaches(g: Graph, a: Seq<char>, b: Seq<char>) -> bool {
    exists|p: Seq<Seq<char>>| #[trigger] is_path(g, p) && p.len() >= 2 && p[0] == a && p.last() == b
}

/// Whether no roadmap depends on itself, directly or through others.
pub open spec fn acyclic(g: Graph) -> bool {
    forall|v: Seq<char>| !#[trigger] reaches(g, v, v)
}

/// Every name some edge points to.
pub open spec fn targets(g: Graph) -> Set<Seq<char>>
    decreases g.len(),
{
    if g.len() == 0 {
        Set::empty()
    } else {
        targets(g.drop_last()).union(g.last().1.to_set())
    }
}

proof fn lemma_targets(g: Graph)
    ensures
        targets(g).finite(),
        forall|u: Seq<char>, v: Seq<char>| edge(g, u, v) ==> targets(g).contains(v),
    decreases g.len(),
{
    if g.len() > 0 {
        lemma_targets(g.drop_last());
        vstd::seq_lib::seq_to_set_is_finite(g.last().1);
        assert forall|u: Seq<char>, v: Seq<char>| edge(g, u, v) implies targets(g).contains(v) by {
            let i = choose|i: int| 0 <= i < g.len() && g[i].0 == u && #[trigger] g[i].1.contains(v);
            if i < g.len() - 1 {
                assert(g.drop_last()[i] == g[i]);
                assert(edge(g.drop_last(), u, v));
            } else {
                assert(g.last().1.to_set().contains(v));
            }
        }
    }
}

proof fn lemma_extend(g: Graph, p: Seq<Seq<char>>, y: Seq<char>)
    requires
        is_path(g, p),
        edge(g, p.last(), y),
    ensures
        is_path(g, p.push(y)),
        p.push(y)[0] == p[0],
        p.push(y).last() == y,
        p.push(y).len() == p.len() + 1,
{
    let q = p.push(y);
    assert forall|i: int| 0 <= i < q.len() - 1 implies #[trigger] edge(g, q[i], q[i + 1]) by {
        if i < p.len() - 1 {
            assert(q[i] == p[i] && q[i + 1] == p[i + 1]);
        } else {
            assert(q[i] == p.last());
        }
    }
}

proof fn lemma_closed_upto(g: Graph, start: Seq<char>, vis: Seq<Seq<char>>, p: Seq<Seq<char>>, k: int)
    requires
        forall|y: Seq<char>| edge(g, start, y) ==> vis.contains(y),
        forall|x: Seq<char>, y: Seq<char>| vis.contains(x) && edge(g, x, y) ==> vis.contains(y),
        is_path(g, p),
        p[0] == start,
        1 <= k < p.len(),
    ensures
        vis.contains(p[k]),
    decreases k,
{
    let i = k - 1;
    assert(edge(g, p[i], p[i + 1]));
    if k > 1 {
        lemma_closed_upto(g, start, vis, p, k - 1);
    }
}

/// A closed set that holds every successor of `start` but not `start`
/// rules out a way back to `start`.
proof fn lemma_closed(g: Graph, start: Seq<char>, vis: Seq<Seq<char>>, p: Seq<Seq<char>>)
    requires
        forall|y: Seq<char>| edge(g, start, y) ==> vis.contains(y),
        forall|x: Seq<char>, y: Seq<char>| vis.contains(x) && edge(g, x, y) ==> vis.contains(y),
        !vis.contains(start),
        is_path(g, p),
        p.len() >= 2,
        p[0] == start,
    ensures
        p.last() != start,
{
    lemma_closed_upto(g, start, vis, p, p.len() - 1);
}

/// Whether `v` holds `s`.
pub fn contains_str(v: &Vec<String>, s: &str) -> (r: bool)
    ensures
        r == v.deep_view().contains(s@),
{
    let mut i: usize = 0;
    while i < v.len()
        invariant
            i <= v.len(),
            forall|j: int| 0 <= j < i ==> v.deep_view()[j] != s@,
        decreases v.len() - i,
    {
        if str_eq(v[i].as_str(), s) {
            assert(v.deep_view()[i as int] == s@);
            return true;
        }
        i = i + 1;
    }
    false
}

/// Whether `start` can reach itself by following one edge or more.
pub fn has_cycle(adj: &Vec<(String, Vec<String>)>, start: &str) -> (r: bool)
    ensures
        r == reaches(adj.deep_view(), start@, start@),
{
    let ghost g = adj.deep_view();
    proof {
        lemma_targets(g);
    }
    let ghost t = targets(g);
    let mut visited: Vec<String> = Vec::new();
    let mut stack: Vec<String> = Vec::new();
    let mut i: usize = 0;
    while i < adj.len()
        invariant
            g == adj.deep_view(),
            i <= adj.len(),
            forall|u: Seq<char>, v: Seq<char>| edge(g, u, v) ==> t.contains(v),
            forall|x: Seq<char>| #[trigger] stack.deep_view().contains(x) ==> reaches(g, start@, x) && t.contains(x),
            forall|j: int, y: Seq<char>|
                0 <= j < i && g[j].0 == start@ && #[trigger] g[j].1.contains(y) ==> stack.deep_view().contains(y),
        decreases adj.len() - i,
    {
        if str_eq(adj[i].0.as_str(), start) {
            let succ = &adj[i].1;
            let mut k: usize = 0;
            while k < succ.len()
                invariant
                    g == adj.deep_view(),
                    i < adj.len(),
                    forall|u: Seq<char>, v: Seq<char>| edge(g, u, v) ==> t.contains(v),
                    g[i as int].0 == start@,
                    succ.deep_view() == g[i as int].1,
                    k <= succ.len(),
                    forall|x: Seq<char>| #[trigger] stack.deep_view().contains(x) ==> reaches(g, start@, x) && t.contains(x),
                    forall|j: int, y: Seq<char>|
                        0 <= j < i && g[j].0 == start@ && #[trigger] g[j].1.contains(y) ==> stack.deep_view().contains(y),
                    forall|m: int| 0 <= m < k ==> stack.deep_view().contains(#[trigger] succ.deep_view()[m]),
                decreases succ.len() - k,
            {
                let ghost y = succ.deep_view()[k as int];
                let ghost s0 = stack.deep_view();
                proof {
                    assert(g[i as int].1.contains(y));
                    assert(edge(g, start@, y));
                    let p = seq![start@, y];
                    assert(edge(g, p[0], p[1]));
                    assert(is_path(g, p));
                    assert(p.last() == y);
                    assert(reaches(g, start@, y));
                    assert(t.contains(y));
                }
                stack.push(succ[k].clone());
                assert(stack.deep_view() =~= s0.push(y));
                assert forall|x: Seq<char>| #[trigger] stack.deep_view().contains(x) implies reaches(g, start@, x) && t.contains(x) by {
                    if x != y {
                        let a = choose|a: int| 0 <= a < stack.deep_view().len() && stack.deep_view()[a] == x;
                        assert(s0[a] == x);
                        assert(s0.contains(x));
                    }
                }
                assert forall|j: int, z: Seq<char>|
                        0 <= j < i && g[j].0 == start@ && #[trigger] g[j].1.contains(z) implies stack.deep_view().contains(z) by {
                    let a = choose|a: int| 0 <= a < s0.len() && s0[a] == z;
                    assert(stack.deep_view()[a] == z);
                }
                assert forall|m: int| 0 <= m < k + 1 implies stack.deep_view().contains(#[trigger] succ.deep_view()[m]) by {
                    if m < k {
                        let a = choose|a: int| 0 <= a < s0.len() && s0[a] == succ.deep_view()[m];
                        assert(stack.deep_view()[a] == succ.deep_view()[m]);
                    } else {
                        assert(stack.deep_view()[s0.len() as int] == y);
                    }
                }
                k = k + 1;
            }
            assert forall|y: Seq<char>| #[trigger] g[i as int].1.contains(y) implies stack.deep_view().contains(y) by {
                let m = choose|m: int| 0 <= m < g[i as int].1.len() && g[i as int].1[m] == y;
                assert(succ.deep_view()[m] == y);
            }
        }
        i = i + 1;
    }
    assert forall|y: Seq<char>| edge(g, start@, y) implies stack.deep_view().contains(y) by {
        let j = choose|j: int| 0 <= j < g.len() && g[j].0 == start@ && #[trigger] g[j].1.contains(y);
    }
    loop
        invariant
            g == adj.deep_view(),
            t.finite(),
            forall|u: Seq<char>, v: Seq<char>| edge(g, u, v) ==> t.contains(v),
            visited.deep_view().no_duplicates(),
            forall|x: Seq<char>| #[trigger] visited.deep_view().contains(x) ==> reaches(g, start@, x) && t.contains(x),
            forall|x: Seq<char>| #[trigger] stack.deep_view().contains(x) ==> reaches(g, start@, x) && t.contains(x),
            forall|y: Seq<char>| edge(g, start@, y) ==> visited.deep_view().contains(y) || stack.deep_view().contains(y),
            forall|x: Seq<char>, y: Seq<char>|
                visited.deep_view().contains(x) && edge(g, x, y) ==> visited.deep_view().contains(y) || stack.deep_view().contains(y),
            !visited.deep_view().contains(start@),
        decreases t.len() - visited.len(), stack.len(),
    {
        proof {
            visited.deep_view().unique_seq_to_set();
            assert(visited.deep_view().to_set().subset_of(t));
            vstd::set_lib::lemma_len_subset(visited.deep_view().to_set(), t);
        }
        let ghost s0 = stack.deep_view();
        let ghost v0 = visited.deep_view();
        match stack.pop() {
            None => {
                proof {
                    assert(s0.len() == 0);
                    if reaches(g, start@, start@) {
                        let p = choose|p: Seq<Seq<char>>| #[trigger] is_path(g, p) && p.len() >= 2 && p[0] == start@ && p.last() == start@;
                        lemma_closed(g, start@, v0, p);
                    }
                }
                return false;
            },
            Some(n) => {
                assert(s0 =~= stack.deep_view().push(n@));
                assert(s0[s0.len() - 1] == n@);
                assert(s0.contains(n@));
                assert forall|x: Seq<char>| #[trigger] stack.deep_view().contains(x) implies reaches(g, start@, x) && t.contains(x) by {
                    let a = choose|a: int| 0 <= a < stack.deep_view().len() && stack.deep_view()[a] == x;
                    assert(s0[a] == x);
                    assert(s0.contains(x));
                }
                if str_eq(n.as_str(), start) {
                    return true;
                }
                let seen = contains_str(&visited, n.as_str());
                if seen {
                    assert forall|y: Seq<char>| edge(g, start@, y) implies visited.deep_view().contains(y) || stack.deep_view().contains(y) by {
                        if s0.contains(y) && y != n@ {
                            let a = choose|a: int| 0 <= a < s0.len() && s0[a] == y;
                            assert(stack.deep_view()[a] == y);
                        }
                    }
                    assert forall|x: Seq<char>, y: Seq<char>|
                        visited.deep_view().contains(x) && edge(g, x, y) implies visited.deep_view().contains(y) || stack.deep_view().contains(y) by {
                        if s0.contains(y) && y != n@ {
                            let a = choose|a: int| 0 <= a < s0.len() && s0[a] == y;
                            assert(stack.deep_view()[a] == y);
                        }
                    }
                    assert forall|x: Seq<char>| #[trigger] stack.deep_view().contains(x) implies reaches(g, start@, x) && t.contains(x) by {
                        let a = choose|a: int| 0 <= a < stack.deep_view().len() && stack.deep_view()[a] == x;
                        assert(s0[a] == x);
                    }
                } else {
                    let ghost pn = choose|p: Seq<Seq<char>>| #[trigger] is_path(g, p) && p.len() >= 2 && p[0] == start@ && p.last() == n@;
                    visited.push(n.clone());
                    let ghost v1 = visited.deep_view();
                    assert(v1 =~= v0.push(n@));
                    let mut k: usize = 0;
                    let mut succ_found = false;
                    let mut idx: usize = 0;
                    while idx < adj.len()
                        invariant
                            g == adj.deep_view(),
                            idx <= adj.len(),
                            is_path(g, pn) && pn.len() >= 2 && pn[0] == start@ && pn.last() == n@,
                            forall|u: Seq<char>, v: Seq<char>| edge(g, u, v) ==> t.contains(v),
                            visited.deep_view() == v1,
                            forall|x: Seq<char>| #[trigger] stack.deep_view().contains(x) ==> reaches(g, start@, x) && t.contains(x),
                            forall|x: Seq<char>| s0.contains(x) && x != n@ ==> stack.deep_view().contains(x),
                            forall|j: int, y: Seq<char>|
                                0 <= j < idx && g[j].0 == n@ && #[trigger] g[j].1.contains(y) ==> stack.deep_view().contains(y),
                        decreases adj.len() - idx,
                    {
                        if str_eq(adj[idx].0.as_str(), n.as_str()) {
                            let succ = &adj[idx].1;
                            let mut m: usize = 0;
                            while m < succ.len()
                                invariant
                                    g == adj.deep_view(),
                                    idx < adj.len(),
                                    g[idx as int].0 == n@,
                                    succ.deep_view() == g[idx as int].1,
                                    m <= succ.len(),
                                    is_path(g, pn) && pn.len() >= 2 && pn[0] == start@ && pn.last() == n@,
                                    forall|u: Seq<char>, v: Seq<char>| edge(g, u, v) ==> t.contains(v),
                                    forall|x: Seq<char>| #[trigger] stack.deep_view().contains(x) ==> reaches(g, start@, x) && t.contains(x),
                                    forall|x: Seq<char>| s0.contains(x) && x != n@ ==> stack.deep_view().contains(x),
                                    forall|j: int, y: Seq<char>|
                                        0 <= j < idx && g[j].0 == n@ && #[trigger] g[j].1.contains(y) ==> stack.deep_view().contains(y),
                                    forall|q: int| 0 <= q < m ==> stack.deep_view().contains(#[trigger] succ.deep_view()[q]),
                                decreases succ.len() - m,
                            {
                                let ghost y = succ.deep_view()[m as int];
                                let ghost st0 = stack.deep_view();
                                proof {
                                    assert(g[idx as int].1.contains(y));
                                    assert(edge(g, n@, y));
                                    lemma_extend(g, pn, y);
                                    assert(is_path(g, pn.push(y)));
                                    assert(reaches(g, start@, y));
                                    assert(t.contains(y));
                                }
                                stack.push(succ[m].clone());
                                assert(stack.deep_view() =~= st0.push(y));
                                assert forall|x: Seq<char>| #[trigger] stack.deep_view().contains(x) implies reaches(g, start@, x) && t.contains(x) by {
                                    if x != y {
                                        let a = choose|a: int| 0 <= a < stack.deep_view().len() && stack.deep_view()[a] == x;
                                        assert(st0[a] == x);
                                        assert(st0.contains(x));
                                    }
                                }
                                assert forall|x: Seq<char>| s0.contains(x) && x != n@ implies stack.deep_view().contains(x) by {
                                    let a = choose|a: int| 0 <= a < st0.len() && st0[a] == x;
                                    assert(stack.deep_view()[a] == x);
                                }
                                assert forall|j: int, z: Seq<char>|
                                        0 <= j < idx && g[j].0 == n@ && #[trigger] g[j].1.contains(z) implies stack.deep_view().contains(z) by {
                                    let a = choose|a: int| 0 <= a < st0.len() && st0[a] == z;
                                    assert(stack.deep_view()[a] == z);
                                }
                                assert forall|q: int| 0 <= q < m + 1 implies stack.deep_view().contains(#[trigger] succ.deep_view()[q]) by {
                                    if q < m {
                                        let a = choose|a: int| 0 <= a < st0.len() && st0[a] == succ.deep_view()[q];
                                        assert(stack.deep_view()[a] == succ.deep_view()[q]);
                                    } else {
                                        assert(stack.deep_view()[st0.len() as int] == y);
                                    }
                                }
                                m = m + 1;
                            }
                            assert forall|y: Seq<char>| #[trigger] g[idx as int].1.contains(y) implies stack.deep_view().contains(y) by {
                                let q = choose|q: int| 0 <= q < g[idx as int].1.len() && g[idx as int].1[q] == y;
                                assert(succ.deep_view()[q] == y);
                            }
                        }
                        idx = idx + 1;
                    }
                    assert forall|x: Seq<char>| #[trigger] visited.deep_view().contains(x) implies reaches(g, start@, x) && t.contains(x) by {
                        if x != n@ {
                            let a = choose|a: int| 0 <= a < v1.len() && v1[a] == x;
                            assert(v0[a] == x);
                            assert(v0.contains(x));
                        } else {
                            assert(reaches(g, start@, n@));
                            assert(edge(g, pn[pn.len() - 2], pn[pn.len() - 2 + 1]));
                        }
                    }
                    assert(visited.deep_view().no_duplicates()) by {
                        assert forall|a: int, b: int| 0 <= a < b < v1.len() implies v1[a] != v1[b] by {
                            if b == v1.len() - 1 {
                                assert(v0[a] == v1[a]);
                                assert(v0.contains(v1[a]));
                            } else {
                                assert(v0[a] == v1[a] && v0[b] == v1[b]);
                            }
                        }
                    }
                    assert forall|x: Seq<char>| visited.deep_view().contains(x) implies v0.contains(x) || x == n@ by {
                        if x != n@ {
                            let a = choose|a: int| 0 <= a < v1.len() && v1[a] == x;
                            assert(v0[a] == x);
                        }
                    }
                    assert forall|x: Seq<char>| v0.contains(x) implies visited.deep_view().contains(x) by {
                        let a = choose|a: int| 0 <= a < v0.len() && v0[a] == x;
                        assert(v1[a] == x);
                    }
                    assert(visited.deep_view().contains(n@)) by {
                        assert(v1[v0.len() as int] == n@);
                    }
                    assert forall|y: Seq<char>| edge(g, n@, y) implies stack.deep_view().contains(y) by {
                        let j = choose|j: int| 0 <= j < g.len() && g[j].0 == n@ && #[trigger] g[j].1.contains(y);
                    }
                    assert forall|y: Seq<char>| edge(g, start@, y) implies visited.deep_view().contains(y) || stack.deep_view().contains(y) by {
                        if v0.contains(y) {
                        } else if y == n@ {
                        } else {
                            assert(s0.contains(y));
                        }
                    }
                    assert forall|x: Seq<char>, y: Seq<char>|
                        visited.deep_view().contains(x) && edge(g, x, y) implies visited.deep_view().contains(y) || stack.deep_view().contains(y) by {
                        if x == n@ {
                        } else {
                            assert(v0.contains(x));
                            if v0.contains(y) {
                            } else if y == n@ {
                            } else {
                                assert(s0.contains(y));
                            }
                        }
                    }
                    proof {
                        v1.unique_seq_to_set();
                        assert(v1.to_set().subset_of(t));
                        vstd::set_lib::lemma_len_subset(v1.to_set(), t);
                    }
                }
            },
        }
    }
}

/// The graph with one more edge, from `u` to `v`.
pub open spec fn with_edge(g: Graph, u: Seq<char>, v: Seq<char>) -> Graph {
    g.push((u, seq![v]))
}

pub proof fn lemma_with_edge(g: Graph, u: Seq<char>, v: Seq<char>, x: Seq<char>, y: Seq<char>)
    ensures
        edge(with_edge(g, u, v), x, y) <==> edge(g, x, y) || (x == u && y == v),
{
    let h = with_edge(g, u, v);
    if edge(h, x, y) {
        let i = choose|i: int| 0 <= i < h.len() && h[i].0 == x && #[trigger] h[i].1.contains(y);
        if i < g.len() {
            assert(h[i] == g[i]);
        } else {
            assert(h[i].1 == seq![v]);
            let j = choose|j: int| 0 <= j < h[i].1.len() && h[i].1[j] == y;
            assert(j == 0);
        }
    }
    if edge(g, x, y) {
        let i = choose|i: int| 0 <= i < g.len() && g[i].0 == x && #[trigger] g[i].1.contains(y);
        assert(h[i] == g[i]);
    }
    if x == u && y == v {
        assert(h[g.len() as int].1 == seq![v]);
        assert(h[g.len() as int].1[0] == v);
        assert(h[g.len() as int].1.contains(v));
    }
}

/// Adding the edge `u -> v` to an acyclic graph keeps it acyclic unless `u`
/// can then reach itself: a new cycle would have to pass through that edge.
pub proof fn lemma_added_edge_keeps_acyclic(g: Graph, u: Seq<char>, v: Seq<char>)
    requires
        acyclic(g),
        !reaches(with_edge(g, u, v), u, u),
    ensures
        acyclic(with_edge(g, u, v)),
{
    let h = with_edge(g, u, v);
    assert forall|w: Seq<char>| !#[trigger] reaches(h, w, w) by {
        if reaches(h, w, w) {
            let p = choose|p: Seq<Seq<char>>| #[trigger] is_path(h, p) && p.len() >= 2 && p[0] == w && p.last() == w;
            if exists|k: int| 0 <= k < p.len() - 1 && !edge(g, p[k], #[trigger] p[k + 1]) {
                let k = choose|k: int| 0 <= k < p.len() - 1 && !edge(g, p[k], #[trigger] p[k + 1]);
                assert(edge(h, p[k], p[k + 1]));
                lemma_with_edge(g, u, v, p[k], p[k + 1]);
                assert(p[k] == u);
                let n = p.len() as int;
                let q = p.subrange(k, n) + p.subrange(1, k + 1);
                assert(q[0] == u);
                assert(q.last() == p[k]);
                assert forall|i: int| 0 <= i < q.len() - 1 implies #[trigger] edge(h, q[i], q[i + 1]) by {
                    if i < n - k - 1 {
                        assert(q[i] == p[k + i] && q[i + 1] == p[k + i + 1]);
                        assert(edge(h, p[k + i], p[k + i + 1]));
                    } else if i == n - k - 1 {
                        assert(q[i] == p[n - 1]);
                        assert(q[i + 1] == p[1]);
                        assert(p[n - 1] == p[0]);
                        assert(edge(h, p[0], p[1]));
                    } else {
                        let j = i - (n - k);
                        assert(q[i] == p[1 + j] && q[i + 1] == p[2 + j]);
                        assert(edge(h, p[1 + j], p[1 + j + 1]));
                    }
                }
                assert(is_path(h, q));
                assert(reaches(h, u, u));
            } else {
                assert forall|i: int| 0 <= i < p.len() - 1 implies #[trigger] edge(g, p[i], p[i + 1]) by {
                    assert(edge(g, p[i], p[i + 1]));
                }
                assert(is_path(g, p));
                assert(reaches(g, w, w));
            }
        }
    }
}

/// A graph whose every edge is an edge of an acyclic graph is acyclic.
pub proof fn lemma_fewer_edges_acyclic(g: Graph, h: Graph)
    requires
        forall|x: Seq<char>, y: Seq<char>| #[trigger] edge(g, x, y) ==> edge(h, x, y),
        acyclic(h),
    ensures
        acyclic(g),
{
    assert forall|w: Seq<char>| !#[trigger] reaches(g, w, w) by {
        if reaches(g, w, w) {
            let p = choose|p: Seq<Seq<char>>| #[trigger] is_path(g, p) && p.len() >= 2 && p[0] == w && p.last() == w;
            assert forall|i: int| 0 <= i < p.len() - 1 implies #[trigger] edge(h, p[i], p[i + 1]) by {
                assert(edge(g, p[i], p[i + 1]));
            }
            assert(is_path(h, p));
            assert(reaches(h, w, w));
        }
    }
}

} // verus!
