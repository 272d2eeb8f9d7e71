//! Grouping likely-duplicate tasks: each candidate names the tasks its title
//! matched, and the candidates fall into the classes of the equivalence that
//! those matches generate. Classes of two or more tasks are the clusters.
use vstd::prelude::*;

use crate::ops::backlog::{member_views, slug_sorted, sort_members, DuplicateCluster, DuplicateMember, TagClusterMember};
use crate::model::{Document, DocView, Task, TaskView};
use crate::ops::task::task_views;
use crate::text::{lemma_seq_lt_total, lemma_seq_lt_trans, seq_le, seq_lt, str_eq, str_lt};

verus! {

/// Whether candidates `i` and `j` are joined by the links, read in order:
/// the smallest equivalence that holds each link.
pub open spec fn joined(links: Seq<(usize, usize)>, i: int, j: int) -> bool
    decreases links.len(),
{
    if links.len() == 0 {
        i == j
    } else {
        let p = links.drop_last();
        let a = links.last().0 as int;
        let b = links.last().1 as int;
        ||| joined(p, i, j)
        ||| (joined(p, i, a) && joined(p, b, j))
        ||| (joined(p, i, b) && joined(p, a, j))
    }
}

/// Every link names two of `n` candidates.
pub open spec fn links_within(links: Seq<(usize, usize)>, n: int) -> bool {
    forall|k: int| 0 <= k < links.len() ==> (#[trigger] links[k]).0 < n && links[k].1 < n
}

/// Labels that tell the classes apart: two candidates share a label exactly
/// when the links join them.
fn class_labels(n: usize, links: &Vec<(usize, usize)>) -> (comp: Vec<usize>)
    requires
        links_within(links@, n as int),
    ensures
        comp.len() == n,
        forall|i: int, j: int|
            0 <= i < n && 0 <= j < n ==> ((comp[i] == comp[j]) <==> #[trigger] joined(links@, i, j)),
{
    let mut comp: Vec<usize> = Vec::new();
    let mut i: usize = 0;
    while i < n
        invariant
            i <= n,
            comp.len() == i,
            forall|k: int| 0 <= k < i ==> comp[k] == k,
        decreases n - i,
    {
        comp.push(i);
        i = i + 1;
    }
    assert(links@.take(0) =~= Seq::<(usize, usize)>::empty());
    let mut t: usize = 0;
    while t < links.len()
        invariant
            t <= links.len(),
            comp.len() == n,
            links_within(links@, n as int),
            forall|i: int, j: int|
                0 <= i < n && 0 <= j < n ==> ((comp[i] == comp[j]) <==> #[trigger] joined(links@.take(t as int), i, j)),
        decreases links.len() - t,
    {
        let a = links[t].0;
        let b = links[t].1;
        assert(links@[t as int] == (a, b));
        let la = comp[a];
        let lb = comp[b];
        let ghost old_comp = comp@;
        if la != lb {
            let mut k: usize = 0;
            while k < n
                invariant
                    k <= n,
                    comp.len() == n,
                    old_comp.len() == n,
                    forall|m: int| 0 <= m < k ==> comp[m] == (if old_comp[m] == lb { la } else { old_comp[m] }),
                    forall|m: int| k <= m < n ==> comp[m] == old_comp[m],
                decreases n - k,
            {
                if comp[k] == lb {
                    comp.set(k, la);
                }
                k = k + 1;
            }
        }
        let ghost s = links@.take(t + 1);
        assert(s.drop_last() =~= links@.take(t as int));
        assert(s.last() == (a, b));
        assert forall|i: int, j: int| 0 <= i < n && 0 <= j < n implies ((comp[i] == comp[j]) <==> #[trigger] joined(s, i, j)) by {
            let p = links@.take(t as int);
            assert(joined(p, i, j) == (old_comp[i] == old_comp[j]));
            assert(joined(p, i, a as int) == (old_comp[i] == la));
            assert(joined(p, b as int, j) == (lb == old_comp[j]));
            assert(joined(p, i, b as int) == (old_comp[i] == lb));
            assert(joined(p, a as int, j) == (la == old_comp[j]));
        }
        t = t + 1;
    }
    assert(links@.take(links.len() as int) =~= links@);
    comp
}

/// The slug and title of each candidate.
pub open spec fn dup_views(v: Seq<DuplicateMember>) -> Seq<(Seq<char>, Seq<char>)> {
    v.map_values(|m: DuplicateMember| m@)
}

/// The members of each cluster, by their views.
pub open spec fn cluster_views(v: Seq<DuplicateCluster>) -> Seq<Seq<(Seq<char>, Seq<char>)>> {
    v.map_values(|c: DuplicateCluster| dup_views(c.members@))
}

/// The candidates among the first `m` that the links join to candidate `r`,
/// in candidate order.
pub open spec fn class_of(cv: Seq<(Seq<char>, Seq<char>)>, links: Seq<(usize, usize)>, r: int, m: int) -> Seq<
    (Seq<char>, Seq<char>),
>
    decreases m,
{
    if m <= 0 {
        Seq::empty()
    } else if joined(links, r, m - 1) {
        class_of(cv, links, r, m - 1).push(cv[m - 1])
    } else {
        class_of(cv, links, r, m - 1)
    }
}

/// Whether `out` are the duplicate clusters of candidates `cv` under the
/// links, with `reps[k]` a candidate of cluster `k`: each cluster holds the
/// whole class of its candidate, at least two members, in slug order; no two
/// clusters hold the same class; every class of two or more candidates is a
/// cluster; the clusters are in the order of their first slugs.
pub open spec fn grouped(
    cv: Seq<(Seq<char>, Seq<char>)>,
    links: Seq<(usize, usize)>,
    out: Seq<Seq<(Seq<char>, Seq<char>)>>,
    reps: Seq<int>,
) -> bool {
    &&& reps.len() == out.len()
    &&& forall|k: int|
        #![trigger out[k]]
        0 <= k < out.len() ==> {
            &&& 0 <= reps[k] < cv.len()
            &&& out[k].len() >= 2
            &&& slug_sorted(out[k])
            &&& out[k].to_multiset() == class_of(cv, links, reps[k], cv.len() as int).to_multiset()
        }
    &&& forall|k1: int, k2: int|
        #![trigger out[k1], out[k2]]
        0 <= k1 < k2 < out.len() ==> !joined(links, reps[k1], reps[k2]) && seq_le(out[k1][0].0, out[k2][0].0)
    &&& forall|r: int|
        #![trigger class_of(cv, links, r, cv.len() as int)]
        0 <= r < cv.len() && class_of(cv, links, r, cv.len() as int).len() >= 2 ==> exists|k: int|
            0 <= k < out.len() && #[trigger] joined(links, reps[k], r)
}

/// Two candidates joined to the same others have the same class.
proof fn lemma_class_same(cv: Seq<(Seq<char>, Seq<char>)>, links: Seq<(usize, usize)>, r1: int, r2: int, m: int)
    requires
        forall|x: int| 0 <= x < m ==> joined(links, r1, x) == joined(links, r2, x),
    ensures
        class_of(cv, links, r1, m) == class_of(cv, links, r2, m),
    decreases m,
{
    if m > 0 {
        lemma_class_same(cv, links, r1, r2, m - 1);
        assert(joined(links, r1, m - 1) == joined(links, r2, m - 1));
    }
}

/// Whether some candidate before `r` has its label.
fn label_seen_before(comp: &Vec<usize>, r: usize) -> (seen: bool)
    requires
        r < comp.len(),
    ensures
        seen == exists|j: int| 0 <= j < r && comp[j] == comp[r as int],
{
    let mut j: usize = 0;
    while j < r
        invariant
            j <= r,
            r < comp.len(),
            forall|x: int| 0 <= x < j ==> comp[x] != comp[r as int],
        decreases r - j,
    {
        if comp[j] == comp[r] {
            return true;
        }
        j = j + 1;
    }
    false
}

/// The candidates that share the label of candidate `r`, in candidate order.
fn gather_class(
    cands: &Vec<DuplicateMember>,
    comp: &Vec<usize>,
    r: usize,
    Ghost(links): Ghost<Seq<(usize, usize)>>,
) -> (g: Vec<TagClusterMember>)
    requires
        comp.len() == cands.len(),
        r < cands.len(),
        forall|i: int, j: int|
            0 <= i < cands.len() && 0 <= j < cands.len() ==> ((comp[i] == comp[j]) <==> #[trigger] joined(links, i, j)),
    ensures
        member_views(g@) == class_of(dup_views(cands@), links, r as int, cands.len() as int),
{
    let ghost cv = dup_views(cands@);
    let mut g: Vec<TagClusterMember> = Vec::new();
    let mut k: usize = 0;
    while k < cands.len()
        invariant
            k <= cands.len(),
            comp.len() == cands.len(),
            r < cands.len(),
            cv == dup_views(cands@),
            forall|i: int, j: int|
                0 <= i < cands.len() && 0 <= j < cands.len() ==> ((comp[i] == comp[j]) <==> #[trigger] joined(links, i, j)),
            member_views(g@) == class_of(cv, links, r as int, k as int),
        decreases cands.len() - k,
    {
        assert(joined(links, r as int, k as int) == (comp[r as int] == comp[k as int]));
        if comp[k] == comp[r] {
            let x = TagClusterMember { slug: cands[k].slug.clone(), title: cands[k].title.clone() };
            let ghost before = member_views(g@);
            g.push(x);
            assert(member_views(g@) =~= before.push(cv[k as int]));
        }
        k = k + 1;
    }
    g
}

/// The same members as duplicate-cluster members.
fn to_duplicate_members(v: Vec<TagClusterMember>) -> (r: Vec<DuplicateMember>)
    ensures
        dup_views(r@) == member_views(v@),
{
    let mut r: Vec<DuplicateMember> = Vec::new();
    let mut i: usize = 0;
    while i < v.len()
        invariant
            i <= v.len(),
            dup_views(r@) == member_views(v@).take(i as int),
        decreases v.len() - i,
    {
        let ghost before = dup_views(r@);
        let m = DuplicateMember { slug: v[i].slug.clone(), title: v[i].title.clone() };
        assert(m@ == member_views(v@)[i as int]);
        r.push(m);
        assert(dup_views(r@) =~= before.push(m@));
        assert(member_views(v@).take(i + 1) =~= member_views(v@).take(i as int).push(member_views(v@)[i as int]));
        i = i + 1;
    }
    assert(member_views(v@).take(v.len() as int) =~= member_views(v@));
    r
}

/// Inserts `c` after the clusters whose first slug does not sort after its
/// own, and says where.
fn insert_cluster(out: &mut Vec<DuplicateCluster>, c: DuplicateCluster) -> (p: usize)
    requires
        c.members.len() > 0,
        forall|k: int| 0 <= k < old(out).len() ==> (#[trigger] old(out)[k]).members.len() > 0,
    ensures
        p <= old(out).len(),
        final(out)@ == old(out)@.insert(p as int, c),
        forall|k: int| 0 <= k < p ==> !seq_lt(c.members[0].slug@, (#[trigger] old(out)[k]).members[0].slug@),
        p < old(out).len() ==> seq_lt(c.members[0].slug@, old(out)[p as int].members[0].slug@),
{
    let mut p: usize = 0;
    while p < out.len() && !str_lt(c.members[0].slug.as_str(), out[p].members[0].slug.as_str())
        invariant
            p <= out.len(),
            c.members.len() > 0,
            forall|k: int| 0 <= k < out.len() ==> (#[trigger] out[k]).members.len() > 0,
            forall|k: int| 0 <= k < p ==> !seq_lt(c.members[0].slug@, (#[trigger] out[k]).members[0].slug@),
        decreases out.len() - p,
    {
        p = p + 1;
    }
    out.insert(p, c);
    p
}

/// The duplicate clusters of `cands` under the links: the classes of the
/// equivalence the links generate that hold two or more candidates, each in
/// slug order, the clusters in the order of their first slugs. See
/// [`grouped`].
#[verifier::rlimit(60)]
#[verifier::spinoff_prover]
pub fn group_duplicates(cands: &Vec<DuplicateMember>, links: &Vec<(usize, usize)>) -> (out: Vec<DuplicateCluster>)
    requires
        links_within(links@, cands.len() as int),
    ensures
        exists|reps: Seq<int>| grouped(dup_views(cands@), links@, cluster_views(out@), reps),
{
    let n = cands.len();
    let ghost cv = dup_views(cands@);
    let ghost ls = links@;
    let comp = class_labels(n, links);
    let mut out: Vec<DuplicateCluster> = Vec::new();
    let ghost mut reps: Seq<int> = Seq::empty();
    let mut r: usize = 0;
    while r < n
        invariant
            r <= n,
            n == cands.len(),
            cv == dup_views(cands@),
            ls == links@,
            comp.len() == n,
            forall|i: int, j: int| 0 <= i < n && 0 <= j < n ==> ((comp[i] == comp[j]) <==> #[trigger] joined(ls, i, j)),
            reps.len() == out.len(),
            forall|k: int| 0 <= k < reps.len() ==> 0 <= #[trigger] reps[k] < r,
            forall|k: int|
                #![trigger out[k]]
                0 <= k < out.len() ==> {
                    &&& out[k].members.len() >= 2
                    &&& slug_sorted(dup_views(out[k].members@))
                    &&& dup_views(out[k].members@).to_multiset() == class_of(cv, ls, reps[k], n as int).to_multiset()
                },
            forall|k1: int, k2: int|
                #![trigger out[k1], out[k2]]
                0 <= k1 < k2 < out.len() ==> seq_le(out[k1].members[0].slug@, out[k2].members[0].slug@),
            forall|k1: int, k2: int|
                #![trigger reps[k1], reps[k2]]
                0 <= k1 < out.len() && 0 <= k2 < out.len() && k1 != k2 ==> !joined(ls, reps[k1], reps[k2]),
            forall|x: int|
                #![trigger class_of(cv, ls, x, n as int)]
                0 <= x < r && class_of(cv, ls, x, n as int).len() >= 2 ==> exists|k: int|
                    0 <= k < out.len() && #[trigger] joined(ls, reps[k], x),
        decreases n - r,
    {
        let seen = label_seen_before(&comp, r);
        if seen {
            proof {
                let j = choose|j: int| 0 <= j < r && comp[j] == comp[r as int];
                assert forall|x: int| 0 <= x < n implies joined(ls, j, x) == joined(ls, r as int, x) by {
                    assert(joined(ls, j, x) == (comp[j] == comp[x]));
                    assert(joined(ls, r as int, x) == (comp[r as int] == comp[x]));
                }
                lemma_class_same(cv, ls, j, r as int, n as int);
                if class_of(cv, ls, r as int, n as int).len() >= 2 {
                    assert(class_of(cv, ls, j, n as int).len() >= 2);
                    let k = choose|k: int| 0 <= k < out.len() && #[trigger] joined(ls, reps[k], j);
                    assert(out[k].members.len() >= 2);
                    assert(comp[reps[k]] == comp[j]);
                    assert(joined(ls, reps[k], r as int));
                }
            }
        } else {
            let g = gather_class(cands, &comp, r, Ghost(ls));
            if g.len() >= 2 {
                let sorted = sort_members(g);
                proof {
                    member_views(sorted@).to_multiset_ensures();
                    member_views(g@).to_multiset_ensures();
                }
                let ms = to_duplicate_members(sorted);
                assert(ms.len() == dup_views(ms@).len());
                let c = DuplicateCluster { members: ms };
                let ghost old_out = out@;
                let ghost old_reps = reps;
                let p = insert_cluster(&mut out, c);
                proof {
                    reps = reps.insert(p as int, r as int);
                    assert(out@ == old_out.insert(p as int, c));
                    assert forall|k: int| #![trigger out[k]] 0 <= k < out.len() implies {
                        &&& out[k].members.len() >= 2
                        &&& slug_sorted(dup_views(out[k].members@))
                        &&& dup_views(out[k].members@).to_multiset() == class_of(cv, ls, reps[k], n as int).to_multiset()
                    } by {
                        if k < p {
                            assert(out[k] == old_out[k] && reps[k] == old_reps[k]);
                        } else if k == p {
                            assert(out[k] == c && reps[k] == r);
                        } else {
                            assert(out[k] == old_out[k - 1] && reps[k] == old_reps[k - 1]);
                        }
                    }
                    assert forall|k1: int, k2: int| #![trigger out[k1], out[k2]] 0 <= k1 < k2 < out.len() implies seq_le(
                        out[k1].members[0].slug@,
                        out[k2].members[0].slug@,
                    ) by {
                        if k2 < p {
                            assert(out[k1] == old_out[k1] && out[k2] == old_out[k2]);
                        } else if k2 == p {
                            assert(out[k1] == old_out[k1]);
                            lemma_seq_lt_total(c.members[0].slug@, old_out[k1].members[0].slug@);
                        } else if k1 == p {
                            assert(out[k2] == old_out[k2 - 1]);
                            if k2 - 1 > p {
                                assert(seq_le(old_out[p as int].members[0].slug@, old_out[k2 - 1].members[0].slug@));
                                lemma_seq_lt_trans(
                                    c.members[0].slug@,
                                    old_out[p as int].members[0].slug@,
                                    old_out[k2 - 1].members[0].slug@,
                                );
                            }
                        } else if k1 < p {
                            assert(out[k1] == old_out[k1] && out[k2] == old_out[k2 - 1]);
                        } else {
                            assert(out[k1] == old_out[k1 - 1] && out[k2] == old_out[k2 - 1]);
                        }
                    }
                    assert forall|k1: int, k2: int| #![trigger reps[k1], reps[k2]] 0 <= k1 < out.len() && 0 <= k2 < out.len()
                        && k1 != k2 implies !joined(ls, reps[k1], reps[k2]) by {
                        if k1 == p {
                            let q = if k2 < p { k2 } else { k2 - 1 };
                            assert(reps[k2] == old_reps[q]);
                            assert(old_out[q].members.len() >= 2);
                            assert(comp[reps[k2]] != comp[r as int]);
                        } else if k2 == p {
                            let q = if k1 < p { k1 } else { k1 - 1 };
                            assert(reps[k1] == old_reps[q]);
                            assert(old_out[q].members.len() >= 2);
                            assert(comp[reps[k1]] != comp[r as int]);
                        } else {
                            let q1 = if k1 < p { k1 } else { k1 - 1 };
                            let q2 = if k2 < p { k2 } else { k2 - 1 };
                            assert(reps[k1] == old_reps[q1] && reps[k2] == old_reps[q2]);
                        }
                    }
                    assert forall|x: int| #![trigger class_of(cv, ls, x, n as int)] 0 <= x < r + 1 && class_of(
                        cv,
                        ls,
                        x,
                        n as int,
                    ).len() >= 2 implies exists|k: int| 0 <= k < out.len() && #[trigger] joined(ls, reps[k], x) by {
                        if x == r {
                            assert(comp[r as int] == comp[r as int]);
                            assert(joined(ls, reps[p as int], x));
                        } else {
                            let k = choose|k: int| 0 <= k < old_out.len() && #[trigger] joined(ls, old_reps[k], x);
                            let q = if k < p { k } else { k + 1 };
                            assert(reps[q] == old_reps[k]);
                            assert(joined(ls, reps[q], x));
                        }
                    }
                }
            }
        }
        r = r + 1;
    }
    proof {
        let cvs = cluster_views(out@);
        assert forall|k: int| 0 <= k < out.len() implies #[trigger] cvs[k] == dup_views(out[k].members@) && cvs[k][0].0
            == out[k].members[0].slug@ by {
            assert(out[k].members.len() >= 2);
            assert(dup_views(out[k].members@)[0] == out[k].members@[0]@);
        }
        assert forall|k: int| #![trigger cvs[k]] 0 <= k < cvs.len() implies {
            &&& 0 <= reps[k] < cv.len()
            &&& cvs[k].len() >= 2
            &&& slug_sorted(cvs[k])
            &&& cvs[k].to_multiset() == class_of(cv, ls, reps[k], cv.len() as int).to_multiset()
        } by {
            assert(out[k].members.len() >= 2);
        }
        assert forall|k1: int, k2: int| #![trigger cvs[k1], cvs[k2]] 0 <= k1 < k2 < cvs.len() implies !joined(
            ls,
            reps[k1],
            reps[k2],
        ) && seq_le(cvs[k1][0].0, cvs[k2][0].0) by {
            assert(out[k1].members.len() >= 2 && out[k2].members.len() >= 2);
        }
        assert(cv.len() == n && cvs.len() == out.len());
        assert forall|x: int| #![trigger class_of(cv, ls, x, cv.len() as int)] 0 <= x < cv.len() && class_of(
            cv,
            ls,
            x,
            cv.len() as int,
        ).len() >= 2 implies exists|k: int| 0 <= k < cvs.len() && #[trigger] joined(ls, reps[k], x) by {
            assert(class_of(cv, ls, x, n as int).len() >= 2);
        }
        assert(grouped(cv, ls, cvs, reps));
    }
    out
}

/// The tasks that can be duplicates, those not closed, by slug and title, in
/// listing order.
pub open spec fn candidate_views(tasks: Seq<(Seq<char>, DocView<TaskView>)>) -> Seq<(Seq<char>, Seq<char>)>
    decreases tasks.len(),
{
    if tasks.len() == 0 {
        Seq::empty()
    } else {
        let x = tasks.last();
        let p = candidate_views(tasks.drop_last());
        if x.1.frontmatter.status.is_terminal_spec() {
            p
        } else {
            p.push((x.0, x.1.frontmatter.title))
        }
    }
}

/// The candidates for duplicate clustering: the tasks that are not closed.
pub fn duplicate_candidates(tasks: &Vec<(String, Document<Task>)>) -> (r: Vec<DuplicateMember>)
    ensures
        dup_views(r@) == candidate_views(task_views(tasks@)),
{
    let ghost tv = task_views(tasks@);
    let mut r: Vec<DuplicateMember> = Vec::new();
    let mut i: usize = 0;
    while i < tasks.len()
        invariant
            i <= tasks.len(),
            tv == task_views(tasks@),
            dup_views(r@) == candidate_views(tv.take(i as int)),
        decreases tasks.len() - i,
    {
        assert(tv.take(i + 1).drop_last() =~= tv.take(i as int));
        assert(tv[i as int] == (tasks[i as int].0@, tasks[i as int].1@));
        if !tasks[i].1.frontmatter.status.is_terminal() {
            let ghost before = dup_views(r@);
            let m = DuplicateMember { slug: tasks[i].0.clone(), title: tasks[i].1.frontmatter.title.clone() };
            r.push(m);
            assert(dup_views(r@) =~= before.push(m@));
        }
        i = i + 1;
    }
    assert(tv.take(tasks.len() as int) =~= tv);
    r
}

/// Whether candidate `j` is the first with slug `s`.
pub open spec fn first_with_slug(cv: Seq<(Seq<char>, Seq<char>)>, s: Seq<char>, j: int) -> bool {
    &&& 0 <= j < cv.len()
    &&& cv[j].0 == s
    &&& forall|x: int| 0 <= x < j ==> cv[x].0 != s
}

/// Whether candidate `i` names candidate `j` as a match: the search for the
/// title of `i` found the slug of `j`, which is not the slug of `i`, and `j`
/// is the first candidate with that slug.
pub open spec fn dup_edge(cv: Seq<(Seq<char>, Seq<char>)>, matched: Seq<Seq<Seq<char>>>, i: int, j: int) -> bool {
    &&& 0 <= i < cv.len()
    &&& i < matched.len()
    &&& first_with_slug(cv, cv[j].0, j)
    &&& cv[j].0 != cv[i].0
    &&& matched[i].contains(cv[j].0)
}

/// The first candidate with slug `s`, if any.
fn find_slug(cands: &Vec<DuplicateMember>, s: &str) -> (r: Option<usize>)
    ensures
        match r {
            Some(j) => first_with_slug(dup_views(cands@), s@, j as int),
            None => forall|x: int| 0 <= x < cands.len() ==> (#[trigger] dup_views(cands@)[x]).0 != s@,
        },
{
    let ghost cv = dup_views(cands@);
    let mut j: usize = 0;
    while j < cands.len()
        invariant
            j <= cands.len(),
            cv == dup_views(cands@),
            forall|x: int| 0 <= x < j ==> (#[trigger] cv[x]).0 != s@,
        decreases cands.len() - j,
    {
        assert(cv[j as int] == cands[j as int]@);
        if str_eq(cands[j].slug.as_str(), s) {
            return Some(j);
        }
        j = j + 1;
    }
    None
}

/// The links that the matches make, one for each candidate and each slug it
/// names that belongs to another candidate.
fn duplicate_links(cands: &Vec<DuplicateMember>, matched: &Vec<Vec<String>>) -> (links: Vec<(usize, usize)>)
    requires
        matched.len() == cands.len(),
    ensures
        links_within(links@, cands.len() as int),
        forall|k: int| 0 <= k < links.len() ==> dup_edge(dup_views(cands@), matched.deep_view(), (#[trigger] links[k]).0 as int, links[k].1 as int),
        forall|i: int, j: int| #[trigger] dup_edge(dup_views(cands@), matched.deep_view(), i, j) ==> links@.contains((i as usize, j as usize)),
{
    let ghost cv = dup_views(cands@);
    let ghost md = matched.deep_view();
    let mut links: Vec<(usize, usize)> = Vec::new();
    let mut i: usize = 0;
    while i < cands.len()
        invariant
            i <= cands.len(),
            matched.len() == cands.len(),
            cv == dup_views(cands@),
            md == matched.deep_view(),
            links_within(links@, cands.len() as int),
            forall|k: int| 0 <= k < links.len() ==> dup_edge(cv, md, (#[trigger] links[k]).0 as int, links[k].1 as int),
            forall|i2: int, j: int| #[trigger] dup_edge(cv, md, i2, j) && i2 < i ==> links@.contains((i2 as usize, j as usize)),
        decreases cands.len() - i,
    {
        let ms = &matched[i];
        assert(md[i as int] == ms.deep_view());
        let mut m: usize = 0;
        while m < ms.len()
            invariant
                i < cands.len(),
                m <= ms.len(),
                matched.len() == cands.len(),
                cv == dup_views(cands@),
                md == matched.deep_view(),
                md[i as int] == ms.deep_view(),
                links_within(links@, cands.len() as int),
                forall|k: int| 0 <= k < links.len() ==> dup_edge(cv, md, (#[trigger] links[k]).0 as int, links[k].1 as int),
                forall|i2: int, j: int| #[trigger] dup_edge(cv, md, i2, j) && i2 < i ==> links@.contains((i2 as usize, j as usize)),
                forall|q: int, j: int|
                    #![trigger ms.deep_view()[q], cv[j]]
                    0 <= q < m && first_with_slug(cv, ms.deep_view()[q], j) && ms.deep_view()[q] != cv[i as int].0
                        ==> links@.contains((i, j as usize)),
            decreases ms.len() - m,
        {
            assert(ms.deep_view()[m as int] == ms[m as int]@);
            assert(cv[i as int] == cands[i as int]@);
            let ghost before = links@;
            if !str_eq(ms[m].as_str(), cands[i].slug.as_str()) {
                match find_slug(cands, ms[m].as_str()) {
                    Some(j) => {
                        links.push((i, j));
                        assert(links@ == before.push((i, j)));
                        assert(links@[before.len() as int] == (i, j));
                        assert(md[i as int].contains(cv[j as int].0));
                        assert(dup_edge(cv, md, i as int, j as int));
                        assert forall|k: int| 0 <= k < links.len() implies dup_edge(cv, md, (#[trigger] links[k]).0 as int, links[k].1 as int) by {
                            if k < before.len() {
                                assert(links[k] == before[k]);
                            }
                        }
                        assert forall|i2: int, j2: int| #[trigger] dup_edge(cv, md, i2, j2) && i2 < i implies links@.contains((i2 as usize, j2 as usize)) by {
                            let w = choose|w: int| 0 <= w < before.len() && before[w] == (i2 as usize, j2 as usize);
                            assert(links@[w] == before[w]);
                        }
                        assert forall|q: int, j2: int|
                            #![trigger ms.deep_view()[q], cv[j2]]
                            0 <= q < m + 1 && first_with_slug(cv, ms.deep_view()[q], j2) && ms.deep_view()[q] != cv[i as int].0
                            implies links@.contains((i, j2 as usize)) by {
                            if q < m {
                                let w = choose|w: int| 0 <= w < before.len() && before[w] == (i, j2 as usize);
                                assert(links@[w] == before[w]);
                            } else {
                                assert(j2 == j);
                                assert(links@[before.len() as int] == (i, j2 as usize));
                            }
                        }
                    },
                    None => {
                        assert forall|q: int, j2: int|
                            #![trigger ms.deep_view()[q], cv[j2]]
                            0 <= q < m + 1 && first_with_slug(cv, ms.deep_view()[q], j2) && ms.deep_view()[q] != cv[i as int].0
                            implies links@.contains((i, j2 as usize)) by {
                            if q == m {
                                assert(cv[j2].0 != ms[m as int]@);
                            }
                        }
                    },
                }
            }
            m = m + 1;
        }
        assert forall|i2: int, j: int| #[trigger] dup_edge(cv, md, i2, j) && i2 < i + 1 implies links@.contains((i2 as usize, j as usize)) by {
            if i2 == i {
                let q = choose|q: int| 0 <= q < md[i as int].len() && md[i as int][q] == cv[j].0;
                assert(ms.deep_view()[q] == cv[j].0);
            }
        }
        i = i + 1;
    }
    links
}

/// Whether `out` are the duplicate clusters of candidates `cv` when
/// `md[i]` holds the slugs that the search for the title of candidate `i`
/// found close enough: for the links that those matches make (see
/// [`dup_edge`]), the clusters are [`grouped`] by the classes the links
/// generate.
pub open spec fn dup_clustered(cv: Seq<(Seq<char>, Seq<char>)>, md: Seq<Seq<Seq<char>>>, out: Seq<DuplicateCluster>) -> bool {
    exists|links: Seq<(usize, usize)>|
        {
            &&& links_within(links, cv.len() as int)
            &&& forall|k: int| 0 <= k < links.len() ==> dup_edge(cv, md, (#[trigger] links[k]).0 as int, links[k].1 as int)
            &&& forall|i: int, j: int| #[trigger] dup_edge(cv, md, i, j) ==> links.contains((i as usize, j as usize))
            &&& exists|reps: Seq<int>| grouped(cv, links, cluster_views(out), reps)
        }
}

/// The duplicate clusters of the candidates, where `matched[i]` holds the
/// slugs that the search for the title of candidate `i` found close enough.
pub fn duplicate_clusters(cands: &Vec<DuplicateMember>, matched: &Vec<Vec<String>>) -> (out: Vec<DuplicateCluster>)
    requires
        matched.len() == cands.len(),
    ensures
        dup_clustered(dup_views(cands@), matched.deep_view(), out@),
{
    let links = duplicate_links(cands, matched);
    let out = group_duplicates(cands, &links);
    proof {
        let cv = dup_views(cands@);
        let reps = choose|reps: Seq<int>| grouped(cv, links@, cluster_views(out@), reps);
        assert(links_within(links@, cv.len() as int));
        assert(grouped(cv, links@, cluster_views(out@), reps));
    }
    out
}

/// The slugs matched for `slug`: those of the first entry for it, none when
/// it has no entry.
pub open spec fn matches_for(ms: Seq<(Seq<char>, Seq<Seq<char>>)>, slug: Seq<char>) -> Seq<Seq<char>>
    decreases ms.len(),
{
    if ms.len() == 0 {
        Seq::empty()
    } else if ms[0].0 == slug {
        ms[0].1
    } else {
        matches_for(ms.drop_first(), slug)
    }
}

/// The slugs matched for each candidate.
pub open spec fn matched_of(cv: Seq<(Seq<char>, Seq<char>)>, ms: Seq<(Seq<char>, Seq<Seq<char>>)>) -> Seq<Seq<Seq<char>>> {
    cv.map_values(|c: (Seq<char>, Seq<char>)| matches_for(ms, c.0))
}

/// The slugs matched for `slug`; see [`matches_for`].
fn lookup_matches(ms: &Vec<(String, Vec<String>)>, slug: &str) -> (r: Vec<String>)
    ensures
        r.deep_view() == matches_for(ms.deep_view(), slug@),
{
    let ghost mv = ms.deep_view();
    let mut k: usize = 0;
    assert(mv.skip(0) =~= mv);
    while k < ms.len()
        invariant
            k <= ms.len(),
            mv == ms.deep_view(),
            matches_for(mv, slug@) == matches_for(mv.skip(k as int), slug@),
        decreases ms.len() - k,
    {
        assert(mv.skip(k as int)[0] == mv[k as int]);
        assert(mv[k as int] == (ms[k as int].0@, ms[k as int].1.deep_view()));
        if str_eq(ms[k].0.as_str(), slug) {
            return crate::model::copy_strings(&ms[k].1);
        }
        assert(mv.skip(k as int).drop_first() =~= mv.skip(k + 1));
        k = k + 1;
    }
    Vec::new()
}

/// The duplicate clusters of `tasks` when `title_matches` pairs task slugs
/// with the slugs that the search for the task's title found close enough:
/// the candidates are the tasks that are not closed, and a candidate
/// without an entry matched nothing.
pub fn task_duplicate_clusters(tasks: &Vec<(String, Document<Task>)>, title_matches: &Vec<(String, Vec<String>)>) -> (out: Vec<
    DuplicateCluster,
>)
    ensures
        dup_clustered(
            candidate_views(task_views(tasks@)),
            matched_of(candidate_views(task_views(tasks@)), title_matches.deep_view()),
            out@,
        ),
{
    let cands = duplicate_candidates(tasks);
    let ghost cv = dup_views(cands@);
    let mut matched: Vec<Vec<String>> = Vec::new();
    let mut i: usize = 0;
    while i < cands.len()
        invariant
            i <= cands.len(),
            cv == dup_views(cands@),
            matched.len() == i,
            matched.deep_view() == matched_of(cv, title_matches.deep_view()).take(i as int),
        decreases cands.len() - i,
    {
        let found = lookup_matches(title_matches, cands[i].slug.as_str());
        let ghost before = matched.deep_view();
        assert(cv[i as int] == cands[i as int]@);
        matched.push(found);
        assert(matched.deep_view() =~= before.push(found.deep_view()));
        assert(matched_of(cv, title_matches.deep_view()).take(i + 1) =~= matched_of(cv, title_matches.deep_view()).take(
            i as int,
        ).push(matches_for(title_matches.deep_view(), cv[i as int].0)));
        i = i + 1;
    }
    assert(matched_of(cv, title_matches.deep_view()).take(cands.len() as int) =~= matched_of(cv, title_matches.deep_view()));
    duplicate_clusters(&cands, &matched)
}

} // verus!
