//! Tag inventory: which tags are in use across a project's roadmaps and
//! tasks, and how many items carry each one.
//!
//! Only roadmaps and tasks are scanned (not phases); archived roadmaps are
//! not; every task status counts; tags are compared verbatim.
use vstd::prelude::*;

use crate::error::Result;
use crate::graph::contains_str;
use crate::model::{copy_opt_strings, Document, Roadmap, Task};
use crate::ops::roadmap::{list_roadmaps, list_roadmaps_post};
use crate::ops::task::{has_tag, list_tasks, lists_tasks};
use crate::store::{Files, MemoryStore};
use crate::text::{lemma_seq_lt_irrefl, lemma_seq_lt_total, lemma_seq_lt_trans, seq_lt, str_lt};

verus! {

/// One tag in use, with the number of items carrying it.
#[derive(Debug, Clone, PartialEq, Eq)]
pub struct TagCount {
    /// The tag, verbatim.
    pub tag: String,
    /// Roadmaps and tasks carrying the tag.
    pub count: usize,
    /// Roadmaps carrying the tag.
    pub roadmaps: usize,
    /// Tasks carrying the tag.
    pub tasks: usize,
}

/// Spec view of a [`TagCount`].
pub struct TagCountView {
    pub tag: Seq<char>,
    pub count: usize,
    pub roadmaps: usize,
    pub tasks: usize,
}

impl View for TagCount {
    type V = TagCountView;

    open spec fn view(&self) -> TagCountView {
        TagCountView { tag: self.tag@, count: self.count, roadmaps: self.roadmaps, tasks: self.tasks }
    }
}

/// The views of a list of tag counts.
pub open spec fn tag_views(v: Seq<TagCount>) -> Seq<TagCountView> {
    v.map_values(|c: TagCount| c@)
}

/// The tag lists of some roadmaps, in order.
pub open spec fn roadmap_tags(v: Seq<Document<Roadmap>>) -> Seq<Option<Seq<Seq<char>>>> {
    v.map_values(|d: Document<Roadmap>| d@.frontmatter.tags)
}

/// The tag lists of some tasks, in order.
pub open spec fn task_tags(v: Seq<(String, Document<Task>)>) -> Seq<Option<Seq<Seq<char>>>> {
    v.map_values(|x: (String, Document<Task>)| x.1@.frontmatter.tags)
}

/// How many of the tag lists hold `tag`; a list that repeats it counts once.
pub open spec fn carriers(lists: Seq<Option<Seq<Seq<char>>>>, tag: Seq<char>) -> nat
    decreases lists.len(),
{
    if lists.len() == 0 {
        0
    } else {
        carriers(lists.drop_last(), tag) + if has_tag(lists.last(), tag) {
            1nat
        } else {
            0nat
        }
    }
}

/// Whether one of the tag lists holds `tag`.
pub open spec fn in_use(lists: Seq<Option<Seq<Seq<char>>>>, tag: Seq<char>) -> bool {
    exists|i: int| 0 <= i < lists.len() && #[trigger] has_tag(lists[i], tag)
}

/// The sum of two counts, capped at the largest `usize`.
pub open spec fn total(roadmaps: usize, tasks: usize) -> usize {
    if roadmaps + tasks > usize::MAX {
        usize::MAX
    } else {
        (roadmaps + tasks) as usize
    }
}

/// Whether `c` counts its tag right over roadmap tag lists `r` and task tag
/// lists `k`, and the tag is in use.
pub open spec fn counted(
    r: Seq<Option<Seq<Seq<char>>>>,
    k: Seq<Option<Seq<Seq<char>>>>,
    c: TagCountView,
) -> bool {
    &&& c.roadmaps == carriers(r, c.tag)
    &&& c.tasks == carriers(k, c.tag)
    &&& c.count == total(c.roadmaps, c.tasks)
    &&& (in_use(r, c.tag) || in_use(k, c.tag))
}

/// Whether `a` is listed before `b`: more items first, ties by tag.
pub open spec fn count_before(a: TagCountView, b: TagCountView) -> bool {
    a.count > b.count || (a.count == b.count && seq_lt(a.tag, b.tag))
}

/// Whether `out` is the inventory of roadmap tag lists `r` and task tag
/// lists `k`: each tag in use once, with its counts, most used first and
/// ties by tag.
pub open spec fn tallied(
    r: Seq<Option<Seq<Seq<char>>>>,
    k: Seq<Option<Seq<Seq<char>>>>,
    out: Seq<TagCountView>,
) -> bool {
    &&& forall|i: int| 0 <= i < out.len() ==> #[trigger] counted(r, k, out[i])
    &&& forall|t: Seq<char>|
        #![trigger in_use(r, t)]
        #![trigger in_use(k, t)]
        in_use(r, t) || in_use(k, t) ==> exists|i: int| 0 <= i < out.len() && (#[trigger] out[i]).tag == t
    &&& forall|i: int, j: int|
        0 <= i < j < out.len() ==> count_before(#[trigger] out[i], #[trigger] out[j])
    &&& forall|i: int, j: int| 0 <= i < j < out.len() ==> (#[trigger] out[i]).tag != (#[trigger] out[j]).tag
}

proof fn lemma_count_before_trans(a: TagCountView, b: TagCountView, c: TagCountView)
    requires
        count_before(a, b),
        count_before(b, c),
    ensures
        count_before(a, c),
{
    if a.count == b.count && b.count == c.count {
        lemma_seq_lt_trans(a.tag, b.tag, c.tag);
    }
}

proof fn lemma_count_before_total(a: TagCountView, b: TagCountView)
    requires
        a.tag != b.tag,
    ensures
        count_before(a, b) || count_before(b, a),
{
    lemma_seq_lt_total(a.tag, b.tag);
}

proof fn lemma_in_use_step(lv: Seq<Option<Seq<Seq<char>>>>, i: int, x: Seq<char>)
    requires
        0 <= i < lv.len(),
    ensures
        in_use(lv.take(i + 1), x) <==> (in_use(lv.take(i), x) || has_tag(lv[i], x)),
{
    if in_use(lv.take(i + 1), x) {
        let k = choose|k: int| 0 <= k < i + 1 && #[trigger] has_tag(lv.take(i + 1)[k], x);
        if k < i {
            assert(lv.take(i)[k] == lv[k]);
            assert(has_tag(lv.take(i)[k], x));
        }
    }
    if in_use(lv.take(i), x) {
        let k = choose|k: int| 0 <= k < i && #[trigger] has_tag(lv.take(i)[k], x);
        assert(lv.take(i + 1)[k] == lv[k]);
        assert(has_tag(lv.take(i + 1)[k], x));
    }
    if has_tag(lv[i], x) {
        assert(lv.take(i + 1)[i] == lv[i]);
        assert(has_tag(lv.take(i + 1)[i], x));
    }
}

fn roadmap_tag_lists(v: &Vec<Document<Roadmap>>) -> (r: Vec<Option<Vec<String>>>)
    ensures
        r.deep_view() == roadmap_tags(v@),
{
    let mut out: Vec<Option<Vec<String>>> = Vec::new();
    let mut i: usize = 0;
    while i < v.len()
        invariant
            i <= v.len(),
            out.deep_view() == roadmap_tags(v@).take(i as int),
        decreases v.len() - i,
    {
        let ghost o = out.deep_view();
        let c = copy_opt_strings(&v[i].frontmatter.tags);
        out.push(c);
        assert(out.deep_view() =~= o.push(c.deep_view()));
        assert(roadmap_tags(v@).take(i + 1) =~= roadmap_tags(v@).take(i as int).push(v@[i as int]@.frontmatter.tags));
        i = i + 1;
    }
    assert(roadmap_tags(v@).take(v.len() as int) =~= roadmap_tags(v@));
    out
}

fn task_tag_lists(v: &Vec<(String, Document<Task>)>) -> (r: Vec<Option<Vec<String>>>)
    ensures
        r.deep_view() == task_tags(v@),
{
    let mut out: Vec<Option<Vec<String>>> = Vec::new();
    let mut i: usize = 0;
    while i < v.len()
        invariant
            i <= v.len(),
            out.deep_view() == task_tags(v@).take(i as int),
        decreases v.len() - i,
    {
        let ghost o = out.deep_view();
        let c = copy_opt_strings(&v[i].1.frontmatter.tags);
        out.push(c);
        assert(out.deep_view() =~= o.push(c.deep_view()));
        assert(task_tags(v@).take(i + 1) =~= task_tags(v@).take(i as int).push(v@[i as int].1@.frontmatter.tags));
        i = i + 1;
    }
    assert(task_tags(v@).take(v.len() as int) =~= task_tags(v@));
    out
}

fn holds_tag(tags: &Option<Vec<String>>, t: &str) -> (r: bool)
    ensures
        r == has_tag(tags.deep_view(), t@),
{
    match tags {
        Some(ts) => contains_str(ts, t),
        None => false,
    }
}

/// How many of the tag lists hold `t`.
fn count_carriers(lists: &Vec<Option<Vec<String>>>, t: &str) -> (n: usize)
    ensures
        n == carriers(lists.deep_view(), t@),
{
    let ghost lv = lists.deep_view();
    let mut n: usize = 0;
    let mut i: usize = 0;
    while i < lists.len()
        invariant
            i <= lists.len(),
            lv == lists.deep_view(),
            n == carriers(lv.take(i as int), t@),
            n <= i,
        decreases lists.len() - i,
    {
        assert(lv.take(i + 1).drop_last() =~= lv.take(i as int));
        assert(lv.take(i + 1).last() == lv[i as int]);
        assert(lv[i as int] == lists[i as int].deep_view());
        if holds_tag(&lists[i], t) {
            n = n + 1;
        }
        i = i + 1;
    }
    assert(lv.take(lists.len() as int) =~= lv);
    n
}

/// Appends to `seen` each tag of `lists` that it does not hold yet.
fn add_tags(seen: &mut Vec<String>, lists: &Vec<Option<Vec<String>>>)
    requires
        old(seen).deep_view().no_duplicates(),
    ensures
        final(seen).deep_view().no_duplicates(),
        forall|x: Seq<char>|
            #[trigger] final(seen).deep_view().contains(x) <==> (old(seen).deep_view().contains(x)
                || in_use(lists.deep_view(), x)),
{
    let ghost s0 = seen.deep_view();
    let ghost lv = lists.deep_view();
    let mut i: usize = 0;
    while i < lists.len()
        invariant
            i <= lists.len(),
            lv == lists.deep_view(),
            seen.deep_view().no_duplicates(),
            forall|x: Seq<char>|
                #[trigger] seen.deep_view().contains(x) <==> (s0.contains(x) || in_use(
                    lv.take(i as int),
                    x,
                )),
        decreases lists.len() - i,
    {
        assert(lv[i as int] == lists[i as int].deep_view());
        match &lists[i] {
            Some(ts) => {
                let ghost tv = ts.deep_view();
                let mut j: usize = 0;
                while j < ts.len()
                    invariant
                        j <= ts.len(),
                        tv == ts.deep_view(),
                        lv[i as int] == Some(tv),
                        i < lv.len(),
                        seen.deep_view().no_duplicates(),
                        forall|x: Seq<char>|
                            #[trigger] seen.deep_view().contains(x) <==> (s0.contains(x) || in_use(
                                lv.take(i as int),
                                x,
                            ) || tv.take(j as int).contains(x)),
                    decreases ts.len() - j,
                {
                    let ghost sv = seen.deep_view();
                    assert(tv[j as int] == ts[j as int]@);
                    let present = contains_str(seen, ts[j].as_str());
                    if !present {
                        seen.push(ts[j].clone());
                        assert(seen.deep_view() =~= sv.push(tv[j as int]));
                    }
                    proof {
                        let nv = seen.deep_view();
                        assert forall|x: Seq<char>| sv.contains(x) implies #[trigger] nv.contains(x) by {
                            let k = choose|k: int| 0 <= k < sv.len() && sv[k] == x;
                            assert(nv[k] == x);
                        }
                        assert(nv.contains(tv[j as int])) by {
                            if !present {
                                assert(nv[sv.len() as int] == tv[j as int]);
                            }
                        }
                        assert forall|x: Seq<char>|
                            #[trigger] nv.contains(x) <==> (s0.contains(x) || in_use(
                                lv.take(i as int),
                                x,
                            ) || tv.take(j + 1).contains(x)) by {
                            if nv.contains(x) {
                                if sv.contains(x) {
                                    if tv.take(j as int).contains(x) {
                                        let k = choose|k: int| 0 <= k < j && #[trigger] tv.take(j as int)[k] == x;
                                        assert(tv.take(j + 1)[k] == x);
                                    }
                                } else {
                                    let k = choose|k: int| 0 <= k < nv.len() && nv[k] == x;
                                    if k < sv.len() {
                                        assert(sv[k] == x);
                                    }
                                    assert(x == tv[j as int]);
                                    assert(tv.take(j + 1)[j as int] == x);
                                }
                            }
                            if tv.take(j + 1).contains(x) {
                                let k = choose|k: int| 0 <= k < j + 1 && #[trigger] tv.take(j + 1)[k] == x;
                                if k < j {
                                    assert(tv.take(j as int)[k] == x);
                                    assert(sv.contains(x));
                                } else {
                                    assert(x == tv[j as int]);
                                }
                            }
                        }
                    }
                    j = j + 1;
                }
                proof {
                    assert(tv.take(ts.len() as int) =~= tv);
                    assert forall|x: Seq<char>|
                        #[trigger] seen.deep_view().contains(x) <==> (s0.contains(x) || in_use(
                            lv.take(i + 1),
                            x,
                        )) by {
                        lemma_in_use_step(lv, i as int, x);
                    }
                }
            },
            None => {
                proof {
                    assert forall|x: Seq<char>|
                        #[trigger] seen.deep_view().contains(x) <==> (s0.contains(x) || in_use(
                            lv.take(i + 1),
                            x,
                        )) by {
                        lemma_in_use_step(lv, i as int, x);
                    }
                }
            },
        }
        i = i + 1;
    }
    proof {
        assert(lv.take(lists.len() as int) =~= lv);
    }
}

/// Inserts `x` where it belongs in `out`, most used first and ties by tag,
/// and returns its position.
fn insert_by_count(out: &mut Vec<TagCount>, x: TagCount) -> (p: usize)
    requires
        forall|i: int, j: int|
            0 <= i < j < old(out).len() ==> count_before(#[trigger] old(out)[i]@, #[trigger] old(out)[j]@),
        forall|i: int| 0 <= i < old(out).len() ==> (#[trigger] old(out)[i]).tag@ != x.tag@,
    ensures
        p <= old(out).len(),
        tag_views(final(out)@) == tag_views(old(out)@).insert(p as int, x@),
        forall|i: int, j: int|
            0 <= i < j < final(out).len() ==> count_before(#[trigger] final(out)[i]@, #[trigger] final(out)[j]@),
{
    let ghost o = tag_views(out@);
    let mut p: usize = 0;
    let mut done = false;
    while p < out.len() && !done
        invariant
            p <= out.len(),
            o == tag_views(out@),
            forall|k: int| 0 <= k < p ==> !count_before(x@, #[trigger] o[k]),
            done ==> p < out.len() && count_before(x@, o[p as int]),
        decreases out.len() - p, if done { 0int } else { 1int },
    {
        let before = x.count > out[p].count || (x.count == out[p].count && str_lt(
            x.tag.as_str(),
            out[p].tag.as_str(),
        ));
        assert(o[p as int] == out[p as int]@);
        if before {
            done = true;
        } else {
            p = p + 1;
        }
    }
    out.insert(p, x);
    let ghost n = tag_views(out@);
    assert(n =~= o.insert(p as int, x@));
    proof {
        assert forall|i: int, j: int| 0 <= i < j < n.len() implies count_before(#[trigger] n[i], #[trigger] n[j]) by {
            if j < p {
                assert(n[i] == o[i] && n[j] == o[j]);
                assert(o[i] == old(out)[i]@ && o[j] == old(out)[j]@);
            } else if j == p {
                assert(n[i] == o[i]);
                assert(o[i] == old(out)[i]@);
                assert(!count_before(x@, o[i]));
                lemma_count_before_total(o[i], x@);
            } else if i == p {
                assert(n[j] == o[j - 1]);
                assert(count_before(x@, o[p as int]));
                if j - 1 > p {
                    assert(o[p as int] == old(out)[p as int]@ && o[j - 1] == old(out)[j - 1]@);
                    lemma_count_before_trans(x@, o[p as int], o[j - 1]);
                }
            } else if i < p {
                assert(n[i] == o[i] && n[j] == o[j - 1]);
                assert(o[i] == old(out)[i]@ && o[j - 1] == old(out)[j - 1]@);
            } else {
                assert(n[i] == o[i - 1] && n[j] == o[j - 1]);
                assert(o[i - 1] == old(out)[i - 1]@ && o[j - 1] == old(out)[j - 1]@);
            }
        }
        assert forall|i: int, j: int|
            0 <= i < j < out.len() implies count_before(#[trigger] out[i]@, #[trigger] out[j]@) by {
            assert(n[i] == out[i]@ && n[j] == out[j]@);
        }
    }
    p
}

/// Where the inventory stands after the first `j` distinct tags of `sv`:
/// one right count for each of them, in `o`.
spec fn tally_progress(
    rv: Seq<Option<Seq<Seq<char>>>>,
    kv: Seq<Option<Seq<Seq<char>>>>,
    sv: Seq<Seq<char>>,
    j: int,
    o: Seq<TagCountView>,
) -> bool {
    &&& o.len() == j
    &&& forall|i: int| 0 <= i < o.len() ==> #[trigger] counted(rv, kv, o[i])
    &&& forall|i: int| 0 <= i < o.len() ==> exists|k: int| 0 <= k < j && sv[k] == (#[trigger] o[i]).tag
    &&& forall|k: int|
        #![trigger sv[k]]
        0 <= k < j ==> exists|i: int| 0 <= i < o.len() && (#[trigger] o[i]).tag == sv[k]
}

proof fn lemma_progress_insert(
    rv: Seq<Option<Seq<Seq<char>>>>,
    kv: Seq<Option<Seq<Seq<char>>>>,
    sv: Seq<Seq<char>>,
    j: int,
    o: Seq<TagCountView>,
    p: int,
    c: TagCountView,
)
    requires
        tally_progress(rv, kv, sv, j, o),
        0 <= p <= o.len(),
        0 <= j < sv.len(),
        c.tag == sv[j],
        counted(rv, kv, c),
    ensures
        tally_progress(rv, kv, sv, j + 1, o.insert(p, c)),
{
    let n = o.insert(p, c);
    assert forall|i: int| 0 <= i < n.len() implies #[trigger] counted(rv, kv, n[i]) by {
        if i < p {
            assert(n[i] == o[i]);
        } else if i > p {
            assert(n[i] == o[i - 1]);
        }
    }
    assert forall|i: int| 0 <= i < n.len() implies exists|k: int| 0 <= k < j + 1 && sv[k] == (#[trigger] n[i]).tag by {
        if i < p {
            assert(n[i] == o[i]);
            let k = choose|k: int| 0 <= k < j && sv[k] == (#[trigger] o[i]).tag;
        } else if i > p {
            assert(n[i] == o[i - 1]);
            let k = choose|k: int| 0 <= k < j && sv[k] == (#[trigger] o[i - 1]).tag;
        } else {
            assert(sv[j] == n[i].tag);
        }
    }
    assert forall|k: int|
        #![trigger sv[k]]
        0 <= k < j + 1 implies exists|i: int| 0 <= i < n.len() && (#[trigger] n[i]).tag == sv[k] by {
        if k < j {
            let i = choose|i: int| 0 <= i < o.len() && (#[trigger] o[i]).tag == sv[k];
            if i < p {
                assert(n[i] == o[i]);
            } else {
                assert(n[i + 1] == o[i]);
            }
        } else {
            assert(n[p] == c);
        }
    }
}

/// The inventory of tags over roadmaps' tag lists `rl` and tasks' tag lists
/// `kl`; see [`tallied`].
pub fn tally_tags(rl: &Vec<Option<Vec<String>>>, kl: &Vec<Option<Vec<String>>>) -> (out: Vec<TagCount>)
    ensures
        tallied(rl.deep_view(), kl.deep_view(), tag_views(out@)),
{
    let ghost rv = rl.deep_view();
    let ghost kv = kl.deep_view();
    let mut seen: Vec<String> = Vec::new();
    assert(seen.deep_view() =~= Seq::<Seq<char>>::empty());
    add_tags(&mut seen, rl);
    add_tags(&mut seen, kl);
    let ghost sv = seen.deep_view();
    let mut out: Vec<TagCount> = Vec::new();
    assert(tag_views(out@) =~= Seq::<TagCountView>::empty());
    let mut j: usize = 0;
    while j < seen.len()
        invariant
            j <= seen.len(),
            sv == seen.deep_view(),
            sv.no_duplicates(),
            forall|x: Seq<char>| #[trigger] sv.contains(x) <==> (in_use(rv, x) || in_use(kv, x)),
            rv == rl.deep_view(),
            kv == kl.deep_view(),
            tally_progress(rv, kv, sv, j as int, tag_views(out@)),
            forall|i: int, a: int|
                0 <= i < a < out.len() ==> count_before(#[trigger] out[i]@, #[trigger] out[a]@),
        decreases seen.len() - j,
    {
        let rc = count_carriers(rl, seen[j].as_str());
        let kc = count_carriers(kl, seen[j].as_str());
        let c = TagCount { tag: seen[j].clone(), count: rc.saturating_add(kc), roadmaps: rc, tasks: kc };
        let ghost o = tag_views(out@);
        proof {
            assert(sv[j as int] == seen[j as int]@);
            assert(sv.contains(sv[j as int]));
            assert(counted(rv, kv, c@));
            assert forall|i: int| 0 <= i < out.len() implies (#[trigger] out[i]).tag@ != c.tag@ by {
                assert(o[i] == out[i]@);
                let k = choose|k: int| 0 <= k < j && sv[k] == (#[trigger] o[i]).tag;
            }
        }
        let ghost cv = c@;
        let p = insert_by_count(&mut out, c);
        proof {
            lemma_progress_insert(rv, kv, sv, j as int, o, p as int, cv);
        }
        j = j + 1;
    }
    proof {
        let ov = tag_views(out@);
        assert forall|t: Seq<char>| in_use(rv, t) || in_use(kv, t) implies exists|i: int|
            0 <= i < ov.len() && (#[trigger] ov[i]).tag == t by {
            assert(sv.contains(t));
            let k = choose|k: int| 0 <= k < sv.len() && sv[k] == t;
            assert(sv[k] == t);
        }
        assert forall|i: int, a: int| 0 <= i < a < ov.len() implies count_before(#[trigger] ov[i], #[trigger] ov[a]) by {
            assert(ov[i] == out[i]@ && ov[a] == out[a]@);
        }
        assert forall|i: int, a: int| 0 <= i < a < ov.len() implies (#[trigger] ov[i]).tag != (#[trigger] ov[a]).tag by {
            assert(ov[i] == out[i]@ && ov[a] == out[a]@);
            assert(counted(rv, kv, ov[i]) && counted(rv, kv, ov[a]));
            assert(count_before(ov[i], ov[a]));
            if ov[i].tag == ov[a].tag {
                lemma_seq_lt_irrefl(ov[i].tag);
            }
        }
    }
    out
}

/// What [`tag_list`] gives on files `m`: the inventory of the project's
/// roadmaps and tasks as their listings give them, or the listing's error.
pub open spec fn tag_list_post(m: Files, project: &str, r: Result<Vec<TagCount>>) -> bool {
    match r {
        Ok(v) => exists|ts: Vec<(String, Document<Task>)>, rs: Vec<Document<Roadmap>>|
            #[trigger] lists_tasks(m, project@, Ok(ts)) && #[trigger] list_roadmaps_post(
                m,
                project,
                None,
                None,
                Ok(rs),
            ) && tallied(roadmap_tags(rs@), task_tags(ts@), tag_views(v@)),
        Err(e) => lists_tasks(m, project@, Err(e)) || exists|ts: Vec<(String, Document<Task>)>|
            #[trigger] lists_tasks(m, project@, Ok(ts)) && list_roadmaps_post(
                m,
                project,
                None,
                None,
                Err(e),
            ),
    }
}

/// Every tag in use across `project`'s roadmaps and tasks, with counts, most
/// used first and ties by tag. A tag repeated in one document counts once.
pub fn tag_list(store: &MemoryStore, project: &str) -> (r: Result<Vec<TagCount>>)
    ensures
        tag_list_post(store.files(), project, r),
{
    let tasks = match list_tasks(store, project) {
        Ok(t) => t,
        Err(e) => return Err(e),
    };
    let roadmaps = match list_roadmaps(store, project, None, None) {
        Ok(v) => v,
        Err(e) => {
            assert(lists_tasks(store.files(), project@, Ok(tasks)));
            return Err(e);
        },
    };
    let rl = roadmap_tag_lists(&roadmaps);
    let kl = task_tag_lists(&tasks);
    let out = tally_tags(&rl, &kl);
    assert(lists_tasks(store.files(), project@, Ok(tasks)));
    assert(list_roadmaps_post(store.files(), project, None, None, Ok(roadmaps)));
    Ok(out)
}

} // verus!
