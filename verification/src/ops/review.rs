//! The review queues: items awaiting review, and phases parked as blocked.
use vstd::prelude::*;

use crate::error::Result;
use crate::model::{
    copy_opt_string, DocView, Document, Phase, PhaseStatus, PhaseView, Roadmap, Task,
    TaskStatus, TaskView,
};
use crate::ops::phase::{list_phases, lists_phases, phase_views};
use crate::ops::roadmap::{list_roadmaps, list_roadmaps_post};
use crate::ops::task::{list_tasks, lists_tasks, task_views};
use crate::store::{Files, MemoryStore};
use crate::text::{cat3, owned};

verus! {

/// The kind of item awaiting review.
#[derive(Debug, Clone, Copy, PartialEq, Eq, Structural)]
pub enum PendingReviewKind {
    Phase,
    Task,
}

/// One item in the `needs-review` state.
#[derive(Debug, Clone, PartialEq, Eq)]
pub struct PendingReviewItem {
    /// Whether the item is a phase or a task.
    pub kind: PendingReviewKind,
    /// `roadmap/stem` for a phase, the slug for a task.
    pub identifier: String,
    /// The project.
    pub project: String,
    /// The item's title.
    pub title: String,
    /// The source HEAD stamped when the item entered review, if any.
    pub review_sha: Option<String>,
    /// The branch stamped when the item entered review, if any.
    pub review_branch: Option<String>,
}

/// Spec view of a [`PendingReviewItem`].
pub struct PendingView {
    pub kind: PendingReviewKind,
    pub identifier: Seq<char>,
    pub project: Seq<char>,
    pub title: Seq<char>,
    pub review_sha: Option<Seq<char>>,
    pub review_branch: Option<Seq<char>>,
}

impl View for PendingReviewItem {
    type V = PendingView;

    open spec fn view(&self) -> PendingView {
        PendingView {
            kind: self.kind,
            identifier: self.identifier@,
            project: self.project@,
            title: self.title@,
            review_sha: self.review_sha.deep_view(),
            review_branch: self.review_branch.deep_view(),
        }
    }
}

/// One phase parked as `blocked`.
#[derive(Debug, Clone, PartialEq, Eq)]
pub struct BlockedPhaseItem {
    /// `roadmap/stem`.
    pub identifier: String,
    /// The project.
    pub project: String,
    /// The phase's title.
    pub title: String,
    /// The recorded reason, if any.
    pub reason: Option<String>,
}

/// Spec view of a [`BlockedPhaseItem`].
pub struct BlockedView {
    pub identifier: Seq<char>,
    pub project: Seq<char>,
    pub title: Seq<char>,
    pub reason: Option<Seq<char>>,
}

impl View for BlockedPhaseItem {
    type V = BlockedView;

    open spec fn view(&self) -> BlockedView {
        BlockedView {
            identifier: self.identifier@,
            project: self.project@,
            title: self.title@,
            reason: self.reason.deep_view(),
        }
    }
}

/// The views of pending items.
pub open spec fn pending_views(v: Seq<PendingReviewItem>) -> Seq<PendingView> {
    v.map_values(|x: PendingReviewItem| x@)
}

/// The views of blocked items.
pub open spec fn blocked_views(v: Seq<BlockedPhaseItem>) -> Seq<BlockedView> {
    v.map_values(|x: BlockedPhaseItem| x@)
}

/// A phase's reference, `roadmap/stem`.
pub open spec fn phase_ref(roadmap: Seq<char>, stem: Seq<char>) -> Seq<char> {
    roadmap + "/"@ + stem
}

/// The pending item of a phase in review.
pub open spec fn pending_phase(
    project: Seq<char>,
    roadmap: Seq<char>,
    x: (Seq<char>, DocView<PhaseView>),
) -> PendingView {
    PendingView {
        kind: PendingReviewKind::Phase,
        identifier: phase_ref(roadmap, x.0),
        project,
        title: x.1.frontmatter.title,
        review_sha: x.1.frontmatter.review_sha,
        review_branch: x.1.frontmatter.review_branch,
    }
}

/// The pending item of a task in review.
pub open spec fn pending_task(project: Seq<char>, x: (Seq<char>, DocView<TaskView>)) -> PendingView {
    PendingView {
        kind: PendingReviewKind::Task,
        identifier: x.0,
        project,
        title: x.1.frontmatter.title,
        review_sha: x.1.frontmatter.review_sha,
        review_branch: x.1.frontmatter.review_branch,
    }
}

/// The blocked item of a phase.
pub open spec fn blocked_phase(
    project: Seq<char>,
    roadmap: Seq<char>,
    x: (Seq<char>, DocView<PhaseView>),
) -> BlockedView {
    BlockedView {
        identifier: phase_ref(roadmap, x.0),
        project,
        title: x.1.frontmatter.title,
        reason: x.1.frontmatter.blocked_reason,
    }
}

/// The pending items of one roadmap's phases, in order.
pub open spec fn pending_in_phases(
    project: Seq<char>,
    roadmap: Seq<char>,
    ps: Seq<(Seq<char>, DocView<PhaseView>)>,
) -> Seq<PendingView>
    decreases ps.len(),
{
    if ps.len() == 0 {
        Seq::empty()
    } else {
        let rest = pending_in_phases(project, roadmap, ps.drop_last());
        if ps.last().1.frontmatter.status == PhaseStatus::NeedsReview {
            rest.push(pending_phase(project, roadmap, ps.last()))
        } else {
            rest
        }
    }
}

/// The blocked items of one roadmap's phases, in order.
pub open spec fn blocked_in_phases(
    project: Seq<char>,
    roadmap: Seq<char>,
    ps: Seq<(Seq<char>, DocView<PhaseView>)>,
) -> Seq<BlockedView>
    decreases ps.len(),
{
    if ps.len() == 0 {
        Seq::empty()
    } else {
        let rest = blocked_in_phases(project, roadmap, ps.drop_last());
        if ps.last().1.frontmatter.status == PhaseStatus::Blocked {
            rest.push(blocked_phase(project, roadmap, ps.last()))
        } else {
            rest
        }
    }
}

/// The pending items of the roadmaps named `names`, whose phases are
/// `groups`, roadmap after roadmap.
pub open spec fn pending_in_roadmaps(
    project: Seq<char>,
    names: Seq<Seq<char>>,
    groups: Seq<Seq<(Seq<char>, DocView<PhaseView>)>>,
) -> Seq<PendingView>
    decreases names.len(),
{
    if names.len() == 0 || groups.len() == 0 {
        Seq::empty()
    } else {
        pending_in_roadmaps(project, names.drop_last(), groups.drop_last()) + pending_in_phases(
            project,
            names.last(),
            groups.last(),
        )
    }
}

/// The blocked items of the roadmaps named `names`, whose phases are
/// `groups`, roadmap after roadmap.
pub open spec fn blocked_in_roadmaps(
    project: Seq<char>,
    names: Seq<Seq<char>>,
    groups: Seq<Seq<(Seq<char>, DocView<PhaseView>)>>,
) -> Seq<BlockedView>
    decreases names.len(),
{
    if names.len() == 0 || groups.len() == 0 {
        Seq::empty()
    } else {
        blocked_in_roadmaps(project, names.drop_last(), groups.drop_last()) + blocked_in_phases(
            project,
            names.last(),
            groups.last(),
        )
    }
}

/// The pending items of a project's tasks, in order.
pub open spec fn pending_in_tasks(project: Seq<char>, ts: Seq<(Seq<char>, DocView<TaskView>)>) -> Seq<
    PendingView,
>
    decreases ts.len(),
{
    if ts.len() == 0 {
        Seq::empty()
    } else {
        let rest = pending_in_tasks(project, ts.drop_last());
        if ts.last().1.frontmatter.status == TaskStatus::NeedsReview {
            rest.push(pending_task(project, ts.last()))
        } else {
            rest
        }
    }
}

/// The roadmap names that phases are listed under: each roadmap's own
/// `roadmap` field.
pub open spec fn roadmap_names(rs: Seq<Document<Roadmap>>) -> Seq<Seq<char>> {
    rs.map_values(|d: Document<Roadmap>| d@.frontmatter.roadmap)
}

/// The views of phase listings.
pub open spec fn group_views(gs: Seq<Vec<(String, Document<Phase>)>>) -> Seq<
    Seq<(Seq<char>, DocView<PhaseView>)>,
> {
    gs.map_values(|g: Vec<(String, Document<Phase>)>| phase_views(g@))
}

/// Whether `gs` are the phase listings of the roadmaps `rs`.
pub open spec fn phase_listings(
    m: Files,
    project: Seq<char>,
    rs: Seq<Document<Roadmap>>,
    gs: Seq<Vec<(String, Document<Phase>)>>,
) -> bool {
    &&& gs.len() == rs.len()
    &&& forall|i: int|
        0 <= i < rs.len() ==> #[trigger] lists_phases(m, project, rs[i]@.frontmatter.roadmap, Ok(gs[i]))
}

/// The phase listings of roadmaps `rs`, or the first listing's error.
fn list_phase_groups(store: &MemoryStore, project: &str, rs: &Vec<Document<Roadmap>>) -> (r: Result<
    Vec<Vec<(String, Document<Phase>)>>,
>)
    ensures
        r matches Ok(gs) ==> phase_listings(store.files(), project@, rs@, gs@),
        r matches Err(e) ==> exists|i: int|
            0 <= i < rs.len() && #[trigger] lists_phases(
                store.files(),
                project@,
                rs@[i]@.frontmatter.roadmap,
                Err(e),
            ),
{
    let mut gs: Vec<Vec<(String, Document<Phase>)>> = Vec::new();
    let mut i: usize = 0;
    while i < rs.len()
        invariant
            i <= rs.len(),
            gs.len() == i,
            forall|k: int|
                0 <= k < i ==> #[trigger] lists_phases(
                    store.files(),
                    project@,
                    rs@[k]@.frontmatter.roadmap,
                    Ok(gs@[k]),
                ),
        decreases rs.len() - i,
    {
        match list_phases(store, project, rs[i].frontmatter.roadmap.as_str()) {
            Ok(ps) => {
                gs.push(ps);
            },
            Err(e) => {
                assert(lists_phases(store.files(), project@, rs@[i as int]@.frontmatter.roadmap, Err(e)));
                return Err(e);
            },
        }
        i = i + 1;
    }
    Ok(gs)
}

fn pending_item_of_phase(project: &str, roadmap: &str, stem: &String, d: &Document<Phase>) -> (r:
    PendingReviewItem)
    ensures
        r@ == pending_phase(project@, roadmap@, (stem@, d@)),
{
    PendingReviewItem {
        kind: PendingReviewKind::Phase,
        identifier: cat3(roadmap, "/", stem.as_str()),
        project: owned(project),
        title: d.frontmatter.title.clone(),
        review_sha: copy_opt_string(&d.frontmatter.review_sha),
        review_branch: copy_opt_string(&d.frontmatter.review_branch),
    }
}

/// The pending items of roadmaps `rs` with phase listings `gs`, then of
/// tasks `ts`, in that order.
fn collect_pending(
    project: &str,
    rs: &Vec<Document<Roadmap>>,
    gs: &Vec<Vec<(String, Document<Phase>)>>,
    ts: &Vec<(String, Document<Task>)>,
) -> (r: Vec<PendingReviewItem>)
    requires
        gs.len() == rs.len(),
    ensures
        pending_views(r@) == pending_in_roadmaps(project@, roadmap_names(rs@), group_views(gs@))
            + pending_in_tasks(project@, task_views(ts@)),
{
    let ghost names = roadmap_names(rs@);
    let ghost groups = group_views(gs@);
    let mut items: Vec<PendingReviewItem> = Vec::new();
    let mut i: usize = 0;
    while i < rs.len()
        invariant
            i <= rs.len(),
            gs.len() == rs.len(),
            names == roadmap_names(rs@),
            groups == group_views(gs@),
            pending_views(items@) == pending_in_roadmaps(
                project@,
                names.take(i as int),
                groups.take(i as int),
            ),
        decreases rs.len() - i,
    {
        let roadmap = rs[i].frontmatter.roadmap.as_str();
        let ps = &gs[i];
        let ghost pv = phase_views(ps@);
        let ghost base = pending_views(items@);
        assert(groups[i as int] == pv);
        assert(names[i as int] == roadmap@);
        let mut j: usize = 0;
        while j < ps.len()
            invariant
                j <= ps.len(),
                pv == phase_views(ps@),
                pending_views(items@) == base + pending_in_phases(project@, roadmap@, pv.take(j as int)),
            decreases ps.len() - j,
        {
            assert(pv.take(j + 1).drop_last() =~= pv.take(j as int));
            assert(pv.take(j + 1).last() == pv[j as int]);
            assert(pv[j as int] == (ps[j as int].0@, ps[j as int].1@));
            if ps[j].1.frontmatter.status == PhaseStatus::NeedsReview {
                let ghost before = pending_views(items@);
                let it = pending_item_of_phase(project, roadmap, &ps[j].0, &ps[j].1);
                items.push(it);
                assert(pending_views(items@) =~= before.push(it@));
            }
            j = j + 1;
        }
        proof {
            assert(pv.take(ps.len() as int) =~= pv);
            let n1 = names.take(i + 1);
            let g1 = groups.take(i + 1);
            assert(n1.drop_last() =~= names.take(i as int));
            assert(g1.drop_last() =~= groups.take(i as int));
            assert(n1.last() == roadmap@);
            assert(g1.last() == pv);
        }
        i = i + 1;
    }
    proof {
        assert(names.take(rs.len() as int) =~= names);
        assert(groups.take(rs.len() as int) =~= groups);
    }
    let ghost phase_part = pending_views(items@);
    let ghost tv = task_views(ts@);
    let mut k: usize = 0;
    while k < ts.len()
        invariant
            k <= ts.len(),
            tv == task_views(ts@),
            pending_views(items@) == phase_part + pending_in_tasks(project@, tv.take(k as int)),
        decreases ts.len() - k,
    {
        assert(tv.take(k + 1).drop_last() =~= tv.take(k as int));
        assert(tv.take(k + 1).last() == tv[k as int]);
        assert(tv[k as int] == (ts[k as int].0@, ts[k as int].1@));
        if ts[k].1.frontmatter.status == TaskStatus::NeedsReview {
            let ghost before = pending_views(items@);
            let it = PendingReviewItem {
                kind: PendingReviewKind::Task,
                identifier: ts[k].0.clone(),
                project: owned(project),
                title: ts[k].1.frontmatter.title.clone(),
                review_sha: copy_opt_string(&ts[k].1.frontmatter.review_sha),
                review_branch: copy_opt_string(&ts[k].1.frontmatter.review_branch),
            };
            items.push(it);
            assert(pending_views(items@) =~= before.push(it@));
        }
        k = k + 1;
    }
    assert(tv.take(ts.len() as int) =~= tv);
    items
}

/// The blocked items of roadmaps `rs` with phase listings `gs`, in order.
fn collect_blocked(project: &str, rs: &Vec<Document<Roadmap>>, gs: &Vec<Vec<(String, Document<Phase>)>>) -> (r:
    Vec<BlockedPhaseItem>)
    requires
        gs.len() == rs.len(),
    ensures
        blocked_views(r@) == blocked_in_roadmaps(project@, roadmap_names(rs@), group_views(gs@)),
{
    let ghost names = roadmap_names(rs@);
    let ghost groups = group_views(gs@);
    let mut items: Vec<BlockedPhaseItem> = Vec::new();
    let mut i: usize = 0;
    while i < rs.len()
        invariant
            i <= rs.len(),
            gs.len() == rs.len(),
            names == roadmap_names(rs@),
            groups == group_views(gs@),
            blocked_views(items@) == blocked_in_roadmaps(
                project@,
                names.take(i as int),
                groups.take(i as int),
            ),
        decreases rs.len() - i,
    {
        let roadmap = rs[i].frontmatter.roadmap.as_str();
        let ps = &gs[i];
        let ghost pv = phase_views(ps@);
        let ghost base = blocked_views(items@);
        assert(groups[i as int] == pv);
        assert(names[i as int] == roadmap@);
        let mut j: usize = 0;
        while j < ps.len()
            invariant
                j <= ps.len(),
                pv == phase_views(ps@),
                blocked_views(items@) == base + blocked_in_phases(project@, roadmap@, pv.take(j as int)),
            decreases ps.len() - j,
        {
            assert(pv.take(j + 1).drop_last() =~= pv.take(j as int));
            assert(pv.take(j + 1).last() == pv[j as int]);
            assert(pv[j as int] == (ps[j as int].0@, ps[j as int].1@));
            if ps[j].1.frontmatter.status == PhaseStatus::Blocked {
                let ghost before = blocked_views(items@);
                let it = BlockedPhaseItem {
                    identifier: cat3(roadmap, "/", ps[j].0.as_str()),
                    project: owned(project),
                    title: ps[j].1.frontmatter.title.clone(),
                    reason: copy_opt_string(&ps[j].1.frontmatter.blocked_reason),
                };
                items.push(it);
                assert(blocked_views(items@) =~= before.push(it@));
            }
            j = j + 1;
        }
        proof {
            assert(pv.take(ps.len() as int) =~= pv);
            let n1 = names.take(i + 1);
            let g1 = groups.take(i + 1);
            assert(n1.drop_last() =~= names.take(i as int));
            assert(g1.drop_last() =~= groups.take(i as int));
            assert(n1.last() == roadmap@);
            assert(g1.last() == pv);
        }
        i = i + 1;
    }
    proof {
        assert(names.take(rs.len() as int) =~= names);
        assert(groups.take(rs.len() as int) =~= groups);
    }
    items
}

/// What [`pending_review_items`] gives on files `m`.
pub open spec fn pending_review_items_post(m: Files, project: &str, r: Result<Vec<PendingReviewItem>>) -> bool {
    match r {
        Ok(v) => exists|
            rs: Vec<Document<Roadmap>>,
            gs: Seq<Vec<(String, Document<Phase>)>>,
            ts: Vec<(String, Document<Task>)>,
        |
            #[trigger] list_roadmaps_post(m, project, None, None, Ok(rs)) && #[trigger] phase_listings(
                m,
                project@,
                rs@,
                gs,
            ) && #[trigger] lists_tasks(m, project@, Ok(ts)) && pending_views(v@)
                == pending_in_roadmaps(project@, roadmap_names(rs@), group_views(gs))
                + pending_in_tasks(project@, task_views(ts@)),
        Err(e) => list_roadmaps_post(m, project, None, None, Err(e)) || (exists|
            rs: Vec<Document<Roadmap>>,
            i: int,
        |
            #[trigger] list_roadmaps_post(m, project, None, None, Ok(rs)) && 0 <= i < rs.len()
                && #[trigger] lists_phases(m, project@, rs@[i]@.frontmatter.roadmap, Err(e)))
            || lists_tasks(m, project@, Err(e)),
    }
}

/// Every phase and task of `project` whose status is `needs-review`: the
/// phases roadmap by roadmap (identified `roadmap/stem`), then the tasks
/// (identified by slug).
pub fn pending_review_items(store: &MemoryStore, project: &str) -> (r: Result<Vec<PendingReviewItem>>)
    ensures
        pending_review_items_post(store.files(), project, r),
{
    let rs = match list_roadmaps(store, project, None, None) {
        Ok(v) => v,
        Err(e) => return Err(e),
    };
    let gs = match list_phase_groups(store, project, &rs) {
        Ok(g) => g,
        Err(e) => {
            assert(list_roadmaps_post(store.files(), project, None, None, Ok(rs)));
            return Err(e);
        },
    };
    let ts = match list_tasks(store, project) {
        Ok(t) => t,
        Err(e) => return Err(e),
    };
    let items = collect_pending(project, &rs, &gs, &ts);
    assert(list_roadmaps_post(store.files(), project, None, None, Ok(rs)));
    assert(phase_listings(store.files(), project@, rs@, gs@));
    assert(lists_tasks(store.files(), project@, Ok(ts)));
    Ok(items)
}

/// What [`blocked_phases`] gives on files `m`.
pub open spec fn blocked_phases_post(m: Files, project: &str, r: Result<Vec<BlockedPhaseItem>>) -> bool {
    match r {
        Ok(v) => exists|rs: Vec<Document<Roadmap>>, gs: Seq<Vec<(String, Document<Phase>)>>|
            #[trigger] list_roadmaps_post(m, project, None, None, Ok(rs)) && #[trigger] phase_listings(
                m,
                project@,
                rs@,
                gs,
            ) && blocked_views(v@) == blocked_in_roadmaps(project@, roadmap_names(rs@), group_views(gs)),
        Err(e) => list_roadmaps_post(m, project, None, None, Err(e)) || exists|
            rs: Vec<Document<Roadmap>>,
            i: int,
        |
            #[trigger] list_roadmaps_post(m, project, None, None, Ok(rs)) && 0 <= i < rs.len()
                && #[trigger] lists_phases(m, project@, rs@[i]@.frontmatter.roadmap, Err(e)),
    }
}

/// Every phase of `project` whose status is `blocked`, roadmap by roadmap,
/// with its recorded reason.
pub fn blocked_phases(store: &MemoryStore, project: &str) -> (r: Result<Vec<BlockedPhaseItem>>)
    ensures
        blocked_phases_post(store.files(), project, r),
{
    let rs = match list_roadmaps(store, project, None, None) {
        Ok(v) => v,
        Err(e) => return Err(e),
    };
    let gs = match list_phase_groups(store, project, &rs) {
        Ok(g) => g,
        Err(e) => {
            assert(list_roadmaps_post(store.files(), project, None, None, Ok(rs)));
            return Err(e);
        },
    };
    let items = collect_blocked(project, &rs, &gs);
    assert(list_roadmaps_post(store.files(), project, None, None, Ok(rs)));
    assert(phase_listings(store.files(), project@, rs@, gs@));
    Ok(items)
}

/// The pending items of tasks are exactly those of the tasks in review.
proof fn lemma_pending_tasks_members(project: Seq<char>, ts: Seq<(Seq<char>, DocView<TaskView>)>)
    ensures
        forall|i: int| 0 <= i < ts.len() && (#[trigger] ts[i]).1.frontmatter.status == TaskStatus::NeedsReview
            ==> pending_in_tasks(project, ts).contains(pending_task(project, ts[i])),
        forall|j: int| 0 <= j < pending_in_tasks(project, ts).len() ==> exists|i: int|
            0 <= i < ts.len() && (#[trigger] ts[i]).1.frontmatter.status == TaskStatus::NeedsReview
                && #[trigger] pending_in_tasks(project, ts)[j] == pending_task(project, ts[i]),
    decreases ts.len(),
{
    if ts.len() > 0 {
        let p = ts.drop_last();
        lemma_pending_tasks_members(project, p);
        let rest = pending_in_tasks(project, p);
        let out = pending_in_tasks(project, ts);
        assert forall|i: int| 0 <= i < ts.len() && (#[trigger] ts[i]).1.frontmatter.status == TaskStatus::NeedsReview
            implies out.contains(pending_task(project, ts[i])) by {
            if i < ts.len() - 1 {
                assert(p[i] == ts[i]);
                let j = choose|j: int| 0 <= j < rest.len() && rest[j] == pending_task(project, p[i]);
                assert(out[j] == rest[j]);
            } else {
                assert(out[out.len() - 1] == pending_task(project, ts[i]));
            }
        }
        assert forall|j: int| 0 <= j < out.len() implies exists|i: int|
            0 <= i < ts.len() && (#[trigger] ts[i]).1.frontmatter.status == TaskStatus::NeedsReview
                && #[trigger] out[j] == pending_task(project, ts[i]) by {
            if j < rest.len() {
                assert(out[j] == rest[j]);
                let i = choose|i: int| 0 <= i < p.len() && (#[trigger] p[i]).1.frontmatter.status == TaskStatus::NeedsReview
                    && #[trigger] rest[j] == pending_task(project, p[i]);
                assert(p[i] == ts[i]);
            } else {
                assert(ts[ts.len() - 1] == ts.last());
            }
        }
    }
}

/// The pending items of one roadmap's phases are exactly those of its phases
/// in review.
proof fn lemma_pending_phases_members(project: Seq<char>, name: Seq<char>, ps: Seq<(Seq<char>, DocView<PhaseView>)>)
    ensures
        forall|i: int| 0 <= i < ps.len() && (#[trigger] ps[i]).1.frontmatter.status == PhaseStatus::NeedsReview
            ==> pending_in_phases(project, name, ps).contains(pending_phase(project, name, ps[i])),
        forall|j: int| 0 <= j < pending_in_phases(project, name, ps).len() ==> exists|i: int|
            0 <= i < ps.len() && (#[trigger] ps[i]).1.frontmatter.status == PhaseStatus::NeedsReview
                && #[trigger] pending_in_phases(project, name, ps)[j] == pending_phase(project, name, ps[i]),
    decreases ps.len(),
{
    if ps.len() > 0 {
        let p = ps.drop_last();
        lemma_pending_phases_members(project, name, p);
        let rest = pending_in_phases(project, name, p);
        let out = pending_in_phases(project, name, ps);
        assert forall|i: int| 0 <= i < ps.len() && (#[trigger] ps[i]).1.frontmatter.status == PhaseStatus::NeedsReview
            implies out.contains(pending_phase(project, name, ps[i])) by {
            if i < ps.len() - 1 {
                assert(p[i] == ps[i]);
                let j = choose|j: int| 0 <= j < rest.len() && rest[j] == pending_phase(project, name, p[i]);
                assert(out[j] == rest[j]);
            } else {
                assert(out[out.len() - 1] == pending_phase(project, name, ps[i]));
            }
        }
        assert forall|j: int| 0 <= j < out.len() implies exists|i: int|
            0 <= i < ps.len() && (#[trigger] ps[i]).1.frontmatter.status == PhaseStatus::NeedsReview
                && #[trigger] out[j] == pending_phase(project, name, ps[i]) by {
            if j < rest.len() {
                assert(out[j] == rest[j]);
                let i = choose|i: int| 0 <= i < p.len() && (#[trigger] p[i]).1.frontmatter.status == PhaseStatus::NeedsReview
                    && #[trigger] rest[j] == pending_phase(project, name, p[i]);
                assert(p[i] == ps[i]);
            } else {
                assert(ps[ps.len() - 1] == ps.last());
            }
        }
    }
}

/// The blocked items of one roadmap's phases are exactly those of its
/// blocked phases.
proof fn lemma_blocked_phases_members(project: Seq<char>, name: Seq<char>, ps: Seq<(Seq<char>, DocView<PhaseView>)>)
    ensures
        forall|i: int| 0 <= i < ps.len() && (#[trigger] ps[i]).1.frontmatter.status == PhaseStatus::Blocked
            ==> blocked_in_phases(project, name, ps).contains(blocked_phase(project, name, ps[i])),
        forall|j: int| 0 <= j < blocked_in_phases(project, name, ps).len() ==> exists|i: int|
            0 <= i < ps.len() && (#[trigger] ps[i]).1.frontmatter.status == PhaseStatus::Blocked
                && #[trigger] blocked_in_phases(project, name, ps)[j] == blocked_phase(project, name, ps[i]),
    decreases ps.len(),
{
    if ps.len() > 0 {
        let p = ps.drop_last();
        lemma_blocked_phases_members(project, name, p);
        let rest = blocked_in_phases(project, name, p);
        let out = blocked_in_phases(project, name, ps);
        assert forall|i: int| 0 <= i < ps.len() && (#[trigger] ps[i]).1.frontmatter.status == PhaseStatus::Blocked
            implies out.contains(blocked_phase(project, name, ps[i])) by {
            if i < ps.len() - 1 {
                assert(p[i] == ps[i]);
                let j = choose|j: int| 0 <= j < rest.len() && rest[j] == blocked_phase(project, name, p[i]);
                assert(out[j] == rest[j]);
            } else {
                assert(out[out.len() - 1] == blocked_phase(project, name, ps[i]));
            }
        }
        assert forall|j: int| 0 <= j < out.len() implies exists|i: int|
            0 <= i < ps.len() && (#[trigger] ps[i]).1.frontmatter.status == PhaseStatus::Blocked
                && #[trigger] out[j] == blocked_phase(project, name, ps[i]) by {
            if j < rest.len() {
                assert(out[j] == rest[j]);
                let i = choose|i: int| 0 <= i < p.len() && (#[trigger] p[i]).1.frontmatter.status == PhaseStatus::Blocked
                    && #[trigger] rest[j] == blocked_phase(project, name, p[i]);
                assert(p[i] == ps[i]);
            } else {
                assert(ps[ps.len() - 1] == ps.last());
            }
        }
    }
}

/// The pending items of the roadmaps are exactly those of their phases in review.
proof fn lemma_pending_roadmaps_members(
    project: Seq<char>,
    names: Seq<Seq<char>>,
    groups: Seq<Seq<(Seq<char>, DocView<PhaseView>)>>,
)
    requires
        names.len() == groups.len(),
    ensures
        forall|k: int, i: int|
            0 <= k < names.len() && 0 <= i < groups[k].len() && (#[trigger] groups[k][i]).1.frontmatter.status == PhaseStatus::NeedsReview
            ==> pending_in_roadmaps(project, names, groups).contains(pending_phase(project, names[k], groups[k][i])),
        forall|j: int| 0 <= j < pending_in_roadmaps(project, names, groups).len() ==> exists|k: int, i: int|
            0 <= k < names.len() && 0 <= i < groups[k].len() && (#[trigger] groups[k][i]).1.frontmatter.status == PhaseStatus::NeedsReview
                && #[trigger] pending_in_roadmaps(project, names, groups)[j] == pending_phase(project, names[k], groups[k][i]),
    decreases names.len(),
{
    if names.len() > 0 {
        let pn = names.drop_last();
        let pg = groups.drop_last();
        lemma_pending_roadmaps_members(project, pn, pg);
        let last = names.len() - 1;
        lemma_pending_phases_members(project, names[last], groups[last]);
        let rest = pending_in_roadmaps(project, pn, pg);
        let tail = pending_in_phases(project, names[last], groups[last]);
        let out = pending_in_roadmaps(project, names, groups);
        assert(out == rest + tail);
        assert forall|k: int, i: int|
            0 <= k < names.len() && 0 <= i < groups[k].len() && (#[trigger] groups[k][i]).1.frontmatter.status == PhaseStatus::NeedsReview
            implies out.contains(pending_phase(project, names[k], groups[k][i])) by {
            if k < last {
                assert(pn[k] == names[k] && pg[k] == groups[k]);
                assert(pg[k][i] == groups[k][i]);
                let j = choose|j: int| 0 <= j < rest.len() && rest[j] == pending_phase(project, pn[k], pg[k][i]);
                assert(out[j] == rest[j]);
            } else {
                let j = choose|j: int| 0 <= j < tail.len() && tail[j] == pending_phase(project, names[last], groups[last][i]);
                assert(out[rest.len() + j] == tail[j]);
            }
        }
        assert forall|j: int| 0 <= j < out.len() implies exists|k: int, i: int|
            0 <= k < names.len() && 0 <= i < groups[k].len() && (#[trigger] groups[k][i]).1.frontmatter.status == PhaseStatus::NeedsReview
                && #[trigger] out[j] == pending_phase(project, names[k], groups[k][i]) by {
            if j < rest.len() {
                assert(out[j] == rest[j]);
                let (k, i) = choose|k: int, i: int|
                    0 <= k < pn.len() && 0 <= i < pg[k].len() && (#[trigger] pg[k][i]).1.frontmatter.status == PhaseStatus::NeedsReview
                        && #[trigger] rest[j] == pending_phase(project, pn[k], pg[k][i]);
                assert(pn[k] == names[k] && pg[k] == groups[k]);
                assert(groups[k][i] == pg[k][i]);
            } else {
                assert(out[j] == tail[j - rest.len()]);
                let i = choose|i: int| 0 <= i < groups[last].len() && (#[trigger] groups[last][i]).1.frontmatter.status == PhaseStatus::NeedsReview
                    && #[trigger] tail[j - rest.len()] == pending_phase(project, names[last], groups[last][i]);
                assert(groups[last][i] == groups[last][i]);
            }
        }
    }
}

/// The blocked items of the roadmaps are exactly those of their phases that are blocked.
proof fn lemma_blocked_roadmaps_members(
    project: Seq<char>,
    names: Seq<Seq<char>>,
    groups: Seq<Seq<(Seq<char>, DocView<PhaseView>)>>,
)
    requires
        names.len() == groups.len(),
    ensures
        forall|k: int, i: int|
            0 <= k < names.len() && 0 <= i < groups[k].len() && (#[trigger] groups[k][i]).1.frontmatter.status == PhaseStatus::Blocked
            ==> blocked_in_roadmaps(project, names, groups).contains(blocked_phase(project, names[k], groups[k][i])),
        forall|j: int| 0 <= j < blocked_in_roadmaps(project, names, groups).len() ==> exists|k: int, i: int|
            0 <= k < names.len() && 0 <= i < groups[k].len() && (#[trigger] groups[k][i]).1.frontmatter.status == PhaseStatus::Blocked
                && #[trigger] blocked_in_roadmaps(project, names, groups)[j] == blocked_phase(project, names[k], groups[k][i]),
    decreases names.len(),
{
    if names.len() > 0 {
        let pn = names.drop_last();
        let pg = groups.drop_last();
        lemma_blocked_roadmaps_members(project, pn, pg);
        let last = names.len() - 1;
        lemma_blocked_phases_members(project, names[last], groups[last]);
        let rest = blocked_in_roadmaps(project, pn, pg);
        let tail = blocked_in_phases(project, names[last], groups[last]);
        let out = blocked_in_roadmaps(project, names, groups);
        assert(out == rest + tail);
        assert forall|k: int, i: int|
            0 <= k < names.len() && 0 <= i < groups[k].len() && (#[trigger] groups[k][i]).1.frontmatter.status == PhaseStatus::Blocked
            implies out.contains(blocked_phase(project, names[k], groups[k][i])) by {
            if k < last {
                assert(pn[k] == names[k] && pg[k] == groups[k]);
                assert(pg[k][i] == groups[k][i]);
                let j = choose|j: int| 0 <= j < rest.len() && rest[j] == blocked_phase(project, pn[k], pg[k][i]);
                assert(out[j] == rest[j]);
            } else {
                let j = choose|j: int| 0 <= j < tail.len() && tail[j] == blocked_phase(project, names[last], groups[last][i]);
                assert(out[rest.len() + j] == tail[j]);
            }
        }
        assert forall|j: int| 0 <= j < out.len() implies exists|k: int, i: int|
            0 <= k < names.len() && 0 <= i < groups[k].len() && (#[trigger] groups[k][i]).1.frontmatter.status == PhaseStatus::Blocked
                && #[trigger] out[j] == blocked_phase(project, names[k], groups[k][i]) by {
            if j < rest.len() {
                assert(out[j] == rest[j]);
                let (k, i) = choose|k: int, i: int|
                    0 <= k < pn.len() && 0 <= i < pg[k].len() && (#[trigger] pg[k][i]).1.frontmatter.status == PhaseStatus::Blocked
                        && #[trigger] rest[j] == blocked_phase(project, pn[k], pg[k][i]);
                assert(pn[k] == names[k] && pg[k] == groups[k]);
                assert(groups[k][i] == pg[k][i]);
            } else {
                assert(out[j] == tail[j - rest.len()]);
                let i = choose|i: int| 0 <= i < groups[last].len() && (#[trigger] groups[last][i]).1.frontmatter.status == PhaseStatus::Blocked
                    && #[trigger] tail[j - rest.len()] == blocked_phase(project, names[last], groups[last][i]);
                assert(groups[last][i] == groups[last][i]);
            }
        }
    }
}

/// The task part of a queue made of phase items then the tasks' items.
proof fn lemma_queue_tasks(
    project: Seq<char>,
    pv: Seq<PendingView>,
    names: Seq<Seq<char>>,
    groups: Seq<Seq<(Seq<char>, DocView<PhaseView>)>>,
    tv: Seq<(Seq<char>, DocView<TaskView>)>,
)
    requires
        names.len() == groups.len(),
        pv == pending_in_roadmaps(project, names, groups) + pending_in_tasks(project, tv),
    ensures
        forall|i: int| 0 <= i < tv.len() && (#[trigger] tv[i]).1.frontmatter.status == TaskStatus::NeedsReview
            ==> exists|j: int| 0 <= j < pv.len() && (#[trigger] pv[j]).kind == PendingReviewKind::Task
                && pv[j].identifier == tv[i].0,
        forall|j: int| 0 <= j < pv.len() && (#[trigger] pv[j]).kind == PendingReviewKind::Task
            ==> exists|i: int| 0 <= i < tv.len() && (#[trigger] tv[i]).1.frontmatter.status == TaskStatus::NeedsReview
                && pv[j].identifier == tv[i].0,
{
    let a = pending_in_roadmaps(project, names, groups);
    let b = pending_in_tasks(project, tv);
    lemma_pending_roadmaps_members(project, names, groups);
    lemma_pending_tasks_members(project, tv);
    assert forall|i: int| 0 <= i < tv.len() && (#[trigger] tv[i]).1.frontmatter.status == TaskStatus::NeedsReview
        implies exists|j: int| 0 <= j < pv.len() && (#[trigger] pv[j]).kind == PendingReviewKind::Task
            && pv[j].identifier == tv[i].0 by {
        let q = choose|q: int| 0 <= q < b.len() && b[q] == pending_task(project, tv[i]);
        assert(pv[a.len() + q] == b[q]);
    }
    assert forall|j: int| 0 <= j < pv.len() && (#[trigger] pv[j]).kind == PendingReviewKind::Task
        implies exists|i: int| 0 <= i < tv.len() && (#[trigger] tv[i]).1.frontmatter.status == TaskStatus::NeedsReview
            && pv[j].identifier == tv[i].0 by {
        if j < a.len() {
            assert(pv[j] == a[j]);
            let (k, i) = choose|k: int, i: int| 0 <= k < names.len() && 0 <= i < groups[k].len()
                && (#[trigger] groups[k][i]).1.frontmatter.status == PhaseStatus::NeedsReview
                && #[trigger] a[j] == pending_phase(project, names[k], groups[k][i]);
        } else {
            assert(pv[j] == b[j - a.len()]);
            let i = choose|i: int| 0 <= i < tv.len() && (#[trigger] tv[i]).1.frontmatter.status == TaskStatus::NeedsReview
                && #[trigger] b[j - a.len()] == pending_task(project, tv[i]);
        }
    }
}

/// The phase part of a queue made of phase items then the tasks' items.
proof fn lemma_queue_phases(
    project: Seq<char>,
    pv: Seq<PendingView>,
    names: Seq<Seq<char>>,
    groups: Seq<Seq<(Seq<char>, DocView<PhaseView>)>>,
    tv: Seq<(Seq<char>, DocView<TaskView>)>,
)
    requires
        names.len() == groups.len(),
        pv == pending_in_roadmaps(project, names, groups) + pending_in_tasks(project, tv),
    ensures
        forall|k: int, i: int|
            0 <= k < names.len() && 0 <= i < groups[k].len() && (#[trigger] groups[k][i]).1.frontmatter.status == PhaseStatus::NeedsReview
            ==> exists|j: int| 0 <= j < pv.len() && (#[trigger] pv[j]).kind == PendingReviewKind::Phase
                && pv[j].identifier == names[k] + "/"@ + groups[k][i].0,
        forall|j: int| 0 <= j < pv.len() && (#[trigger] pv[j]).kind == PendingReviewKind::Phase
            ==> exists|k: int, i: int|
                0 <= k < names.len() && 0 <= i < groups[k].len() && (#[trigger] groups[k][i]).1.frontmatter.status == PhaseStatus::NeedsReview
                && pv[j].identifier == names[k] + "/"@ + groups[k][i].0,
{
    let a = pending_in_roadmaps(project, names, groups);
    let b = pending_in_tasks(project, tv);
    lemma_pending_roadmaps_members(project, names, groups);
    lemma_pending_tasks_members(project, tv);
    assert forall|k: int, i: int|
        0 <= k < names.len() && 0 <= i < groups[k].len() && (#[trigger] groups[k][i]).1.frontmatter.status == PhaseStatus::NeedsReview
        implies exists|j: int| 0 <= j < pv.len() && (#[trigger] pv[j]).kind == PendingReviewKind::Phase
            && pv[j].identifier == names[k] + "/"@ + groups[k][i].0 by {
        let q = choose|q: int| 0 <= q < a.len() && a[q] == pending_phase(project, names[k], groups[k][i]);
        assert(pv[q] == a[q]);
    }
    assert forall|j: int| 0 <= j < pv.len() && (#[trigger] pv[j]).kind == PendingReviewKind::Phase
        implies exists|k: int, i: int|
            0 <= k < names.len() && 0 <= i < groups[k].len() && (#[trigger] groups[k][i]).1.frontmatter.status == PhaseStatus::NeedsReview
            && pv[j].identifier == names[k] + "/"@ + groups[k][i].0 by {
        if j < a.len() {
            assert(pv[j] == a[j]);
            let (k, i) = choose|k: int, i: int| 0 <= k < names.len() && 0 <= i < groups[k].len()
                && (#[trigger] groups[k][i]).1.frontmatter.status == PhaseStatus::NeedsReview
                && #[trigger] a[j] == pending_phase(project, names[k], groups[k][i]);
        } else {
            assert(pv[j] == b[j - a.len()]);
            let i = choose|i: int| 0 <= i < tv.len() && (#[trigger] tv[i]).1.frontmatter.status == TaskStatus::NeedsReview
                && #[trigger] b[j - a.len()] == pending_task(project, tv[i]);
        }
    }
}

/// The tasks in the review queue are exactly the tasks in review: every
/// task whose status is `needs-review` is in it as a task item under its
/// slug, and every task item is such a task.
pub proof fn lemma_pending_tasks_are_those_in_review(m: Files, project: &str, v: Vec<PendingReviewItem>)
    requires
        pending_review_items_post(m, project, Ok(v)),
    ensures
        exists|ts: Vec<(String, Document<Task>)>|
            #[trigger] lists_tasks(m, project@, Ok(ts)) && {
                let pv = pending_views(v@);
                let tv = task_views(ts@);
                &&& forall|i: int| 0 <= i < tv.len() && (#[trigger] tv[i]).1.frontmatter.status == TaskStatus::NeedsReview
                    ==> exists|j: int| 0 <= j < pv.len() && (#[trigger] pv[j]).kind == PendingReviewKind::Task
                        && pv[j].identifier == tv[i].0
                &&& forall|j: int| 0 <= j < pv.len() && (#[trigger] pv[j]).kind == PendingReviewKind::Task
                    ==> exists|i: int| 0 <= i < tv.len() && (#[trigger] tv[i]).1.frontmatter.status == TaskStatus::NeedsReview
                        && pv[j].identifier == tv[i].0
            },
{
    let (rs, gs, ts) = choose|rs: Vec<Document<Roadmap>>, gs: Seq<Vec<(String, Document<Phase>)>>, ts: Vec<(String, Document<Task>)>|
        #[trigger] list_roadmaps_post(m, project, None, None, Ok(rs)) && #[trigger] phase_listings(m, project@, rs@, gs)
            && #[trigger] lists_tasks(m, project@, Ok(ts)) && pending_views(v@)
            == pending_in_roadmaps(project@, roadmap_names(rs@), group_views(gs)) + pending_in_tasks(project@, task_views(ts@));
    lemma_queue_tasks(project@, pending_views(v@), roadmap_names(rs@), group_views(gs), task_views(ts@));
    assert(lists_tasks(m, project@, Ok(ts)));
}

/// The phases in the review queue are exactly the phases in review: every
/// phase whose status is `needs-review` is in it as a phase item under
/// `roadmap/stem` (the roadmap's name, a `/`, the phase's stem), and every
/// phase item is such a phase.
pub proof fn lemma_pending_phases_are_those_in_review(m: Files, project: &str, v: Vec<PendingReviewItem>)
    requires
        pending_review_items_post(m, project, Ok(v)),
    ensures
        exists|rs: Vec<Document<Roadmap>>, gs: Seq<Vec<(String, Document<Phase>)>>|
            #![trigger list_roadmaps_post(m, project, None, None, Ok(rs)), phase_listings(m, project@, rs@, gs)]
            list_roadmaps_post(m, project, None, None, Ok(rs)) && phase_listings(m, project@, rs@, gs) && {
                let pv = pending_views(v@);
                let names = roadmap_names(rs@);
                let groups = group_views(gs);
                &&& forall|k: int, i: int|
                    0 <= k < names.len() && 0 <= i < groups[k].len() && (#[trigger] groups[k][i]).1.frontmatter.status == PhaseStatus::NeedsReview
                    ==> exists|j: int| 0 <= j < pv.len() && (#[trigger] pv[j]).kind == PendingReviewKind::Phase
                        && pv[j].identifier == names[k] + "/"@ + groups[k][i].0
                &&& forall|j: int| 0 <= j < pv.len() && (#[trigger] pv[j]).kind == PendingReviewKind::Phase
                    ==> exists|k: int, i: int|
                        0 <= k < names.len() && 0 <= i < groups[k].len() && (#[trigger] groups[k][i]).1.frontmatter.status == PhaseStatus::NeedsReview
                        && pv[j].identifier == names[k] + "/"@ + groups[k][i].0
            },
{
    let (rs, gs, ts) = choose|rs: Vec<Document<Roadmap>>, gs: Seq<Vec<(String, Document<Phase>)>>, ts: Vec<(String, Document<Task>)>|
        #[trigger] list_roadmaps_post(m, project, None, None, Ok(rs)) && #[trigger] phase_listings(m, project@, rs@, gs)
            && #[trigger] lists_tasks(m, project@, Ok(ts)) && pending_views(v@)
            == pending_in_roadmaps(project@, roadmap_names(rs@), group_views(gs)) + pending_in_tasks(project@, task_views(ts@));
    lemma_queue_phases(project@, pending_views(v@), roadmap_names(rs@), group_views(gs), task_views(ts@));
    assert(list_roadmaps_post(m, project, None, None, Ok(rs)) && phase_listings(m, project@, rs@, gs));
}

/// The blocked list holds exactly the blocked phases: every phase whose
/// status is `blocked` is in it under `roadmap/stem` with its recorded
/// reason, and every item in it is such a phase.
pub proof fn lemma_blocked_items_are_the_blocked_phases(m: Files, project: &str, v: Vec<BlockedPhaseItem>)
    requires
        blocked_phases_post(m, project, Ok(v)),
    ensures
        exists|rs: Vec<Document<Roadmap>>, gs: Seq<Vec<(String, Document<Phase>)>>|
            #![trigger list_roadmaps_post(m, project, None, None, Ok(rs)), phase_listings(m, project@, rs@, gs)]
            list_roadmaps_post(m, project, None, None, Ok(rs)) && phase_listings(m, project@, rs@, gs)
            && (forall|k: int, i: int|
                0 <= k < rs.len() && 0 <= i < gs[k].len() && (#[trigger] gs[k]@[i]).1@.frontmatter.status == PhaseStatus::Blocked
                ==> exists|j: int| 0 <= j < v.len()
                    && (#[trigger] v@[j]).identifier@ == rs@[k]@.frontmatter.roadmap + "/"@ + gs[k]@[i].0@
                    && v@[j].reason.deep_view() == gs[k]@[i].1@.frontmatter.blocked_reason)
            && (forall|j: int| 0 <= j < v.len() ==> exists|k: int, i: int|
                0 <= k < rs.len() && 0 <= i < gs[k].len() && (#[trigger] gs[k]@[i]).1@.frontmatter.status == PhaseStatus::Blocked
                && (#[trigger] v@[j]).identifier@ == rs@[k]@.frontmatter.roadmap + "/"@ + gs[k]@[i].0@
                && v@[j].reason.deep_view() == gs[k]@[i].1@.frontmatter.blocked_reason),
{
    let (rs, gs) = choose|rs: Vec<Document<Roadmap>>, gs: Seq<Vec<(String, Document<Phase>)>>|
        #[trigger] list_roadmaps_post(m, project, None, None, Ok(rs)) && #[trigger] phase_listings(m, project@, rs@, gs)
            && blocked_views(v@) == blocked_in_roadmaps(project@, roadmap_names(rs@), group_views(gs));
    let names = roadmap_names(rs@);
    let groups = group_views(gs);
    let a = blocked_in_roadmaps(project@, names, groups);
    let bv = blocked_views(v@);
    lemma_blocked_roadmaps_members(project@, names, groups);
    assert forall|j: int| 0 <= j < v.len() implies #[trigger] bv[j] == v@[j]@ by {}
    assert forall|k: int, i: int|
        0 <= k < rs.len() && 0 <= i < gs[k].len() && (#[trigger] gs[k]@[i]).1@.frontmatter.status == PhaseStatus::Blocked
        implies exists|j: int| 0 <= j < v.len()
            && (#[trigger] v@[j]).identifier@ == rs@[k]@.frontmatter.roadmap + "/"@ + gs[k]@[i].0@
            && v@[j].reason.deep_view() == gs[k]@[i].1@.frontmatter.blocked_reason by {
        assert(groups[k] == phase_views(gs[k]@));
        assert(groups[k][i] == (gs[k]@[i].0@, gs[k]@[i].1@));
        assert(names[k] == rs@[k]@.frontmatter.roadmap);
        let q = choose|q: int| 0 <= q < a.len() && a[q] == blocked_phase(project@, names[k], groups[k][i]);
        assert(bv[q] == a[q]);
        assert(v@[q]@ == bv[q]);
    }
    assert forall|j: int| 0 <= j < v.len() implies exists|k: int, i: int|
        0 <= k < rs.len() && 0 <= i < gs[k].len() && (#[trigger] gs[k]@[i]).1@.frontmatter.status == PhaseStatus::Blocked
        && (#[trigger] v@[j]).identifier@ == rs@[k]@.frontmatter.roadmap + "/"@ + gs[k]@[i].0@
        && v@[j].reason.deep_view() == gs[k]@[i].1@.frontmatter.blocked_reason by {
        assert(v@[j]@ == bv[j]);
        let (k, i) = choose|k: int, i: int| 0 <= k < names.len() && 0 <= i < groups[k].len()
            && (#[trigger] groups[k][i]).1.frontmatter.status == PhaseStatus::Blocked
            && #[trigger] a[j] == blocked_phase(project@, names[k], groups[k][i]);
        assert(groups[k] == phase_views(gs[k]@));
        assert(groups[k][i] == (gs[k]@[i].0@, gs[k]@[i].1@));
        assert(names[k] == rs@[k]@.frontmatter.roadmap);
    }
}

} // verus!
