//! The generated `INDEX.md` files: one per project and one for the repo.
use vstd::prelude::*;

use crate::error::{Error, Result};
use crate::model::{opt_priority_rank, DocView, Document, Phase, PhaseView, RoadmapView, Task, TaskView};
use crate::ops::phase::{list_phases, lists_phases, phase_views, phases_ok};
use crate::ops::roadmap::{
    all_roadmaps, enumerates, list_roadmaps, roadmap_docs, roadmap_views, with_priority,
};
use crate::ops::task::{joined, join_strings, list_tasks, lists_tasks, task_views, tasks_ok};
use crate::paths::{index_path, project_index_path, project_index_spec, project_md_spec, roadmap_path_spec};
use crate::sorted::strictly_sorted;
use crate::store::{listed, DirEntryKind, EntryView, Files, MemoryStore};
use crate::text::{cat, cat3, decimal, lemma_seq_lt_asym, lemma_seq_lt_trans, owned, seq_lt, str_lt, u64_to_decimal};

verus! {

/// One roadmap's line in a project index.
#[derive(Debug, Clone, PartialEq, Eq)]
pub struct RoadmapIndexEntry {
    pub slug: String,
    pub project: String,
    pub phase_count: u64,
    pub done_count: u64,
    pub dependencies: Option<Vec<String>>,
}

/// What a project index shows: its roadmaps in slug order and its tasks,
/// highest priority first.
#[derive(Debug, Clone, PartialEq, Eq)]
pub struct ProjectIndex {
    pub name: String,
    pub roadmaps: Vec<RoadmapIndexEntry>,
    pub tasks: Vec<(String, Document<Task>)>,
}

/// The line the generated files start their body with.
pub open spec fn autogen_note() -> Seq<char> {
    "<!-- This file is auto-generated by rdm. Do not edit by hand. -->"@
}

/// How far a roadmap has come: `not started` while no phase is done,
/// `done` when every phase is, otherwise `<done>/<count> done`.
pub open spec fn progress_spec(done: u64, count: u64) -> Seq<char> {
    if done == 0 {
        "not started"@
    } else if done == count {
        "done"@
    } else {
        decimal(done as nat) + "/"@ + decimal(count as nat) + " done"@
    }
}

fn progress(done: u64, count: u64) -> (r: String)
    ensures
        r@ == progress_spec(done, count),
{
    if done == 0 {
        owned("not started")
    } else if done == count {
        owned("done")
    } else {
        let d = u64_to_decimal(done);
        let c = u64_to_decimal(count);
        let mut s = cat3(d.as_str(), "/", c.as_str());
        s.append(" done");
        s
    }
}

/// The dependencies column: `—` for none.
pub open spec fn deps_text(deps: Option<Seq<Seq<char>>>) -> Seq<char> {
    match deps {
        Some(v) => if v.len() == 0 {
            "—"@
        } else {
            joined(v, ", "@)
        },
        None => "—"@,
    }
}

/// A roadmap's row in its project's index.
pub open spec fn roadmap_row(e: RoadmapIndexEntry) -> Seq<char> {
    "| ["@ + e.slug@ + "](roadmaps/"@ + e.slug@ + "/roadmap.md) | "@ + progress_spec(
        e.done_count,
        e.phase_count,
    ) + " | "@ + deps_text(e.dependencies.deep_view()) + " |\n"@
}

/// A task's row in its project's index.
pub open spec fn task_row(slug: Seq<char>, t: TaskView) -> Seq<char> {
    "| ["@ + slug + "](tasks/"@ + slug + ".md) | "@ + t.priority.name_spec() + " | "@
        + t.status.name_spec() + " |\n"@
}

/// Rows, one after the other.
pub open spec fn roadmap_rows(es: Seq<RoadmapIndexEntry>) -> Seq<char>
    decreases es.len(),
{
    if es.len() == 0 {
        Seq::empty()
    } else {
        roadmap_rows(es.drop_last()) + roadmap_row(es.last())
    }
}

/// Rows, one after the other.
pub open spec fn task_rows(ts: Seq<(Seq<char>, DocView<TaskView>)>) -> Seq<char>
    decreases ts.len(),
{
    if ts.len() == 0 {
        Seq::empty()
    } else {
        task_rows(ts.drop_last()) + task_row(ts.last().0, ts.last().1.frontmatter)
    }
}

/// The text of a project's `INDEX.md`; its links are relative to the
/// project's directory.
pub open spec fn project_index_text(pi: ProjectIndex) -> Seq<char> {
    "# Project: "@ + pi.name@ + "\n\n"@ + autogen_note() + "\n\n## Roadmaps\n\n"@ + (if pi.roadmaps@.len()
        == 0 {
        "No roadmaps.\n"@
    } else {
        "| Roadmap | Progress | Depends on |\n|---|---|---|\n"@ + roadmap_rows(pi.roadmaps@)
    }) + "\n## Tasks\n\n"@ + (if pi.tasks@.len() == 0 {
        "No tasks.\n"@
    } else {
        "| Task | Priority | Status |\n|---|---|---|\n"@ + task_rows(task_views(pi.tasks@))
    })
}

/// A roadmap as the repo index names it: its slug and progress.
pub open spec fn roadmap_summary(e: RoadmapIndexEntry) -> Seq<char> {
    e.slug@ + " ("@ + progress_spec(e.done_count, e.phase_count) + ")"@
}

/// The roadmaps column of a project's row in the repo index.
pub open spec fn summaries(es: Seq<RoadmapIndexEntry>) -> Seq<char>
    decreases es.len(),
{
    if es.len() == 0 {
        Seq::empty()
    } else if es.len() == 1 {
        roadmap_summary(es[0])
    } else {
        summaries(es.drop_last()) + ", "@ + roadmap_summary(es.last())
    }
}

/// A project's row in the repo index: a link to its own index, its
/// roadmaps with their progress, and how many tasks it has.
pub open spec fn project_row(pi: ProjectIndex) -> Seq<char> {
    "| ["@ + pi.name@ + "](projects/"@ + pi.name@ + "/INDEX.md) | "@ + (if pi.roadmaps@.len() == 0 {
        "—"@
    } else {
        summaries(pi.roadmaps@)
    }) + " | "@ + decimal(pi.tasks@.len()) + " |\n"@
}

/// Rows, one after the other.
pub open spec fn project_rows(ps: Seq<ProjectIndex>) -> Seq<char>
    decreases ps.len(),
{
    if ps.len() == 0 {
        Seq::empty()
    } else {
        project_rows(ps.drop_last()) + project_row(ps.last())
    }
}

/// The text of the repo's `INDEX.md`.
pub open spec fn top_index_text(ps: Seq<ProjectIndex>) -> Seq<char> {
    "# Plan Index\n\n"@ + autogen_note() + "\n\n"@ + (if ps.len() == 0 {
        "No projects.\n"@
    } else {
        "| Project | Roadmaps | Tasks |\n|---|---|---|\n"@ + project_rows(ps)
    })
}

fn roadmap_row_exec(e: &RoadmapIndexEntry) -> (r: String)
    ensures
        r@ == roadmap_row(*e),
{
    let mut s = cat3("| [", e.slug.as_str(), "](roadmaps/");
    s.append(e.slug.as_str());
    s.append("/roadmap.md) | ");
    let p = progress(e.done_count, e.phase_count);
    s.append(p.as_str());
    s.append(" | ");
    match &e.dependencies {
        Some(v) => {
            if v.len() == 0 {
                s.append("—");
            } else {
                let j = join_strings(v, ", ");
                s.append(j.as_str());
            }
        },
        None => {
            s.append("—");
        },
    }
    s.append(" |\n");
    s
}

fn task_row_exec(slug: &str, t: &Task) -> (r: String)
    ensures
        r@ == task_row(slug@, t@),
{
    let mut s = cat3("| [", slug, "](tasks/");
    s.append(slug);
    s.append(".md) | ");
    s.append(t.priority.as_str());
    s.append(" | ");
    s.append(t.status.as_str());
    s.append(" |\n");
    s
}

/// The text of a project's `INDEX.md`; see [`project_index_text`].
pub fn format_project_index(pi: &ProjectIndex) -> (r: String)
    ensures
        r@ == project_index_text(*pi),
{
    let mut s = cat3("# Project: ", pi.name.as_str(), "\n\n");
    s.append("<!-- This file is auto-generated by rdm. Do not edit by hand. -->");
    s.append("\n\n## Roadmaps\n\n");
    if pi.roadmaps.len() == 0 {
        s.append("No roadmaps.\n");
    } else {
        s.append("| Roadmap | Progress | Depends on |\n|---|---|---|\n");
        let ghost before = s@;
        let mut i: usize = 0;
        assert(pi.roadmaps@.subrange(0, 0) =~= Seq::<RoadmapIndexEntry>::empty());
        while i < pi.roadmaps.len()
            invariant
                i <= pi.roadmaps.len(),
                s@ == before + roadmap_rows(pi.roadmaps@.subrange(0, i as int)),
            decreases pi.roadmaps.len() - i,
        {
            let row = roadmap_row_exec(&pi.roadmaps[i]);
            s.append(row.as_str());
            assert(pi.roadmaps@.subrange(0, i + 1).drop_last() =~= pi.roadmaps@.subrange(0, i as int));
            i = i + 1;
        }
        assert(pi.roadmaps@.subrange(0, i as int) =~= pi.roadmaps@);
    }
    s.append("\n## Tasks\n\n");
    if pi.tasks.len() == 0 {
        s.append("No tasks.\n");
    } else {
        s.append("| Task | Priority | Status |\n|---|---|---|\n");
        let ghost before = s@;
        let ghost tv = task_views(pi.tasks@);
        let mut i: usize = 0;
        assert(tv.subrange(0, 0) =~= Seq::<(Seq<char>, DocView<TaskView>)>::empty());
        while i < pi.tasks.len()
            invariant
                i <= pi.tasks.len(),
                tv == task_views(pi.tasks@),
                s@ == before + task_rows(tv.subrange(0, i as int)),
            decreases pi.tasks.len() - i,
        {
            let row = task_row_exec(pi.tasks[i].0.as_str(), &pi.tasks[i].1.frontmatter);
            s.append(row.as_str());
            assert(tv.subrange(0, i + 1).drop_last() =~= tv.subrange(0, i as int));
            assert(tv.subrange(0, i + 1).last() == (pi.tasks[i as int].0@, pi.tasks[i as int].1@));
            i = i + 1;
        }
        assert(tv.subrange(0, i as int) =~= tv);
    }
    s
}

fn project_row_exec(pi: &ProjectIndex) -> (r: String)
    ensures
        r@ == project_row(*pi),
{
    let mut s = cat3("| [", pi.name.as_str(), "](projects/");
    s.append(pi.name.as_str());
    s.append("/INDEX.md) | ");
    if pi.roadmaps.len() == 0 {
        s.append("—");
    } else {
        let ghost before = s@;
        let mut i: usize = 0;
        while i < pi.roadmaps.len()
            invariant
                0 < pi.roadmaps.len(),
                i <= pi.roadmaps.len(),
                s@ == before + summaries(pi.roadmaps@.subrange(0, i as int)),
            decreases pi.roadmaps.len() - i,
        {
            assert(pi.roadmaps@.subrange(0, i + 1).drop_last() =~= pi.roadmaps@.subrange(0, i as int));
            if i > 0 {
                s.append(", ");
            } else {
                assert(pi.roadmaps@.subrange(0, 0) =~= Seq::<RoadmapIndexEntry>::empty());
                assert(s@ =~= before);
            }
            let e = &pi.roadmaps[i];
            s.append(e.slug.as_str());
            s.append(" (");
            let p = progress(e.done_count, e.phase_count);
            s.append(p.as_str());
            s.append(")");
            i = i + 1;
        }
        assert(pi.roadmaps@.subrange(0, i as int) =~= pi.roadmaps@);
    }
    s.append(" | ");
    let n = u64_to_decimal(pi.tasks.len() as u64);
    s.append(n.as_str());
    s.append(" |\n");
    s
}

/// The text of the repo's `INDEX.md`; see [`top_index_text`].
pub fn format_top_level_index(projects: &Vec<ProjectIndex>) -> (r: String)
    ensures
        r@ == top_index_text(projects@),
{
    let mut s = owned("# Plan Index\n\n");
    s.append("<!-- This file is auto-generated by rdm. Do not edit by hand. -->");
    s.append("\n\n");
    if projects.len() == 0 {
        s.append("No projects.\n");
    } else {
        s.append("| Project | Roadmaps | Tasks |\n|---|---|---|\n");
        let ghost before = s@;
        let mut i: usize = 0;
        assert(projects@.subrange(0, 0) =~= Seq::<ProjectIndex>::empty());
        while i < projects.len()
            invariant
                i <= projects.len(),
                s@ == before + project_rows(projects@.subrange(0, i as int)),
            decreases projects.len() - i,
        {
            let row = project_row_exec(&projects[i]);
            s.append(row.as_str());
            assert(projects@.subrange(0, i + 1).drop_last() =~= projects@.subrange(0, i as int));
            i = i + 1;
        }
        assert(projects@.subrange(0, i as int) =~= projects@);
    }
    s
}

/// How many of the phases are closed.
pub open spec fn count_terminal(v: Seq<(Seq<char>, DocView<PhaseView>)>) -> nat
    decreases v.len(),
{
    if v.len() == 0 {
        0
    } else {
        count_terminal(v.drop_last()) + if v.last().1.frontmatter.status.is_terminal_spec() {
            1nat
        } else {
            0nat
        }
    }
}

/// Whether `a` comes strictly before `b` in a project index: higher
/// priority first, ties by slug.
pub open spec fn task_before(a: (Seq<char>, DocView<TaskView>), b: (Seq<char>, DocView<TaskView>)) -> bool {
    a.1.frontmatter.priority.rank_spec() > b.1.frontmatter.priority.rank_spec() || (
    a.1.frontmatter.priority.rank_spec() == b.1.frontmatter.priority.rank_spec() && seq_lt(a.0, b.0))
}

/// Whether no task comes before one listed ahead of it.
pub open spec fn by_priority(s: Seq<(Seq<char>, DocView<TaskView>)>) -> bool {
    forall|i: int, j: int| 0 <= i < j < s.len() ==> !task_before(#[trigger] s[j], #[trigger] s[i])
}

/// Whether `e` describes the roadmap `d` of `project` on `m`.
pub open spec fn describes_roadmap(m: Files, project: Seq<char>, d: DocView<RoadmapView>, e: RoadmapIndexEntry) -> bool {
    &&& e.slug@ == d.frontmatter.roadmap
    &&& e.project@ == project
    &&& e.dependencies.deep_view() == d.frontmatter.dependencies
    &&& exists|v: Vec<(String, Document<Phase>)>|
        lists_phases(m, project, d.frontmatter.roadmap, Ok(v)) && e.phase_count == v.len()
            && e.done_count == count_terminal(#[trigger] phase_views(v@))
}

/// Whether `pi` is the index of `project` on `m`.
pub open spec fn is_project_index(m: Files, project: Seq<char>, pi: ProjectIndex) -> bool {
    &&& pi.name@ == project
    &&& exists|slugs: Seq<Seq<char>>|
        enumerates(m, project, slugs) && all_roadmaps(m, project, slugs) && pi.roadmaps@.len()
            == slugs.len() && forall|i: int|
            0 <= i < slugs.len() ==> describes_roadmap(
                m,
                project,
                #[trigger] roadmap_docs(m, project, slugs)[i],
                pi.roadmaps@[i],
            )
    &&& exists|tv: Vec<(String, Document<Task>)>|
        lists_tasks(m, project, Ok(tv)) && by_priority(task_views(pi.tasks@)) && task_views(
            pi.tasks@,
        ).to_multiset() == #[trigger] task_views(tv@).to_multiset()
}

/// Whether a project's index can be built: the project, each roadmap named
/// in a roadmap document and every phase and task file hold documents.
pub open spec fn index_ok(m: Files, project: Seq<char>) -> bool {
    &&& m.contains_key(project_md_spec(project))
    &&& exists|slugs: Seq<Seq<char>>|
        enumerates(m, project, slugs) && all_roadmaps(m, project, slugs) && forall|i: int|
            0 <= i < slugs.len() ==> {
                let name = (#[trigger] roadmap_docs(m, project, slugs)[i]).frontmatter.roadmap;
                m.contains_key(roadmap_path_spec(project, name)) && phases_ok(m, project, name)
            }
    &&& tasks_ok(m, project)
}

fn count_closed(v: &Vec<(String, Document<Phase>)>) -> (r: u64)
    ensures
        r == count_terminal(phase_views(v@)),
{
    let ghost pv = phase_views(v@);
    let mut n: u64 = 0;
    let mut i: usize = 0;
    assert(pv.subrange(0, 0) =~= Seq::<(Seq<char>, DocView<PhaseView>)>::empty());
    while i < v.len()
        invariant
            i <= v.len(),
            pv == phase_views(v@),
            n == count_terminal(pv.subrange(0, i as int)),
            n <= i,
        decreases v.len() - i,
    {
        assert(pv.subrange(0, i + 1).drop_last() =~= pv.subrange(0, i as int));
        assert(pv.subrange(0, i + 1).last() == (v[i as int].0@, v[i as int].1@));
        if v[i].1.frontmatter.status.is_terminal() {
            n = n + 1;
        }
        i = i + 1;
    }
    assert(pv.subrange(0, i as int) =~= pv);
    n
}

fn insert_by_priority(out: &mut Vec<(String, Document<Task>)>, x: (String, Document<Task>))
    requires
        by_priority(task_views(old(out)@)),
    ensures
        by_priority(task_views(final(out)@)),
        task_views(final(out)@).to_multiset() == task_views(old(out)@).to_multiset().insert(
            (x.0@, x.1@),
        ),
{
    let ghost o = task_views(out@);
    let ghost xv = (x.0@, x.1@);
    let xr = x.1.frontmatter.priority.rank();
    let mut p: usize = 0;
    let mut done = false;
    while p < out.len() && !done
        invariant
            p <= out.len(),
            o == task_views(out@),
            xv == (x.0@, x.1@),
            xr == xv.1.frontmatter.priority.rank_spec(),
            forall|k: int| 0 <= k < p ==> !task_before(xv, #[trigger] o[k]),
            done ==> p < out.len() && task_before(xv, o[p as int]),
        decreases out.len() - p, if done { 0int } else { 1int },
    {
        assert(o[p as int] == (out[p as int].0@, out[p as int].1@));
        let er = out[p].1.frontmatter.priority.rank();
        if xr > er || (xr == er && str_lt(x.0.as_str(), out[p].0.as_str())) {
            done = true;
        } else {
            p = p + 1;
        }
    }
    out.insert(p, x);
    let ghost n = task_views(out@);
    assert(n =~= o.insert(p as int, xv));
    proof {
        vstd::seq_lib::to_multiset_insert(o, p as int, xv);
        assert forall|i: int, j: int| 0 <= i < j < n.len() implies !task_before(#[trigger] n[j], #[trigger] n[i]) by {
            if j < p {
                assert(n[i] == o[i] && n[j] == o[j]);
            } else if j == p {
                assert(n[i] == o[i]);
            } else if i == p {
                assert(n[j] == o[j - 1]);
                let c = o[j - 1];
                let b = o[p as int];
                if task_before(c, xv) {
                    if j - 1 > p {
                        assert(!task_before(c, b));
                        lemma_seq_lt_trans(c.0, xv.0, b.0);
                    } else {
                        lemma_seq_lt_asym(xv.0, b.0);
                    }
                }
            } else if i < p {
                assert(n[i] == o[i] && n[j] == o[j - 1]);
            } else {
                assert(n[i] == o[i - 1] && n[j] == o[j - 1]);
            }
        }
    }
}

/// Builds a project's index from its roadmaps, their phases and its tasks.
pub fn build_project_index(store: &MemoryStore, project: &str) -> (r: Result<ProjectIndex>)
    ensures
        r is Ok <==> index_ok(store.files(), project@),
        r matches Ok(pi) ==> is_project_index(store.files(), project@, pi),
        !store.files().contains_key(project_md_spec(project@)) ==> (r matches Err(
            Error::ProjectNotFound(n),
        ) && n@ == project@),
{
    let ghost m = store.files();
    let ghost slugs = choose|slugs: Seq<Seq<char>>| enumerates(m, project@, slugs) && (all_roadmaps(m, project@, slugs) ==> true);
    let roadmaps = match list_roadmaps(store, project, None, None) {
        Ok(v) => v,
        Err(e) => {
            proof {
                if m.contains_key(project_md_spec(project@)) {
                    crate::ops::roadmap::lemma_enumeration_unique(m, project@, slugs);
                }
            }
            return Err(e);
        },
    };
    proof {
        crate::ops::roadmap::lemma_enumeration_unique(m, project@, slugs);
        crate::ops::roadmap::lemma_with_priority_none(roadmap_docs(m, project@, slugs));
    }
    let ghost docs = roadmap_docs(m, project@, slugs);
    let mut entries: Vec<RoadmapIndexEntry> = Vec::new();
    let mut i: usize = 0;
    while i < roadmaps.len()
        invariant
            i <= roadmaps.len(),
            m == store.files(),
            enumerates(m, project@, slugs) && all_roadmaps(m, project@, slugs),
            forall|t: Seq<Seq<char>>| enumerates(m, project@, t) ==> t == slugs,
            m.contains_key(project_md_spec(project@)),
            roadmap_views(roadmaps@) == docs,
            docs == roadmap_docs(m, project@, slugs),
            entries.len() == i,
            forall|k: int| 0 <= k < i ==> describes_roadmap(m, project@, #[trigger] docs[k], entries@[k]),
            forall|k: int| 0 <= k < i ==> {
                let name = (#[trigger] docs[k]).frontmatter.roadmap;
                m.contains_key(roadmap_path_spec(project@, name)) && phases_ok(m, project@, name)
            },
        decreases roadmaps.len() - i,
    {
        let slug = roadmaps[i].frontmatter.roadmap.as_str();
        assert(docs[i as int] == roadmaps[i as int]@);
        assert(slug@ == docs[i as int].frontmatter.roadmap);
        let listed_phases = list_phases(store, project, slug);
        proof {
            if index_ok(m, project@) {
                let s2 = choose|s2: Seq<Seq<char>>| enumerates(m, project@, s2) && all_roadmaps(m, project@, s2) && forall|i: int|
                    0 <= i < s2.len() ==> {
                        let name = (#[trigger] roadmap_docs(m, project@, s2)[i]).frontmatter.roadmap;
                        m.contains_key(roadmap_path_spec(project@, name)) && phases_ok(m, project@, name)
                    };
                assert(s2 == slugs);
                assert(docs.len() == slugs.len());
                assert(roadmap_views(roadmaps@).len() == roadmaps.len());
                assert((i as int) < s2.len());
                assert(roadmap_docs(m, project@, s2)[i as int] == docs[i as int]);
                assert(m.contains_key(roadmap_path_spec(project@, slug@)) && phases_ok(m, project@, slug@));
                assert(listed_phases is Ok);
            }
        }
        let phases = match listed_phases {
            Ok(v) => v,
            Err(e) => {
                return Err(e);
            },
        };
        let done = count_closed(&phases);
        let entry = RoadmapIndexEntry {
            slug: roadmaps[i].frontmatter.roadmap.clone(),
            project: owned(project),
            phase_count: phases.len() as u64,
            done_count: done,
            dependencies: crate::model::copy_opt_strings(&roadmaps[i].frontmatter.dependencies),
        };
        proof {
            assert(lists_phases(m, project@, docs[i as int].frontmatter.roadmap, Ok(phases)));
            assert(describes_roadmap(m, project@, docs[i as int], entry));
        }
        let ghost e0 = entries@;
        entries.push(entry);
        assert forall|k: int| 0 <= k < i + 1 implies describes_roadmap(m, project@, #[trigger] docs[k], entries@[k]) by {
            if k < i {
                assert(entries@[k] == e0[k]);
            }
        }
        i = i + 1;
    }
    let ghost tasks_m = m;
    let tasks = match list_tasks(store, project) {
        Ok(v) => v,
        Err(e) => {
            return Err(e);
        },
    };
    let mut sorted_tasks: Vec<(String, Document<Task>)> = Vec::new();
    let ghost tv = task_views(tasks@);
    let mut k: usize = 0;
    assert(task_views(sorted_tasks@) =~= tv.subrange(0, 0));
    while k < tasks.len()
        invariant
            k <= tasks.len(),
            tv == task_views(tasks@),
            by_priority(task_views(sorted_tasks@)),
            task_views(sorted_tasks@).to_multiset() == tv.subrange(0, k as int).to_multiset(),
        decreases tasks.len() - k,
    {
        proof {
            assert(tv.subrange(0, k + 1) =~= tv.subrange(0, k as int).push(tv[k as int]));
            vstd::seq_lib::to_multiset_build(tv.subrange(0, k as int), tv[k as int]);
            assert(tv[k as int] == (tasks[k as int].0@, tasks[k as int].1@));
        }
        insert_by_priority(&mut sorted_tasks, (tasks[k].0.clone(), tasks[k].1.duplicate()));
        k = k + 1;
    }
    assert(tv.subrange(0, tasks.len() as int) =~= tv);
    let pi = ProjectIndex { name: owned(project), roadmaps: entries, tasks: sorted_tasks };
    proof {
        assert(roadmap_views(roadmaps@).len() == roadmaps.len());
        assert(docs.len() == slugs.len());
        assert(pi.roadmaps@.len() == slugs.len());
        assert(forall|i: int| 0 <= i < slugs.len() ==> describes_roadmap(m, project@, #[trigger] roadmap_docs(m, project@, slugs)[i], pi.roadmaps@[i]));
        assert(lists_tasks(m, project@, Ok(tasks)));
        assert(task_views(pi.tasks@).to_multiset() == task_views(tasks@).to_multiset());
        assert(is_project_index(m, project@, pi));
        assert(index_ok(m, project@));
    }
    Ok(pi)
}

/// What [`generate_project_index`] gives: its result and, for a change, the files it leaves.
pub open spec fn generate_project_index_post(m: Files, project: &str, r: Result<()>, m2: Files) -> bool {
    &&& (r is Ok <==> index_ok(m, project@))
    &&& (r is Err ==> m2 == m)
    &&& (r is Ok ==> exists|pi: ProjectIndex|
            is_project_index(m, project@, pi) && m2 == m.insert(project_index_spec(project@), EntryView::Text(project_index_text(pi))))
}

/// Writes a project's `INDEX.md`.
pub fn generate_project_index(store: &mut MemoryStore, project: &str) -> (r: Result<()>)
    ensures
        generate_project_index_post(old(store).files(), project, r, final(store).files()),
{
    let pi = build_project_index(store, project)?;
    let content = format_project_index(&pi);
    store.write(&project_index_path(project), content)?;
    Ok(())
}

/// The store with the index of each project written.
pub open spec fn with_project_indexes(m: Files, names: Seq<Seq<char>>, pis: Seq<ProjectIndex>) -> Files
    decreases names.len(),
{
    if names.len() == 0 || pis.len() == 0 {
        m
    } else {
        with_project_indexes(m, names.drop_last(), pis.drop_last()).insert(
            project_index_spec(names.last()),
            EntryView::Text(project_index_text(pis.last())),
        )
    }
}

/// Whether `names` lists the projects of `m`, each once, in order.
pub open spec fn lists_projects(m: Files, names: Seq<Seq<char>>) -> bool {
    strictly_sorted(names) && forall|n: Seq<char>|
        names.contains(n) <==> listed(m, "projects"@, n, DirEntryKind::Dir)
}

/// Whether `pis` are the indexes of `names` on `m`, in order.
pub open spec fn indexes_of(m: Files, names: Seq<Seq<char>>, pis: Seq<ProjectIndex>) -> bool {
    pis.len() == names.len() && forall|i: int|
        0 <= i < names.len() ==> is_project_index(m, #[trigger] names[i], pis[i])
}

fn build_all(store: &MemoryStore, names: &Vec<String>) -> (r: Result<Vec<ProjectIndex>>)
    ensures
        r is Ok <==> forall|i: int| 0 <= i < names.len() ==> index_ok(store.files(), #[trigger] names.deep_view()[i]),
        r matches Ok(pis) ==> indexes_of(store.files(), names.deep_view(), pis@),
{
    let mut pis: Vec<ProjectIndex> = Vec::new();
    let mut i: usize = 0;
    while i < names.len()
        invariant
            i <= names.len(),
            pis.len() == i,
            forall|k: int| 0 <= k < i ==> index_ok(store.files(), #[trigger] names.deep_view()[k]),
            forall|k: int| 0 <= k < i ==> is_project_index(store.files(), #[trigger] names.deep_view()[k], pis@[k]),
        decreases names.len() - i,
    {
        assert(names.deep_view()[i as int] == names[i as int]@);
        match build_project_index(store, names[i].as_str()) {
            Ok(pi) => {
                let ghost p0 = pis@;
                pis.push(pi);
                assert forall|k: int| 0 <= k < i + 1 implies is_project_index(store.files(), #[trigger] names.deep_view()[k], pis@[k]) by {
                    if k < i {
                        assert(pis@[k] == p0[k]);
                    }
                }
            },
            Err(e) => {
                return Err(e);
            },
        }
        i = i + 1;
    }
    assert(names.deep_view().len() == names.len());
    Ok(pis)
}

fn write_all(store: &mut MemoryStore, names: &Vec<String>, pis: &Vec<ProjectIndex>)
    requires
        names.len() == pis.len(),
    ensures
        final(store).files() == with_project_indexes(old(store).files(), names.deep_view(), pis@),
{
    let ghost m = store.files();
    let mut i: usize = 0;
    while i < names.len()
        invariant
            i <= names.len(),
            names.len() == pis.len(),
            store.files() == with_project_indexes(m, names.deep_view().subrange(0, i as int), pis@.subrange(0, i as int)),
        decreases names.len() - i,
    {
        let content = format_project_index(&pis[i]);
        store.write(&project_index_path(names[i].as_str()), content);
        assert(names.deep_view().subrange(0, i + 1).drop_last() =~= names.deep_view().subrange(0, i as int));
        assert(pis@.subrange(0, i + 1).drop_last() =~= pis@.subrange(0, i as int));
        assert(names.deep_view().subrange(0, i + 1).last() == names[i as int]@);
        i = i + 1;
    }
    assert(names.deep_view().subrange(0, i as int) =~= names.deep_view());
    assert(pis@.subrange(0, i as int) =~= pis@);
}

/// What [`generate_index`] gives: its result and, for a change, the files it leaves.
pub open spec fn generate_index_post(m: Files, r: Result<()>, m2: Files) -> bool {
    &&& (({
            let m = m;
            &&& r is Err ==> m2 == m
            &&& forall|names: Seq<Seq<char>>| #[trigger] lists_projects(m, names) ==> (r is Ok <==> forall|i: int| 0 <= i < names.len() ==> index_ok(m, #[trigger] names[i]))
            &&& r is Ok ==> exists|names: Seq<Seq<char>>, pis: Seq<ProjectIndex>|
                lists_projects(m, names) && indexes_of(m, names, pis) && m2
                    == with_project_indexes(m, names, pis).insert("INDEX.md"@, EntryView::Text(top_index_text(pis)))
        }))
}

/// Writes every project's `INDEX.md` and the repo's, which links to them.
pub fn generate_index(store: &mut MemoryStore) -> (r: Result<()>)
    ensures
        generate_index_post(old(store).files(), r, final(store).files()),
{
    let ghost m = store.files();
    let names = crate::ops::project::list_projects(store)?;
    proof {
        assert forall|t: Seq<Seq<char>>| #[trigger] lists_projects(m, t) implies t == names.deep_view() by {
            crate::sorted::lemma_sorted_unique(names.deep_view(), t);
        }
    }
    let pis = build_all(store, &names)?;
    write_all(store, &names, &pis);
    let content = format_top_level_index(&pis);
    store.write(&index_path(), content)?;
    proof {
        assert(lists_projects(m, names.deep_view()));
    }
    Ok(())
}

/// What [`generate_index_for_project`] gives: its result and, for a change, the files it leaves.
pub open spec fn generate_index_for_project_post(m: Files, project: &str, r: Result<()>, m2: Files) -> bool {
    &&& (({
            let m = m;
            &&& r is Err ==> m2 == m
            &&& forall|names: Seq<Seq<char>>| #[trigger] lists_projects(m, names) ==> (r is Ok <==> forall|i: int| 0 <= i < names.len() ==> index_ok(m, #[trigger] names[i]))
            &&& r is Ok ==> exists|names: Seq<Seq<char>>, pis: Seq<ProjectIndex>|
                lists_projects(m, names) && indexes_of(m, names, pis) && m2
                    == (if names.contains(project@) {
                        m.insert(project_index_spec(project@), EntryView::Text(project_index_text(pis[names.index_of(project@)])))
                    } else {
                        m
                    }).insert("INDEX.md"@, EntryView::Text(top_index_text(pis)))
        }))
}

/// Writes the `INDEX.md` of `project` only, and the repo's `INDEX.md`.
pub fn generate_index_for_project(store: &mut MemoryStore, project: &str) -> (r: Result<()>)
    ensures
        generate_index_for_project_post(old(store).files(), project, r, final(store).files()),
{
    let ghost m = store.files();
    let names = crate::ops::project::list_projects(store)?;
    proof {
        assert forall|t: Seq<Seq<char>>| #[trigger] lists_projects(m, t) implies t == names.deep_view() by {
            crate::sorted::lemma_sorted_unique(names.deep_view(), t);
        }
    }
    let pis = build_all(store, &names)?;
    let ghost nv = names.deep_view();
    let mut i: usize = 0;
    let mut found = false;
    while i < names.len() && !found
        invariant
            i <= names.len(),
            nv == names.deep_view(),
            forall|k: int| 0 <= k < i ==> nv[k] != project@,
            found ==> i < names.len() && nv[i as int] == project@,
        decreases names.len() - i, if found { 0int } else { 1int },
    {
        assert(nv[i as int] == names[i as int]@);
        if crate::text::str_eq(names[i].as_str(), project) {
            found = true;
        } else {
            i = i + 1;
        }
    }
    if found {
        proof {
            assert(nv.contains(project@));
            crate::sorted::lemma_strictly_sorted_index_of(nv, i as int);
        }
        let content = format_project_index(&pis[i]);
        store.write(&project_index_path(project), content);
    } else {
        proof {
            if nv.contains(project@) {
                let k = choose|k: int| 0 <= k < nv.len() && nv[k] == project@;
            }
        }
    }
    let content = format_top_level_index(&pis);
    store.write(&index_path(), content)?;
    proof {
        assert(lists_projects(m, nv));
    }
    Ok(())
}

} // verus!
