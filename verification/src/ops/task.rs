//! Task operations: filter, create, list, update, promote, consolidate,
//! close and merge.
use vstd::prelude::*;

use crate::error::{Error, Result};
use crate::io::{load_task, task_at, write_task};
use crate::model::{
    phase_stem, phase_stem_spec, Date, DocView, Document, Phase, PhaseStatus, PhaseView, Priority,
    Roadmap, RoadmapView, Task, TaskStatus, TaskStatusFilter, TaskView,
};
use crate::ops::update::{BodyUpdate, ReasonUpdate, TagsUpdate, TitleUpdate};
use crate::ops::phase::{md_ext, md_trim, md_trimmed};
use crate::paths::{
    in_project, phase_path_spec, project_md_path, project_md_spec, roadmap_path, roadmap_path_spec,
    task_path, task_path_spec, tasks_dir, tasks_dir_spec,
};
use crate::store::{listed, DirEntryKind, EntryView, Files, MemoryStore};
use crate::text::{
    is_blank, cat, cat3, ends_with, is_suffix, lemma_seq_lt_asym, lemma_seq_lt_trans, owned, seq_lt, str_lt,
};

verus! {

/// Whether the file `name` in a project's task directory is a task: a
/// markdown file.
pub open spec fn is_task_file(m: Files, project: Seq<char>, name: Seq<char>) -> bool {
    listed(m, tasks_dir_spec(project), name, DirEntryKind::File) && is_suffix(md_ext(), name)
}

/// The slug and document of the task file `name`.
pub open spec fn task_item(m: Files, project: Seq<char>, name: Seq<char>) -> (
    Seq<char>,
    DocView<TaskView>,
) {
    (
        md_trimmed(name),
        task_at(m, task_path_spec(project, md_trimmed(name))).unwrap(),
    )
}

/// Whether every task file holds a task document.
pub open spec fn all_task_docs(
    m: Files,
    project: Seq<char>,
    names: Seq<Seq<char>>,
) -> bool {
    forall|i: int|
        0 <= i < names.len() ==> (#[trigger] task_at(
            m,
            task_path_spec(project, md_trimmed(names[i])),
        )) is Some
}

/// Whether `names` lists the task files of a project, each once.
pub open spec fn task_files(
    m: Files,
    project: Seq<char>,
    names: Seq<Seq<char>>,
) -> bool {
    names.no_duplicates() && forall|x: Seq<char>|
        names.contains(x) <==> is_task_file(m, project, x)
}

/// The slugs and documents of a list of tasks.
pub open spec fn task_views(v: Seq<(String, Document<Task>)>) -> Seq<(Seq<char>, DocView<TaskView>)> {
    v.map_values(|x: (String, Document<Task>)| (x.0@, x.1@))
}

/// Whether tasks are in order of their slugs.
pub open spec fn by_slug(v: Seq<(Seq<char>, DocView<TaskView>)>) -> bool {
    forall|i: int, j: int| 0 <= i < j < v.len() ==> !seq_lt((#[trigger] v[j]).0, (#[trigger] v[i]).0)
}

/// Whether every task file of a project holds a task document.
pub open spec fn tasks_ok(m: Files, project: Seq<char>) -> bool {
    forall|name: Seq<char>|
        is_task_file(m, project, name) ==> (#[trigger] task_at(
            m,
            task_path_spec(project, md_trimmed(name)),
        )) is Some
}

/// Whether `x` is the slug and document of one of a project's task files.
pub open spec fn is_task_item(
    m: Files,
    project: Seq<char>,
    x: (Seq<char>, DocView<TaskView>),
) -> bool {
    exists|name: Seq<char>|
        is_task_file(m, project, name) && #[trigger] task_item(m, project, name)
            == x
}

/// What a listing of a project's tasks gives on a store: its tasks ordered
/// by slug, each with its slug, each task file once.
pub open spec fn lists_tasks(
    m: Files,
    project: Seq<char>,
    r: Result<Vec<(String, Document<Task>)>>,
) -> bool {
    &&& !m.contains_key(project_md_spec(project)) ==> (r matches Err(
        Error::ProjectNotFound(n),
    ) && n@ == project)
    &&& m.contains_key(project_md_spec(project)) && !tasks_ok(m, project) ==> (
    r matches Err(e) && (e is TaskNotFound || e is FrontmatterParse))
    &&& m.contains_key(project_md_spec(project)) && tasks_ok(m, project) ==> (
    r matches Ok(v) && by_slug(task_views(v@)) && exists|names: Seq<Seq<char>>|
        task_files(m, project, names) && task_views(v@).to_multiset() == names.map_values(
            |n: Seq<char>| task_item(m, project, n),
        ).to_multiset())
}

/// The tasks a listing returns are exactly the project's task items.
pub proof fn lemma_listed_tasks(
    m: Files,
    project: Seq<char>,
    v: Seq<(Seq<char>, DocView<TaskView>)>,
    names: Seq<Seq<char>>,
)
    requires
        task_files(m, project, names),
        v.to_multiset() == names.map_values(|n: Seq<char>| task_item(m, project, n)).to_multiset(),
    ensures
        forall|x: (Seq<char>, DocView<TaskView>)| v.contains(x) <==> is_task_item(m, project, x),
{
    let f = |n: Seq<char>| task_item(m, project, n);
    let w = names.map_values(f);
    assert forall|x: (Seq<char>, DocView<TaskView>)| v.contains(x) <==> is_task_item(m, project, x) by {
        vstd::seq_lib::to_multiset_contains(v, x);
        vstd::seq_lib::to_multiset_contains(w, x);
        if w.contains(x) {
            let k = choose|k: int| 0 <= k < w.len() && w[k] == x;
            assert(names.contains(names[k]));
            assert(task_item(m, project, names[k]) == x);
        }
        if is_task_item(m, project, x) {
            let name = choose|name: Seq<char>| is_task_file(m, project, name) && #[trigger] task_item(m, project, name) == x;
            assert(names.contains(name));
            let k = choose|k: int| 0 <= k < names.len() && names[k] == name;
            assert(w[k] == x);
        }
    }
}

fn insert_by_slug(out: &mut Vec<(String, Document<Task>)>, x: (String, Document<Task>))
    requires
        by_slug(task_views(old(out)@)),
    ensures
        by_slug(task_views(final(out)@)),
        task_views(final(out)@).to_multiset() == task_views(old(out)@).to_multiset().insert(
            (x.0@, x.1@),
        ),
{
    let ghost o = task_views(out@);
    let ghost xv = (x.0@, x.1@);
    let mut p: usize = 0;
    let mut done = false;
    while p < out.len() && !done
        invariant
            p <= out.len(),
            o == task_views(out@),
            xv.0 == x.0@,
            forall|k: int| 0 <= k < p ==> !seq_lt(xv.0, (#[trigger] o[k]).0),
            done ==> p < out.len() && seq_lt(xv.0, o[p as int].0),
        decreases out.len() - p, if done { 0int } else { 1int },
    {
        assert(o[p as int] == (out[p as int].0@, out[p as int].1@));
        if str_lt(x.0.as_str(), out[p].0.as_str()) {
            done = true;
        } else {
            p = p + 1;
        }
    }
    out.insert(p, x);
    let ghost n = task_views(out@);
    assert(n =~= o.insert(p as int, xv));
    proof {
        vstd::seq_lib::to_multiset_insert(o, p as int, xv);
        assert forall|i: int, j: int| 0 <= i < j < n.len() implies !seq_lt((#[trigger] n[j]).0, (#[trigger] n[i]).0) by {
            if j < p {
                assert(n[i] == o[i] && n[j] == o[j]);
            } else if j == p {
                assert(n[i] == o[i]);
            } else if i == p {
                assert(n[j] == o[j - 1]);
                if seq_lt(o[j - 1].0, xv.0) {
                    if j - 1 > p {
                        assert(!seq_lt(o[j - 1].0, o[p as int].0));
                        lemma_seq_lt_trans(o[j - 1].0, xv.0, o[p as int].0);
                    } else {
                        lemma_seq_lt_asym(xv.0, o[p as int].0);
                    }
                }
            } else if i < p {
                assert(n[i] == o[i] && n[j] == o[j - 1]);
            } else {
                assert(n[i] == o[i - 1] && n[j] == o[j - 1]);
            }
        }
    }
}

/// The tasks of a project ordered by slug, each with its slug.
pub fn list_tasks(store: &MemoryStore, project: &str) -> (r: Result<
    Vec<(String, Document<Task>)>,
>)
    ensures
        lists_tasks(store.files(), project@, r),
{
    if !store.file_exists(&project_md_path(project)) {
        return Err(Error::ProjectNotFound(owned(project)));
    }
    let dir = tasks_dir(project);
    let entries = store.list(&dir);
    let ghost m = store.files();
    let ghost item = |n: Seq<char>| task_item(m, project@, n);
    let ghost mut names: Seq<Seq<char>> = Seq::empty();
    let mut out: Vec<(String, Document<Task>)> = Vec::new();
    let mut i: usize = 0;
    proof {
        reveal_strlit(".md");
        assert(".md"@ =~= md_ext());
    }
    assert(task_views(out@) =~= names.map_values(item));
    while i < entries.len()
        invariant
            i <= entries.len(),
            m == store.files(),
            m.contains_key(project_md_spec(project@)),
            item == (|n: Seq<char>| task_item(m, project@, n)),
            ".md"@ == md_ext(),
            forall|a: int| 0 <= a < entries.len() ==> listed(m, tasks_dir_spec(project@), #[trigger] entries[a].name@, entries[a].kind),
            forall|a: int, b: int| 0 <= a < b < entries.len() ==> !(entries[a].name@ == entries[b].name@ && entries[a].kind == entries[b].kind),
            forall|n: Seq<char>, k: DirEntryKind| listed(m, tasks_dir_spec(project@), n, k) ==> exists|a: int| 0 <= a < entries.len() && entries[a].name@ == n && entries[a].kind == k,
            names.no_duplicates(),
            forall|k: int| 0 <= k < names.len() ==> is_task_file(m, project@, #[trigger] names[k]),
            forall|k: int| 0 <= k < names.len() ==> exists|a: int| 0 <= a < i && entries[a].name@ == #[trigger] names[k] && entries[a].kind == DirEntryKind::File,
            forall|a: int| 0 <= a < i && is_task_file(m, project@, #[trigger] entries[a].name@) && entries[a].kind == DirEntryKind::File ==> names.contains(entries[a].name@),
            all_task_docs(m, project@, names),
            by_slug(task_views(out@)),
            task_views(out@).to_multiset() == names.map_values(item).to_multiset(),
        decreases entries.len() - i,
    {
        let name = entries[i].name.as_str();
        if entries[i].kind == DirEntryKind::File && ends_with(name, ".md") {
            let stem = md_trim(name);
            let ghost nm = entries[i as int].name@;
            assert(is_task_file(m, project@, nm));
            proof {
                if names.contains(nm) {
                    let k = choose|k: int| 0 <= k < names.len() && names[k] == nm;
                    let a = choose|a: int| 0 <= a < i && entries[a].name@ == names[k] && entries[a].kind == DirEntryKind::File;
                    assert(false);
                }
            }
            match load_task(store, project, stem) {
                Ok(doc) => {
                    let ghost old_names = names;
                    let ghost ov = task_views(out@);
                    proof {
                        names = names.push(nm);
                        assert(names.map_values(item) =~= old_names.map_values(item).push(item(nm)));
                        vstd::seq_lib::to_multiset_build(old_names.map_values(item), item(nm));
                        assert(item(nm) == (stem@, doc@));
                        assert forall|k: int| 0 <= k < names.len() implies (#[trigger] task_at(m, task_path_spec(project@, md_trimmed(names[k])))) is Some by {
                            if k < old_names.len() {
                                assert(names[k] == old_names[k]);
                            }
                        }
                        assert forall|a: int, b: int| 0 <= a < b < names.len() implies names[a] != names[b] by {
                            if b == names.len() - 1 {
                                assert(names[a] == old_names[a]);
                                assert(old_names.contains(old_names[a]));
                            } else {
                                assert(names[a] == old_names[a] && names[b] == old_names[b]);
                            }
                        }
                        assert forall|k: int| 0 <= k < names.len() implies exists|a: int| 0 <= a < i + 1 && entries[a].name@ == #[trigger] names[k] && entries[a].kind == DirEntryKind::File by {
                            if k < old_names.len() {
                                assert(names[k] == old_names[k]);
                            } else {
                                assert(entries[i as int].name@ == names[k]);
                            }
                        }
                        assert forall|a: int| 0 <= a < i + 1 && is_task_file(m, project@, #[trigger] entries[a].name@) && entries[a].kind == DirEntryKind::File implies names.contains(entries[a].name@) by {
                            if a < i {
                                let k = choose|k: int| 0 <= k < old_names.len() && old_names[k] == entries[a].name@;
                                assert(names[k] == entries[a].name@);
                            } else {
                                assert(names[old_names.len() as int] == nm);
                            }
                        }
                    }
                    insert_by_slug(&mut out, (owned(stem), doc));
                },
                Err(e) => {
                    assert(task_at(m, task_path_spec(project@, md_trimmed(nm))) is None);
                    return Err(e);
                },
            }
        } else {
            proof {
                if entries[i as int].kind == DirEntryKind::File {
                    assert(!is_task_file(m, project@, entries[i as int].name@));
                }
            }
        }
        i = i + 1;
    }
    proof {
        assert forall|x: Seq<char>| names.contains(x) <==> is_task_file(m, project@, x) by {
            if is_task_file(m, project@, x) {
                let a = choose|a: int| 0 <= a < entries.len() && entries[a].name@ == x && entries[a].kind == DirEntryKind::File;
                assert(names.contains(entries[a].name@));
            }
            if names.contains(x) {
                let k = choose|k: int| 0 <= k < names.len() && names[k] == x;
                assert(is_task_file(m, project@, names[k]));
            }
        }
        assert(task_files(m, project@, names));
        assert forall|name: Seq<char>| is_task_file(m, project@, name) implies (#[trigger] task_at(
            m,
            task_path_spec(project@, md_trimmed(name)),
        )) is Some by {
            assert(names.contains(name));
            let k = choose|k: int| 0 <= k < names.len() && names[k] == name;
            assert(task_at(m, task_path_spec(project@, md_trimmed(names[k]))) is Some);
        }
    }
    Ok(out)
}


/// Whether `tags` holds `tag` (no tags hold none).
pub open spec fn has_tag(tags: Option<Seq<Seq<char>>>, tag: Seq<char>) -> bool {
    tags is Some && tags.unwrap().contains(tag)
}

/// Whether `tags` holds every tag of `wanted`.
pub open spec fn has_all_tags(tags: Option<Seq<Seq<char>>>, wanted: Seq<Seq<char>>) -> bool {
    forall|i: int| 0 <= i < wanted.len() ==> #[trigger] has_tag(tags, wanted[i])
}

/// Whether `tags` holds every tag of `wanted`; see [`has_all_tags`].
pub fn matches_all_tags(tags: Option<&Vec<String>>, wanted: &Vec<String>) -> (r: bool)
    ensures
        r == has_all_tags(
            match tags {
                Some(t) => Some(t.deep_view()),
                None => None,
            },
            wanted.deep_view(),
        ),
{
    let ghost tv: Option<Seq<Seq<char>>> = match tags {
        Some(t) => Some(t.deep_view()),
        None => None,
    };
    let ghost wv = wanted.deep_view();
    let mut i: usize = 0;
    let mut ok = true;
    while i < wanted.len() && ok
        invariant
            i <= wanted.len(),
            wv.len() == wanted.len(),
            wv == wanted.deep_view(),
            tv == match tags {
                Some(t) => Some(t.deep_view()),
                None => None::<Seq<Seq<char>>>,
            },
            forall|j: int| 0 <= j < i ==> #[trigger] has_tag(tv, wv[j]),
            !ok ==> i < wanted.len() && !has_tag(tv, wv[i as int]),
        decreases wanted.len() - i, if ok { 1int } else { 0int },
    {
        assert(wv[i as int] == wanted[i as int]@);
        let found = match tags {
            Some(t) => {
                let f = crate::graph::contains_str(t, wanted[i].as_str());
                assert(tv == Some(t.deep_view()));
                assert(f == has_tag(tv, wv[i as int]));
                f
            },
            None => false,
        };
        if !found {
            ok = false;
        } else {
            i = i + 1;
        }
    }
    if !ok {
        return false;
    }
    assert(has_all_tags(tv, wv));
    true
}

/// Which tasks a listing keeps.
#[derive(Debug, Clone, Default)]
pub struct TaskFilter {
    /// A status, or all statuses; without one, the tasks that are not done
    /// or won't be done.
    pub status: Option<TaskStatusFilter>,
    /// Only this priority.
    pub priority: Option<Priority>,
    /// Only tasks with all of these tags.
    pub tags: Vec<String>,
}

/// Whether a task passes a filter.
pub open spec fn task_matches_spec(task: TaskView, filter: TaskFilter) -> bool {
    let status_ok = match filter.status {
        Some(TaskStatusFilter::All) => true,
        Some(TaskStatusFilter::Status(s)) => task.status == s,
        None => !task.status.is_terminal_spec(),
    };
    let priority_ok = match filter.priority {
        Some(p) => task.priority == p,
        None => true,
    };
    status_ok && priority_ok && has_all_tags(task.tags, filter.tags.deep_view())
}

/// Whether a task passes a filter; see [`task_matches_spec`].
pub fn task_matches(task: &Task, filter: &TaskFilter) -> (r: bool)
    ensures
        r == task_matches_spec(task@, *filter),
{
    let status_ok = match filter.status {
        Some(TaskStatusFilter::All) => true,
        Some(TaskStatusFilter::Status(s)) => task.status == s,
        None => !task.status.is_terminal(),
    };
    let priority_ok = match filter.priority {
        Some(p) => task.priority == p,
        None => true,
    };
    let tags_ok = matches_all_tags(task.tags.as_ref(), &filter.tags);
    status_ok && priority_ok && tags_ok
}

/// The tasks that pass a filter, in their order.
pub fn filter_tasks(tasks: Vec<(String, Document<Task>)>, filter: &TaskFilter) -> (r: Vec<
    (String, Document<Task>),
>)
    ensures
        task_views(r@) == task_views(tasks@).filter(
            |x: (Seq<char>, DocView<TaskView>)| task_matches_spec(x.1.frontmatter, *filter),
        ),
{
    let ghost pred = |x: (Seq<char>, DocView<TaskView>)| task_matches_spec(x.1.frontmatter, *filter);
    let ghost all = task_views(tasks@);
    let mut kept: Vec<(String, Document<Task>)> = Vec::new();
    let mut tasks = tasks;
    let mut i: usize = 0;
    while i < tasks.len()
        invariant
            i <= tasks.len(),
            all == task_views(tasks@),
            pred == (|x: (Seq<char>, DocView<TaskView>)| task_matches_spec(x.1.frontmatter, *filter)),
            task_views(kept@) == all.subrange(0, i as int).filter(pred),
        decreases tasks.len() - i,
    {
        let keep = task_matches(&tasks[i].1.frontmatter, filter);
        proof {
            let a = all.subrange(0, i as int);
            let x = all[i as int];
            assert(all.subrange(0, i + 1) =~= a + seq![x]);
            Seq::filter_distributes_over_add(a, seq![x], pred);
            reveal_with_fuel(Seq::filter, 2);
            assert(seq![x].drop_last() =~= Seq::<(Seq<char>, DocView<TaskView>)>::empty());
            assert(x == (tasks[i as int].0@, tasks[i as int].1@));
        }
        if keep {
            let ghost k0 = task_views(kept@);
            kept.push((tasks[i].0.clone(), tasks[i].1.duplicate()));
            assert(task_views(kept@) =~= k0 + seq![all[i as int]]);
        } else {
            assert(task_views(kept@) =~= task_views(kept@) + Seq::<(Seq<char>, DocView<TaskView>)>::empty());
        }
        i = i + 1;
    }
    assert(all.subrange(0, tasks.len() as int) =~= all);
    kept
}

/// What creating a task takes.
#[derive(Debug, Clone)]
pub struct CreateTask<'a> {
    pub project: &'a str,
    pub slug: &'a str,
    pub title: &'a str,
    pub priority: Priority,
    pub tags: Option<Vec<String>>,
    pub body: Option<&'a str>,
}

impl Default for CreateTask<'_> {
    fn default() -> (r: Self)
        ensures
            r.project@ == Seq::<char>::empty() && r.slug@ == Seq::<char>::empty() && r.title@
                == Seq::<char>::empty() && r.priority == Priority::Medium && r.tags is None
                && r.body is None,
    {
        proof {
            reveal_strlit("");
        }
        CreateTask { project: "", slug: "", title: "", priority: Priority::Medium, tags: None, body: None }
    }
}

/// A new task's document, created on `created`.
pub open spec fn new_task_doc(
    project: Seq<char>,
    title: Seq<char>,
    priority: Priority,
    created: Date,
    tags: Option<Seq<Seq<char>>>,
    body: Seq<char>,
) -> DocView<TaskView> {
    DocView {
        frontmatter: TaskView {
            project: project,
            title: title,
            status: TaskStatus::Open,
            priority: priority,
            created: created,
            tags: tags,
            completed: None,
            commit: None,
            review_sha: None,
            review_branch: None,
            close_reason: None,
        },
        body: body,
    }
}

/// What [`create_task`] gives: its result and, for a change, the files it leaves.
pub open spec fn create_task_post(m: Files, req: CreateTask, r: Result<Document<Task>>, m2: Files) -> bool {
    &&& (({
            let m = m;
            let tp = task_path_spec(req.project@, req.slug@);
            &&& !m.contains_key(project_md_spec(req.project@)) ==> (r matches Err(Error::ProjectNotFound(n))
                && n@ == req.project@)
            &&& m.contains_key(project_md_spec(req.project@)) && m.contains_key(tp) ==> (r matches Err(
                Error::DuplicateSlug(n),
            ) && n@ == req.slug@)
            &&& r is Err ==> m2 == m
            &&& m.contains_key(project_md_spec(req.project@)) && !m.contains_key(tp) ==> (r matches Ok(doc)
                && doc@ == new_task_doc(
                req.project@,
                req.title@,
                req.priority,
                doc@.frontmatter.created,
                req.tags.deep_view(),
                crate::ops::roadmap::body_or_empty(req.body),
            ) && m2 == m.insert(tp, EntryView::Task(doc@)))
        }))
}

/// Creates an open task dated today; the project must exist and the slug
/// must be free.
pub fn create_task(store: &mut MemoryStore, req: CreateTask<'_>) -> (r: Result<Document<Task>>)
    ensures
        create_task_post(old(store).files(), req, r, final(store).files()),
{
    let CreateTask { project, slug, title, priority, tags, body } = req;
    if !store.file_exists(&project_md_path(project)) {
        return Err(Error::ProjectNotFound(owned(project)));
    }
    if store.file_exists(&task_path(project, slug)) {
        return Err(Error::DuplicateSlug(owned(slug)));
    }
    let doc = Document {
        frontmatter: Task {
            project: owned(project),
            title: owned(title),
            status: TaskStatus::Open,
            priority,
            created: crate::clock::today(),
            tags,
            completed: None,
            commit: None,
            review_sha: None,
            review_branch: None,
            close_reason: None,
        },
        body: crate::ops::roadmap::body_text(body),
    };
    write_task(store, project, slug, &doc);
    Ok(doc)
}

/// A task's frontmatter after a status change: like a phase's (see
/// [`crate::ops::phase::phase_status_applied`]), with the review branch
/// kept beside the review SHA.
pub open spec fn task_status_applied(
    fm: TaskView,
    status: Option<TaskStatus>,
    commit: Option<Seq<char>>,
    review_sha: Option<Seq<char>>,
    review_branch: Option<Seq<char>>,
    today: Date,
) -> TaskView {
    match status {
        None => fm,
        Some(s) => if s.is_terminal_spec() && fm.status == s {
            TaskView {
                commit: match commit {
                    Some(c) => Some(c),
                    None => fm.commit,
                },
                ..fm
            }
        } else {
            TaskView {
                status: s,
                completed: if s.is_terminal_spec() {
                    Some(today)
                } else {
                    None
                },
                commit: if s.is_terminal_spec() {
                    commit
                } else {
                    None
                },
                review_sha: if s == TaskStatus::NeedsReview {
                    review_sha
                } else {
                    None
                },
                review_branch: if s == TaskStatus::NeedsReview {
                    review_branch
                } else {
                    None
                },
                ..fm
            }
        },
    }
}

/// Applies a status change to a task's frontmatter; see
/// [`task_status_applied`].
pub fn apply_task_status(
    fm: &mut Task,
    status: Option<TaskStatus>,
    commit: Option<String>,
    review_sha: Option<String>,
    review_branch: Option<String>,
    today: Date,
)
    ensures
        final(fm)@ == task_status_applied(old(fm)@, status, commit.deep_view(), review_sha.deep_view(), review_branch.deep_view(), today),
{
    match status {
        None => {},
        Some(s) => {
            if s.is_terminal() && fm.status == s {
                match commit {
                    Some(sha) => {
                        fm.commit = Some(sha);
                    },
                    None => {},
                }
            } else {
                fm.status = s;
                if s.is_terminal() {
                    fm.completed = Some(today);
                    fm.commit = commit;
                } else {
                    fm.completed = None;
                    fm.commit = None;
                }
                if s == TaskStatus::NeedsReview {
                    fm.review_sha = review_sha;
                    fm.review_branch = review_branch;
                } else {
                    fm.review_sha = None;
                    fm.review_branch = None;
                }
            }
        },
    }
}

/// The task frontmatter an update leaves, given the date it is made.
pub open spec fn task_updated(
    d: TaskView,
    title: TitleUpdate,
    status: Option<TaskStatus>,
    priority: Option<Priority>,
    tags: TagsUpdate,
    commit: Option<Seq<char>>,
    review_sha: Option<Seq<char>>,
    review_branch: Option<Seq<char>>,
    today: Date,
) -> TaskView {
    let t = TaskView {
        title: match title {
            TitleUpdate::Keep => d.title,
            TitleUpdate::SetTo(x) => x@,
        },
        ..d
    };
    let s = task_status_applied(t, status, commit, review_sha, review_branch, today);
    TaskView {
        priority: match priority {
            Some(p) => p,
            None => s.priority,
        },
        tags: match tags {
            TagsUpdate::Keep => s.tags,
            TagsUpdate::Clear => None,
            TagsUpdate::SetTo(n) => if n@.len() == 0 {
                None
            } else {
                Some(n.deep_view())
            },
        },
        ..s
    }
}

/// What [`update_task`] gives: its result and, for a change, the files it leaves.
pub open spec fn update_task_post(m: Files, project: &str, slug: &str, status: Option<TaskStatus>, priority: Option<Priority>, tags: TagsUpdate, body: BodyUpdate, commit: Option<String>, review_sha: Option<String>, review_branch: Option<String>, title: TitleUpdate, r: Result<Document<Task>>, m2: Files) -> bool {
    &&& (({
            let m = m;
            let tp = task_path_spec(project@, slug@);
            &&& !m.contains_key(tp) ==> (r matches Err(Error::TaskNotFound(n)) && n@ == slug@)
            &&& r is Err ==> m2 == m
            &&& m.contains_key(tp) && task_at(m, tp) is None ==> (r matches Err(e) && e is FrontmatterParse)
            &&& task_at(m, tp) matches Some(d) ==> (r is Ok <==> !(title matches TitleUpdate::SetTo(t) && crate::text::is_blank(t@))
                && !(body matches BodyUpdate::SetTo(n) && n@.len() == 0 && d.body.len() > 0))
            &&& task_at(m, tp) is Some && (title matches TitleUpdate::SetTo(t) && crate::text::is_blank(t@)) ==> r
                == Err::<Document<Task>, Error>(Error::EmptyTitle)
            &&& task_at(m, tp) matches Some(d) ==> (!(title matches TitleUpdate::SetTo(t) && crate::text::is_blank(t@))
                && (body matches BodyUpdate::SetTo(n) && n@.len() == 0) && d.body.len() > 0 ==> r
                == Err::<Document<Task>, Error>(Error::BodyClobberRefused))
            &&& r matches Ok(doc) ==> (task_at(m, tp) matches Some(d) && (exists|today: Date|
                crate::ops::backlog::calendar_date(today) &&
                doc@.frontmatter == #[trigger] task_updated(d.frontmatter, title, status, priority, tags, commit.deep_view(), review_sha.deep_view(), review_branch.deep_view(), today))
                && doc@.body == match body {
                    BodyUpdate::Keep => d.body,
                    BodyUpdate::Clear => Seq::<char>::empty(),
                    BodyUpdate::SetTo(n) => n@,
                } && m2 == m.insert(tp, EntryView::Task(doc@)))
        }))
}

/// Updates a task's title, status (a terminal status is dated today),
/// priority, tags and body; a blank title or an emptying body is refused.
pub fn update_task(
    store: &mut MemoryStore,
    project: &str,
    slug: &str,
    status: Option<TaskStatus>,
    priority: Option<Priority>,
    tags: TagsUpdate,
    body: BodyUpdate,
    commit: Option<String>,
    review_sha: Option<String>,
    review_branch: Option<String>,
    title: TitleUpdate,
) -> (r: Result<Document<Task>>)
    ensures
        update_task_post(old(store).files(), project, slug, status, priority, tags, body, commit, review_sha, review_branch, title, r, final(store).files()),
{
    if !store.file_exists(&task_path(project, slug)) {
        return Err(Error::TaskNotFound(owned(slug)));
    }
    let mut doc = load_task(store, project, slug)?;
    let ghost d0 = doc@;
    let ghost cv = commit.deep_view();
    let ghost rv = review_sha.deep_view();
    let ghost bv = review_branch.deep_view();
    let ghost tu = title;
    let ghost tg = tags;
    title.apply(&mut doc.frontmatter.title)?;
    let today = crate::clock::today();
    apply_task_status(&mut doc.frontmatter, status, commit, review_sha, review_branch, today);
    match priority {
        Some(p) => {
            doc.frontmatter.priority = p;
        },
        None => {},
    }
    tags.apply(&mut doc.frontmatter.tags);
    body.apply(&mut doc.body)?;
    assert(doc@.frontmatter == task_updated(d0.frontmatter, tu, status, priority, tg, cv, rv, bv, today));
    write_task(store, project, slug, &doc);
    Ok(doc)
}

/// What [`set_task_close_reason`] gives: its result and, for a change, the files it leaves.
pub open spec fn set_task_close_reason_post(m: Files, project: &str, slug: &str, reason: ReasonUpdate, r: Result<Document<Task>>, m2: Files) -> bool {
    &&& (({
            let m = m;
            let tp = task_path_spec(project@, slug@);
            &&& !m.contains_key(tp) ==> (r matches Err(Error::TaskNotFound(n)) && n@ == slug@)
            &&& r is Err ==> m2 == m
            &&& m.contains_key(tp) ==> match task_at(m, tp) {
                None => (r matches Err(e) && e is FrontmatterParse),
                Some(d) => (r matches Ok(doc) && doc@ == DocView {
                    frontmatter: TaskView {
                        close_reason: match reason {
                            ReasonUpdate::Keep => d.frontmatter.close_reason,
                            ReasonUpdate::SetTo(t) => Some(t@),
                            ReasonUpdate::Clear => None,
                        },
                        ..d.frontmatter
                    },
                    ..d
                } && m2 == m.insert(tp, EntryView::Task(doc@))),
            }
        }))
}

/// Sets, keeps or clears a task's close reason.
pub fn set_task_close_reason(store: &mut MemoryStore, project: &str, slug: &str, reason: ReasonUpdate) -> (r:
    Result<Document<Task>>)
    ensures
        set_task_close_reason_post(old(store).files(), project, slug, reason, r, final(store).files()),
{
    if !store.file_exists(&task_path(project, slug)) {
        return Err(Error::TaskNotFound(owned(slug)));
    }
    let mut doc = load_task(store, project, slug)?;
    reason.apply(&mut doc.frontmatter.close_reason);
    write_task(store, project, slug, &doc);
    Ok(doc)
}

/// `parts` joined with `sep` between them.
pub open spec fn joined(parts: Seq<Seq<char>>, sep: Seq<char>) -> Seq<char>
    decreases parts.len(),
{
    if parts.len() == 0 {
        Seq::empty()
    } else if parts.len() == 1 {
        parts[0]
    } else {
        joined(parts.drop_last(), sep) + sep + parts.last()
    }
}

/// `parts` joined with `sep` between them; see [`joined`].
pub fn join_strings(parts: &Vec<String>, sep: &str) -> (r: String)
    ensures
        r@ == joined(parts.deep_view(), sep@),
{
    let mut out = String::new();
    let mut i: usize = 0;
    while i < parts.len()
        invariant
            i <= parts.len(),
            out@ == joined(parts.deep_view().subrange(0, i as int), sep@),
        decreases parts.len() - i,
    {
        let ghost pre = parts.deep_view().subrange(0, i + 1);
        assert(pre.drop_last() =~= parts.deep_view().subrange(0, i as int));
        assert(pre.last() == parts[i as int]@);
        if i > 0 {
            out.append(sep);
        } else {
            assert(out@ =~= Seq::<char>::empty());
        }
        out.append(parts[i].as_str());
        i = i + 1;
    }
    assert(parts.deep_view().subrange(0, parts.len() as int) =~= parts.deep_view());
    out
}

/// The body of a roadmap promoted from a task: where it came from, with the
/// task's priority, creation date and tags.
pub open spec fn promoted_body(slug: Seq<char>, t: TaskView) -> Seq<char> {
    "Promoted from task `"@ + slug + "` (priority: "@ + t.priority.name_spec() + ", created: "@
        + t.created.iso_spec() + ")"@ + (match t.tags {
        Some(ts) => ", tags: "@ + joined(ts, ", "@),
        None => Seq::empty(),
    }) + "\n"@
}

/// The roadmap a task is promoted to.
pub open spec fn promoted_roadmap(
    project: Seq<char>,
    task_slug: Seq<char>,
    roadmap_slug: Seq<char>,
    t: TaskView,
) -> DocView<RoadmapView> {
    DocView {
        frontmatter: RoadmapView {
            project: project,
            roadmap: roadmap_slug,
            title: t.title,
            phases: seq![phase_stem_spec(1, task_slug)],
            dependencies: None,
            priority: None,
            tags: None,
        },
        body: promoted_body(task_slug, t),
    }
}

/// The single phase of a roadmap promoted from a task.
pub open spec fn promoted_phase(t: DocView<TaskView>) -> DocView<PhaseView> {
    DocView {
        frontmatter: PhaseView {
            phase: 1,
            title: t.frontmatter.title,
            status: PhaseStatus::NotStarted,
            tags: t.frontmatter.tags,
            completed: None,
            commit: None,
            review_sha: None,
            review_branch: None,
            difficulty: None,
            model: None,
            blocked_reason: None,
        },
        body: t.body,
    }
}

proof fn lemma_task_path_not_roadmap(project: Seq<char>, slug: Seq<char>, roadmap: Seq<char>, stem: Seq<char>)
    ensures
        task_path_spec(project, slug) != roadmap_path_spec(project, roadmap),
        task_path_spec(project, slug) != phase_path_spec(project, roadmap, stem),
{
    reveal_strlit("projects/");
    reveal_strlit("/");
    reveal_strlit("tasks");
    reveal_strlit("roadmaps");
    let pre = in_project(project, Seq::empty());
    let a = task_path_spec(project, slug);
    let b = roadmap_path_spec(project, roadmap);
    let c = phase_path_spec(project, roadmap, stem);
    assert(a =~= pre + ("tasks"@ + "/"@ + slug + ".md"@));
    assert(b =~= pre + ("roadmaps"@ + "/"@ + roadmap + "/roadmap.md"@));
    assert(c =~= pre + ("roadmaps"@ + "/"@ + roadmap + "/"@ + stem + ".md"@));
    assert(a[pre.len() as int] == 't');
    assert(b[pre.len() as int] == 'r');
    assert(c[pre.len() as int] == 'r');
}

/// What [`promote_task`] gives: its result and, for a change, the files it leaves.
pub open spec fn promote_task_post(m: Files, project: &str, task_slug: &str, roadmap_slug: &str, r: Result<Document<Roadmap>>, m2: Files) -> bool {
    &&& (({
            let m = m;
            let tp = task_path_spec(project@, task_slug@);
            let rp = roadmap_path_spec(project@, roadmap_slug@);
            &&& !m.contains_key(tp) ==> (r matches Err(Error::TaskNotFound(n)) && n@ == task_slug@)
            &&& m.contains_key(tp) && task_at(m, tp) is None ==> (r matches Err(e) && e is FrontmatterParse)
            &&& task_at(m, tp) is Some && m.contains_key(rp) ==> (r matches Err(Error::DuplicateSlug(n)) && n@ == roadmap_slug@)
            &&& r is Err ==> m2 == m
            &&& task_at(m, tp) matches Some(t) ==> (!m.contains_key(rp) ==> (r matches Ok(doc)
                && doc@ == promoted_roadmap(project@, task_slug@, roadmap_slug@, t.frontmatter)
                && m2 == m.insert(rp, EntryView::Roadmap(doc@)).insert(
                phase_path_spec(project@, roadmap_slug@, phase_stem_spec(1, task_slug@)),
                EntryView::Phase(promoted_phase(t)),
            ).remove(tp)))
        }))
}

/// Turns a task into a roadmap of its own with one phase that carries the
/// task's title, tags and body, and deletes the task.
pub fn promote_task(store: &mut MemoryStore, project: &str, task_slug: &str, roadmap_slug: &str) -> (r:
    Result<Document<Roadmap>>)
    ensures
        promote_task_post(old(store).files(), project, task_slug, roadmap_slug, r, final(store).files()),
{
    let tpath = task_path(project, task_slug);
    if !store.file_exists(&tpath) {
        return Err(Error::TaskNotFound(owned(task_slug)));
    }
    let task_doc = load_task(store, project, task_slug)?;
    if store.file_exists(&roadmap_path(project, roadmap_slug)) {
        return Err(Error::DuplicateSlug(owned(roadmap_slug)));
    }
    let phase_slug = phase_stem(1, task_slug);
    let mut body = cat3("Promoted from task `", task_slug, "` (priority: ");
    body.append(task_doc.frontmatter.priority.as_str());
    body.append(", created: ");
    let created = task_doc.frontmatter.created.to_iso();
    body.append(created.as_str());
    body.append(")");
    match &task_doc.frontmatter.tags {
        Some(tags) => {
            body.append(", tags: ");
            let j = join_strings(tags, ", ");
            body.append(j.as_str());
        },
        None => {},
    }
    body.append("\n");
    assert(body@ =~= promoted_body(task_slug@, task_doc@.frontmatter));
    let mut phases: Vec<String> = Vec::new();
    phases.push(phase_slug.clone());
    let roadmap_doc = Document {
        frontmatter: Roadmap {
            project: owned(project),
            roadmap: owned(roadmap_slug),
            title: task_doc.frontmatter.title.clone(),
            phases,
            dependencies: None,
            priority: None,
            tags: None,
        },
        body,
    };
    assert(roadmap_doc@.frontmatter.phases =~= seq![phase_stem_spec(1, task_slug@)]);
    crate::io::write_roadmap(store, project, roadmap_slug, &roadmap_doc);
    let phase_doc = Document {
        frontmatter: Phase {
            phase: 1,
            title: task_doc.frontmatter.title.clone(),
            status: PhaseStatus::NotStarted,
            tags: crate::model::copy_opt_strings(&task_doc.frontmatter.tags),
            completed: None,
            commit: None,
            review_sha: None,
            review_branch: None,
            difficulty: None,
            model: None,
            blocked_reason: None,
        },
        body: task_doc.body.clone(),
    };
    crate::io::write_phase(store, project, roadmap_slug, phase_slug.as_str(), &phase_doc);
    proof {
        lemma_task_path_not_roadmap(project@, task_slug@, roadmap_slug@, phase_slug@);
    }
    let _ = store.delete(&tpath);
    Ok(roadmap_doc)
}

/// The body of the phase a task is consolidated into.
pub open spec fn consolidated_phase_body(task_slug: Seq<char>, source: Seq<char>) -> Seq<char> {
    "Consolidated from task `"@ + task_slug + "`.\n\n"@ + source
}

/// The body a consolidated task keeps: its own, with where it went.
pub open spec fn consolidated_task_body(body: Seq<char>, roadmap: Seq<char>, stem: Seq<char>) -> Seq<char> {
    body + "\n\nConsolidated into roadmap `"@ + roadmap + "` as `"@ + stem + "`."@
}

/// What [`consolidate_task_into_roadmap`] gives: its result and, for a change, the files it leaves.
pub open spec fn consolidate_task_into_roadmap_post(m: Files, project: &str, task_slug: &str, roadmap_slug: &str, body_override: Option<&str>, r: Result<(Document<Phase>, Document<Task>)>, m2: Files) -> bool {
    &&& (({
            let m = m;
            let tp = task_path_spec(project@, task_slug@);
            &&& !m.contains_key(tp) ==> (r matches Err(Error::TaskNotFound(n)) && n@ == task_slug@
                && m2 == m)
            &&& m.contains_key(tp) && task_at(m, tp) is None ==> (r matches Err(e) && e is FrontmatterParse
                && m2 == m)
            &&& task_at(m, tp) matches Some(t) ==> (t.frontmatter.status.is_terminal_spec() ==> (r matches Err(
                Error::TaskAlreadyConsolidated(n),
            ) && n@ == task_slug@ && m2 == m))
            &&& r matches Ok((phase, task)) ==> (task_at(m, tp) matches Some(t) && !t.frontmatter.status.is_terminal_spec()
                && phase@.frontmatter.title == t.frontmatter.title && phase@.frontmatter.tags == t.frontmatter.tags
                && phase@.body == consolidated_phase_body(task_slug@, match body_override {
                    Some(b) => b@,
                    None => t.body,
                }) && task@.frontmatter.status == TaskStatus::Done && task@.body == consolidated_task_body(
                t.body,
                roadmap_slug@,
                phase_stem_spec(phase@.frontmatter.phase, task_slug@),
            ) && task_at(m2, tp) == Some(task@) && (crate::io::roadmap_at(m, roadmap_path_spec(project@, roadmap_slug@)) matches Some(d)
                && crate::io::roadmap_at(m2, roadmap_path_spec(project@, roadmap_slug@)) == Some(DocView {
                    frontmatter: RoadmapView {
                        phases: d.frontmatter.phases.push(phase_stem_spec(phase@.frontmatter.phase, task_slug@)),
                        ..d.frontmatter
                    },
                    ..d
                })) && crate::io::phase_at(m2, phase_path_spec(project@, roadmap_slug@, phase_stem_spec(phase@.frontmatter.phase, task_slug@))) == Some(phase@))
            &&& task_at(m, tp) matches Some(t) ==> (!t.frontmatter.status.is_terminal_spec()
                && !m.contains_key(roadmap_path_spec(project@, roadmap_slug@)) ==> (r matches Err(
                Error::RoadmapNotFound(n),
            ) && n@ == roadmap_slug@ && m2 == m))
            &&& task_at(m, tp) matches Some(t) ==> (!t.frontmatter.status.is_terminal_spec()
                && crate::io::roadmap_at(m, roadmap_path_spec(project@, roadmap_slug@)) is Some
                && crate::ops::phase::phases_ok(m, project@, roadmap_slug@) ==> forall|n: int|
                #[trigger] crate::ops::phase::is_next_number(m, project@, roadmap_slug@, n) && n <= u32::MAX
                && !m.contains_key(phase_path_spec(project@, roadmap_slug@, phase_stem_spec(n as u32, task_slug@)))
                ==> r is Ok)
        }))
}

/// Moves an open task into a roadmap as a new last phase (with the task's
/// title and tags, and its body or `body_override`), then marks the task
/// done with a pointer to the phase.
pub fn consolidate_task_into_roadmap(
    store: &mut MemoryStore,
    project: &str,
    task_slug: &str,
    roadmap_slug: &str,
    body_override: Option<&str>,
) -> (r: Result<(Document<Phase>, Document<Task>)>)
    ensures
        consolidate_task_into_roadmap_post(old(store).files(), project, task_slug, roadmap_slug, body_override, r, final(store).files()),
{
    if !store.file_exists(&task_path(project, task_slug)) {
        return Err(Error::TaskNotFound(owned(task_slug)));
    }
    let task_doc = load_task(store, project, task_slug)?;
    if task_doc.frontmatter.status.is_terminal() {
        return Err(Error::TaskAlreadyConsolidated(owned(task_slug)));
    }
    let source_body: &str = match body_override {
        Some(b) => b,
        None => task_doc.body.as_str(),
    };
    let mut phase_body = cat3("Consolidated from task `", task_slug, "`.\n\n");
    phase_body.append(source_body);
    let phase_doc = crate::ops::phase::create_phase(
        store,
        project,
        roadmap_slug,
        task_slug,
        task_doc.frontmatter.title.as_str(),
        None,
        Some(phase_body.as_str()),
        crate::model::copy_opt_strings(&task_doc.frontmatter.tags),
    )?;
    let stem = phase_stem(phase_doc.frontmatter.phase, task_slug);
    proof {
        lemma_task_path_not_roadmap(project@, task_slug@, roadmap_slug@, stem@);
    }
    let mut pointer = cat3(task_doc.body.as_str(), "\n\nConsolidated into roadmap `", roadmap_slug);
    pointer.append("` as `");
    pointer.append(stem.as_str());
    pointer.append("`.");
    proof {
        reveal_strlit("`.");
        assert(pointer@.len() > 0);
    }
    let ghost pv = pointer@;
    let updated = update_task(
        store,
        project,
        task_slug,
        Some(TaskStatus::Done),
        None,
        TagsUpdate::Keep,
        BodyUpdate::SetTo(pointer),
        None,
        None,
        None,
        TitleUpdate::Keep,
    )?;
    Ok((phase_doc, updated))
}

/// The names of `s`, each once, in the order they first appear.
pub open spec fn dedup(s: Seq<Seq<char>>) -> Seq<Seq<char>>
    decreases s.len(),
{
    if s.len() == 0 {
        Seq::empty()
    } else {
        let d = dedup(s.drop_last());
        if d.contains(s.last()) {
            d
        } else {
            d.push(s.last())
        }
    }
}

proof fn lemma_dedup_contains(s: Seq<Seq<char>>)
    ensures
        forall|x: Seq<char>| dedup(s).contains(x) <==> s.contains(x),
    decreases s.len(),
{
    if s.len() > 0 {
        lemma_dedup_contains(s.drop_last());
        assert forall|x: Seq<char>| dedup(s).contains(x) <==> s.contains(x) by {
            let d = dedup(s.drop_last());
            if s.contains(x) {
                let k = choose|k: int| 0 <= k < s.len() && s[k] == x;
                if k < s.len() - 1 {
                    assert(s.drop_last()[k] == x);
                    assert(s.drop_last().contains(x));
                    assert(d.contains(x));
                    if !d.contains(s.last()) {
                        let j = choose|j: int| 0 <= j < d.len() && d[j] == x;
                        assert(d.push(s.last())[j] == x);
                    }
                } else if !d.contains(s.last()) {
                    assert(d.push(s.last())[d.len() as int] == x);
                }
            }
            if dedup(s).contains(x) {
                if d.contains(x) {
                    assert(s.drop_last().contains(x));
                    let k = choose|k: int| 0 <= k < s.drop_last().len() && s.drop_last()[k] == x;
                    assert(s[k] == x);
                } else {
                    let j = choose|j: int| 0 <= j < dedup(s).len() && dedup(s)[j] == x;
                    assert(j == d.len());
                    assert(s[s.len() - 1] == x);
                }
            }
        }
    }
}

/// The close reason of a task merged into `survivor`.
pub open spec fn superseded_reason(survivor: Seq<char>) -> Seq<char> {
    "superseded by task/"@ + survivor
}

/// Whether source `d` is already folded into the survivor whose close
/// reason is `reason`: closed, with that reason.
pub open spec fn already_merged(d: DocView<TaskView>, reason: Seq<char>) -> bool {
    d.frontmatter.status.is_terminal_spec() && d.frontmatter.close_reason == Some(reason)
}

/// Whether file `p` of `m` holds a task already folded in with close reason `reason`.
pub open spec fn merged_at(m: Files, p: Seq<char>, reason: Seq<char>) -> bool {
    task_at(m, p) matches Some(x) && already_merged(x, reason)
}

/// `acc` followed by each name of `add` it does not hold yet, in order.
pub open spec fn tag_union(acc: Seq<Seq<char>>, add: Seq<Seq<char>>) -> Seq<Seq<char>>
    decreases add.len(),
{
    if add.len() == 0 {
        acc
    } else {
        let a = tag_union(acc, add.drop_last());
        if a.contains(add.last()) {
            a
        } else {
            a.push(add.last())
        }
    }
}

/// A tag list, or none.
pub open spec fn tags_or_empty(t: Option<Seq<Seq<char>>>) -> Seq<Seq<char>> {
    match t {
        Some(v) => v,
        None => Seq::empty(),
    }
}

/// What the survivor's body gains from source `source` with body `body`.
pub open spec fn merged_section(source: Seq<char>, body: Seq<char>) -> Seq<char> {
    if is_blank(body) {
        "\n\n## Merged from task `"@ + source + "`"@
    } else {
        "\n\n## Merged from task `"@ + source + "`\n\n"@ + body
    }
}

/// The survivor's tags and body, starting from `tags` and `body`, after
/// folding in each source of `names` (as `m` holds it) that is not already
/// folded in.
pub open spec fn merged(
    m: Files,
    project: Seq<char>,
    names: Seq<Seq<char>>,
    reason: Seq<char>,
    tags: Seq<Seq<char>>,
    body: Seq<char>,
) -> (Seq<Seq<char>>, Seq<char>)
    decreases names.len(),
{
    if names.len() == 0 {
        (tags, body)
    } else {
        let prev = merged(m, project, names.drop_last(), reason, tags, body);
        let d = task_at(m, task_path_spec(project, names.last())).unwrap();
        if already_merged(d, reason) {
            prev
        } else {
            (
                tag_union(prev.0, tags_or_empty(d.frontmatter.tags)),
                prev.1 + merged_section(names.last(), d.body),
            )
        }
    }
}

/// The sources of `names` that a merge folds in: those not already folded.
pub open spec fn folded(m: Files, project: Seq<char>, names: Seq<Seq<char>>, reason: Seq<char>) -> Seq<
    Seq<char>,
> {
    names.filter(|n: Seq<char>| !already_merged(task_at(m, task_path_spec(project, n)).unwrap(), reason))
}

/// A tag list as a task's frontmatter holds it: none when empty.
pub open spec fn tags_field(t: Seq<Seq<char>>) -> Option<Seq<Seq<char>>> {
    if t.len() == 0 {
        None
    } else {
        Some(t)
    }
}

/// What [`merge_tasks`] gives: its result and, for a change, the files it leaves.
pub open spec fn merge_tasks_post(m: Files, project: &str, survivor: &str, sources: &[String], r: Result<(Document<Task>, Vec<Document<Task>>)>, m2: Files) -> bool {
    &&& (({
            let m = m;
            let names = dedup(sources@.map_values(|x: String| x@));
            let sp = task_path_spec(project@, survivor@);
            let reason = superseded_reason(survivor@);
            &&& names.len() == 0 ==> (r matches Err(e) && e is TaskMergeNoSources)
            &&& names.len() > 0 && names.contains(survivor@) ==> (r matches Err(Error::TaskMergeIntoSelf(n))
                && n@ == survivor@)
            &&& names.len() > 0 && !names.contains(survivor@) && !m.contains_key(sp) ==> (r matches Err(
                Error::TaskNotFound(n),
            ) && n@ == survivor@)
            &&& names.len() > 0 && !names.contains(survivor@) && m.contains_key(sp) ==> forall|i: int|
                0 <= i < names.len() && !m.contains_key(#[trigger] task_path_spec(project@, names[i]))
                && (forall|j: int| 0 <= j < i ==> m.contains_key(#[trigger] task_path_spec(project@, names[j])))
                ==> (r matches Err(Error::TaskNotFound(n)) && n@ == names[i])
            &&& (names.len() == 0 || names.contains(survivor@) || !m.contains_key(sp) || exists|i: int|
                0 <= i < names.len() && !m.contains_key(#[trigger] task_path_spec(project@, names[i]))) ==> m2 == m
            &&& names.len() > 0 && !names.contains(survivor@) && task_at(m, sp) is Some && (forall|i: int|
                0 <= i < names.len() ==> (#[trigger] task_at(m, task_path_spec(project@, names[i]))) is Some)
                ==> r is Ok
            &&& names.len() > 0 && !names.contains(survivor@) && m.contains_key(sp) && task_at(m, sp) is None
                && (forall|i: int| 0 <= i < names.len() ==> m.contains_key(#[trigger] task_path_spec(project@, names[i])))
                ==> (r matches Err(e) && e is FrontmatterParse && m2 == m)
            &&& names.len() > 0 && !names.contains(survivor@) && task_at(m, sp) is Some
                && (forall|i: int| 0 <= i < names.len() ==> m.contains_key(#[trigger] task_path_spec(project@, names[i])))
                ==> forall|i: int|
                0 <= i < names.len() && (#[trigger] task_at(m, task_path_spec(project@, names[i]))) is None
                && (forall|j: int| 0 <= j < i ==> (#[trigger] task_at(m, task_path_spec(project@, names[j]))) is Some)
                ==> {
                    &&& r matches Err(e) && e is FrontmatterParse
                    &&& task_at(m2, sp) == task_at(m, sp)
                    &&& forall|j: int| 0 <= j < i ==> #[trigger] merged_at(m2, task_path_spec(project@, names[j]), reason)
                    &&& forall|j: int| i <= j < names.len() ==> #[trigger] task_at(m2, task_path_spec(project@, names[j]))
                        == task_at(m, task_path_spec(project@, names[j]))
                }
            &&& r matches Ok((s, closed)) ==> task_at(m, sp) matches Some(d) && {
                let mt = merged(m, project@, names, reason, tags_or_empty(d.frontmatter.tags), d.body);
                let f = folded(m, project@, names, reason);
                &&& s@ == DocView { frontmatter: TaskView { tags: tags_field(mt.0), ..d.frontmatter }, body: mt.1 }
                &&& task_at(m2, sp) == Some(s@)
                &&& closed.len() == f.len()
                &&& forall|k: int| 0 <= k < closed.len() ==> (#[trigger] closed[k])@.frontmatter.status
                    == TaskStatus::WontFix && closed[k]@.frontmatter.close_reason == Some(reason)
                    && task_at(m2, task_path_spec(project@, f[k])) == Some(closed[k]@)
                &&& forall|i: int| 0 <= i < names.len() ==> #[trigger] merged_at(m2, task_path_spec(project@, names[i]), reason)
            }
        }))
}

/// Folding in one more source adds it to the folded ones exactly when it is
/// not already folded in.
proof fn lemma_folded_push(m: Files, project: Seq<char>, pre: Seq<Seq<char>>, x: Seq<char>, reason: Seq<char>)
    ensures
        folded(m, project, pre.push(x), reason) == if already_merged(task_at(m, task_path_spec(project, x)).unwrap(), reason) {
            folded(m, project, pre, reason)
        } else {
            folded(m, project, pre, reason).push(x)
        },
{
    reveal(Seq::filter);
    assert(pre.push(x).drop_last() =~= pre);
}

/// Task files of different slugs are different files.
proof fn lemma_task_paths_differ(project: Seq<char>, a: Seq<char>, b: Seq<char>)
    requires
        a != b,
    ensures
        task_path_spec(project, a) != task_path_spec(project, b),
{
    let pre = tasks_dir_spec(project) + "/"@;
    let pa = task_path_spec(project, a);
    let pb = task_path_spec(project, b);
    assert(pa =~= pre + (a + ".md"@));
    assert(pb =~= pre + (b + ".md"@));
    if pa == pb {
        assert((a + ".md"@) =~= pa.subrange(pre.len() as int, pa.len() as int));
        assert((b + ".md"@) =~= pb.subrange(pre.len() as int, pb.len() as int));
        assert(a.len() == b.len());
        assert(a =~= (a + ".md"@).subrange(0, a.len() as int));
        assert(b =~= (b + ".md"@).subrange(0, b.len() as int));
    }
}

/// The distinct names of `dedup(s)`.
proof fn lemma_dedup_distinct(s: Seq<Seq<char>>)
    ensures
        forall|i: int, j: int| 0 <= i < j < dedup(s).len() ==> dedup(s)[i] != dedup(s)[j],
    decreases s.len(),
{
    if s.len() > 0 {
        lemma_dedup_distinct(s.drop_last());
        let d = dedup(s.drop_last());
        if !d.contains(s.last()) {
            assert forall|i: int, j: int| 0 <= i < j < dedup(s).len() implies dedup(s)[i] != dedup(s)[j] by {
                if j == d.len() {
                    assert(dedup(s)[i] == d[i]);
                    if d[i] == s.last() {
                        assert(d.contains(s.last()));
                    }
                } else {
                    assert(dedup(s)[i] == d[i] && dedup(s)[j] == d[j]);
                }
            }
        }
    }
}

/// With every source already folded in, merging leaves the tags and the
/// body as they were and folds in nothing.
proof fn lemma_merged_all_done(
    m: Files,
    project: Seq<char>,
    names: Seq<Seq<char>>,
    reason: Seq<char>,
    tags: Seq<Seq<char>>,
    body: Seq<char>,
)
    requires
        forall|i: int| 0 <= i < names.len() ==> #[trigger] merged_at(m, task_path_spec(project, names[i]), reason),
    ensures
        merged(m, project, names, reason, tags, body) == (tags, body),
        folded(m, project, names, reason).len() == 0,
    decreases names.len(),
{
    reveal(Seq::filter);
    if names.len() > 0 {
        assert forall|i: int| 0 <= i < names.drop_last().len() implies #[trigger] merged_at(m, task_path_spec(project, names.drop_last()[i]), reason) by {
            assert(names.drop_last()[i] == names[i]);
        }
        lemma_merged_all_done(m, project, names.drop_last(), reason, tags, body);
        assert(merged_at(m, task_path_spec(project, names[names.len() - 1]), reason));
    }
}

/// Merging the same sources into the same survivor a second time folds in
/// nothing and leaves the survivor's tags and body as the first merge left
/// them.
pub proof fn lemma_merge_again(
    m: Files,
    project: &str,
    survivor: &str,
    sources: &[String],
    first: (Document<Task>, Vec<Document<Task>>),
    m1: Files,
    second: Result<(Document<Task>, Vec<Document<Task>>)>,
    m2: Files,
)
    requires
        merge_tasks_post(m, project, survivor, sources, Ok(first), m1),
        merge_tasks_post(m1, project, survivor, sources, second, m2),
    ensures
        second matches Ok((s2, closed2)) && closed2.len() == 0
            && s2@.frontmatter.tags == first.0@.frontmatter.tags && s2@.body == first.0@.body,
{
    let names = dedup(sources@.map_values(|x: String| x@));
    let reason = superseded_reason(survivor@);
    let sp = task_path_spec(project@, survivor@);
    let s1 = first.0@;
    assert(names.len() > 0 && !names.contains(survivor@)) by {
        if names.len() == 0 || names.contains(survivor@) {
            assert(false);
        }
    }
    assert(task_at(m1, sp) == Some(s1));
    assert forall|i: int| 0 <= i < names.len() implies (#[trigger] task_at(m1, task_path_spec(project@, names[i]))) is Some by {
        assert(merged_at(m1, task_path_spec(project@, names[i]), reason));
    }
    assert(m1.contains_key(sp));
    lemma_merged_all_done(m1, project@, names, reason, tags_or_empty(s1.frontmatter.tags), s1.body);
    let d = task_at(m, sp).unwrap();
    let mt = merged(m, project@, names, reason, tags_or_empty(d.frontmatter.tags), d.body);
    assert(s1.frontmatter.tags == tags_field(mt.0));
    if mt.0.len() == 0 {
        assert(tags_or_empty(s1.frontmatter.tags) =~= Seq::<Seq<char>>::empty());
    }
}

/// Folds tasks into `survivor`: each named source (once, in the order first
/// named) adds its tags and its body, under a heading, to the survivor and
/// is closed as won't-do with a pointer to the survivor; a source already
/// closed that way is skipped. The survivor and every source must exist
/// before anything is written.
pub fn merge_tasks(store: &mut MemoryStore, project: &str, survivor: &str, sources: &[String]) -> (r:
    Result<(Document<Task>, Vec<Document<Task>>)>)
    ensures
        merge_tasks_post(old(store).files(), project, survivor, sources, r, final(store).files()),
{
    let ghost src = sources@.map_values(|x: String| x@);
    let mut deduped: Vec<String> = Vec::new();
    let mut i: usize = 0;
    while i < sources.len()
        invariant
            i <= sources.len(),
            src == sources@.map_values(|x: String| x@),
            deduped.deep_view() == dedup(src.subrange(0, i as int)),
        decreases sources.len() - i,
    {
        let ghost pre = src.subrange(0, i + 1);
        assert(pre.drop_last() =~= src.subrange(0, i as int));
        assert(pre.last() == sources@[i as int]@);
        if !crate::graph::contains_str(&deduped, sources[i].as_str()) {
            let ghost d0 = deduped.deep_view();
            deduped.push(sources[i].clone());
            assert(deduped.deep_view() =~= d0.push(sources@[i as int]@));
        }
        i = i + 1;
    }
    assert(src.subrange(0, sources.len() as int) =~= src);
    let ghost names = deduped.deep_view();
    assert(names == dedup(sources@.map_values(|x: String| x@)));
    proof {
        lemma_dedup_distinct(src);
    }
    if deduped.len() == 0 {
        return Err(Error::TaskMergeNoSources);
    }
    if crate::graph::contains_str(&deduped, survivor) {
        return Err(Error::TaskMergeIntoSelf(owned(survivor)));
    }
    if !store.file_exists(&task_path(project, survivor)) {
        return Err(Error::TaskNotFound(owned(survivor)));
    }
    let mut k: usize = 0;
    let mut missing = false;
    while k < deduped.len() && !missing
        invariant
            k <= deduped.len(),
            names == deduped.deep_view(),
            forall|j: int| 0 <= j < k ==> store.files().contains_key(#[trigger] task_path_spec(project@, names[j])),
            missing ==> k < deduped.len() && !store.files().contains_key(task_path_spec(project@, names[k as int])),
        decreases deduped.len() - k, if missing { 0int } else { 1int },
    {
        assert(names[k as int] == deduped[k as int]@);
        if !store.file_exists(&task_path(project, deduped[k].as_str())) {
            missing = true;
        } else {
            k = k + 1;
        }
    }
    if missing {
        assert(names[k as int] == deduped[k as int]@);
        assert(!store.files().contains_key(task_path_spec(project@, names[k as int])));
        assert(task_at(store.files(), task_path_spec(project@, names[k as int])) is None);
        proof {
            let m = store.files();
            assert forall|i2: int|
                0 <= i2 < names.len() && !m.contains_key(#[trigger] task_path_spec(project@, names[i2]))
                && (forall|j: int| 0 <= j < i2 ==> m.contains_key(#[trigger] task_path_spec(project@, names[j])))
                implies names[i2] == names[k as int] by {
                if i2 < k {
                } else if i2 > k {
                    assert(m.contains_key(task_path_spec(project@, names[k as int])));
                }
            }
        }
        return Err(Error::TaskNotFound(deduped[k].clone()));
    }
    let survivor_doc = load_task(store, project, survivor)?;
    let ghost sd = survivor_doc@;
    let mut tags: Vec<String> = match &survivor_doc.frontmatter.tags {
        Some(t) => crate::model::copy_strings(t),
        None => Vec::new(),
    };
    let mut body = survivor_doc.body.clone();
    let reason = cat("superseded by task/", survivor);
    let mut closed: Vec<Document<Task>> = Vec::new();
    let ghost m = old(store).files();
    let ghost t0 = tags_or_empty(sd.frontmatter.tags);
    let ghost b0 = sd.body;
    let ghost rs = superseded_reason(survivor@);
    assert(tags.deep_view() == t0);
    assert(names.subrange(0, 0) =~= Seq::<Seq<char>>::empty());
    proof {
        reveal(Seq::filter);
    }
    let mut a: usize = 0;
    while a < deduped.len()
        invariant
            a <= deduped.len(),
            names == deduped.deep_view(),
            names == dedup(sources@.map_values(|x: String| x@)),
            forall|i2: int, j2: int| 0 <= i2 < j2 < names.len() ==> names[i2] != names[j2],
            names.len() > 0,
            !names.contains(survivor@),
            m == old(store).files(),
            task_at(m, task_path_spec(project@, survivor@)) == Some(sd),
            task_at(store.files(), task_path_spec(project@, survivor@)) == Some(sd),
            forall|j: int| 0 <= j < names.len() ==> m.contains_key(#[trigger] task_path_spec(project@, names[j])),
            forall|j: int| a <= j < names.len() ==> store.files().contains_key(#[trigger] task_path_spec(project@, names[j]))
                && task_at(store.files(), task_path_spec(project@, names[j])) == task_at(m, task_path_spec(project@, names[j])),
            forall|j: int| 0 <= j < a ==> #[trigger] merged_at(store.files(), task_path_spec(project@, names[j]), rs),
            forall|j: int| 0 <= j < a ==> (#[trigger] task_at(m, task_path_spec(project@, names[j]))) is Some,
            reason@ == rs,
            rs == superseded_reason(survivor@),
            (tags.deep_view(), body@) == merged(m, project@, names.subrange(0, a as int), rs, t0, b0),
            body@.len() >= b0.len(),
            closed.len() == folded(m, project@, names.subrange(0, a as int), rs).len(),
            forall|q: int|
                0 <= q < closed.len() ==> (#[trigger] closed[q])@.frontmatter.status == TaskStatus::WontFix
                    && closed[q]@.frontmatter.close_reason == Some(rs)
                    && task_at(store.files(), task_path_spec(project@, folded(m, project@, names.subrange(0, a as int), rs)[q])) == Some(closed[q]@),
        decreases deduped.len() - a,
    {
        let source = deduped[a].as_str();
        assert(names[a as int] == source@);
        let ghost pre = names.subrange(0, a as int);
        let ghost pre1 = names.subrange(0, a + 1);
        assert(pre1.drop_last() =~= pre);
        assert(pre1.last() == source@);
        let ghost sp_a = task_path_spec(project@, source@);
        let ghost fpre = folded(m, project@, pre, rs);
        let source_doc = load_task(store, project, source)?;
        assert(task_at(m, sp_a) == Some(source_doc@));
        let skip = source_doc.frontmatter.status.is_terminal() && match &source_doc.frontmatter.close_reason {
            Some(c) => crate::text::str_eq(c.as_str(), reason.as_str()),
            None => false,
        };
        assert(skip == already_merged(source_doc@, rs));
        proof {
            assert(pre1 =~= pre.push(source@));
            lemma_folded_push(m, project@, pre, source@, rs);
            assert(folded(m, project@, pre1, rs) == if skip { fpre } else { fpre.push(source@) });
            lemma_task_paths_differ(project@, survivor@, source@);
        }
        let ghost st_before = store.files();
        if !skip {
            let ghost tb = tags.deep_view();
            match &source_doc.frontmatter.tags {
                Some(st) => {
                    let mut b: usize = 0;
                    while b < st.len()
                        invariant
                            b <= st.len(),
                            tags.deep_view() == tag_union(tb, st.deep_view().subrange(0, b as int)),
                        decreases st.len() - b,
                    {
                        let ghost sub = st.deep_view().subrange(0, b + 1);
                        assert(sub.drop_last() =~= st.deep_view().subrange(0, b as int));
                        assert(sub.last() == st[b as int]@);
                        if !crate::graph::contains_str(&tags, st[b].as_str()) {
                            let ghost g0 = tags.deep_view();
                            tags.push(st[b].clone());
                            assert(tags.deep_view() =~= g0.push(st[b as int]@));
                        }
                        b = b + 1;
                    }
                    assert(st.deep_view().subrange(0, st.len() as int) =~= st.deep_view());
                },
                None => {},
            }
            assert(tags.deep_view() == tag_union(tb, tags_or_empty(source_doc@.frontmatter.tags)));
            let ghost body0 = body@;
            if crate::text::blank(source_doc.body.as_str()) {
                body.append("\n\n## Merged from task `");
                body.append(source);
                body.append("`");
                assert(body@ =~= body0 + merged_section(source@, source_doc@.body));
            } else {
                body.append("\n\n## Merged from task `");
                body.append(source);
                body.append("`\n\n");
                body.append(source_doc.body.as_str());
                assert(body@ =~= body0 + merged_section(source@, source_doc@.body));
            }
            let mut pointer = cat(source_doc.body.as_str(), "\n\nSuperseded by task `");
            pointer.append(survivor);
            pointer.append("`.");
            proof {
                reveal_strlit("`.");
                assert(pointer@.len() > 0);
            }
            let ghost before_update = store.files();
            update_task(
                store,
                project,
                source,
                Some(TaskStatus::WontFix),
                None,
                TagsUpdate::Keep,
                BodyUpdate::SetTo(pointer),
                None,
                None,
                None,
                TitleUpdate::Keep,
            )?;
            let ghost before = store.files();
            let closed_doc = set_task_close_reason(store, project, source, ReasonUpdate::SetTo(reason.clone()))?;
            proof {
                let tp = task_path_spec(project@, source@);
                let d = task_at(before, tp).unwrap();
                assert(d.frontmatter.status == TaskStatus::WontFix) by {
                    let today = choose|today: Date| d.frontmatter == #[trigger] task_updated(
                        source_doc@.frontmatter, TitleUpdate::Keep, Some(TaskStatus::WontFix), None, TagsUpdate::Keep, None, None, None, today);
                }
                assert(already_merged(closed_doc@, rs));
            }
            let ghost c0 = closed@;
            closed.push(closed_doc);
            proof {
                let f1 = folded(m, project@, pre1, rs);
                assert(f1 == fpre.push(source@));
                assert forall|q: int| 0 <= q < closed.len() implies (#[trigger] closed[q])@.frontmatter.status == TaskStatus::WontFix
                    && closed[q]@.frontmatter.close_reason == Some(rs)
                    && task_at(store.files(), task_path_spec(project@, f1[q])) == Some(closed[q]@) by {
                    if q < c0.len() {
                        assert(closed[q] == c0[q]);
                        assert(f1[q] == fpre[q]);
                        assert(fpre.contains(fpre[q]));
                        assert(pre.contains(fpre[q])) by {
                            let pred = |n: Seq<char>| !already_merged(task_at(m, task_path_spec(project@, n)).unwrap(), rs);
                            pre.lemma_filter_contains_rev(pred, fpre[q]);
                        }
                        let j = choose|j: int| 0 <= j < pre.len() && pre[j] == fpre[q];
                        assert(names[j] == pre[j]);
                        lemma_task_paths_differ(project@, names[j], source@);
                    }
                }
            }
        } else {
            assert(closed.len() == folded(m, project@, pre1, rs).len());
        }
        proof {
            assert forall|j: int| 0 <= j < names.len() && j != a implies task_at(store.files(), #[trigger] task_path_spec(project@, names[j]))
                == task_at(st_before, task_path_spec(project@, names[j])) && store.files().contains_key(task_path_spec(project@, names[j]))
                    == st_before.contains_key(task_path_spec(project@, names[j])) by {
                lemma_task_paths_differ(project@, names[j], source@);
            }
            assert forall|j: int| 0 <= j < a + 1 implies #[trigger] merged_at(store.files(), task_path_spec(project@, names[j]), rs) by {
                if j < a {
                    assert(merged_at(st_before, task_path_spec(project@, names[j]), rs));
                    assert(task_at(store.files(), task_path_spec(project@, names[j])) == task_at(st_before, task_path_spec(project@, names[j])));
                }
            }
        }
        a = a + 1;
    }
    assert(names.subrange(0, names.len() as int) =~= names);
    let ghost mt = merged(m, project@, names, rs, t0, b0);
    let ghost before_final = store.files();
    let survivor_updated = update_task(
        store,
        project,
        survivor,
        None,
        None,
        TagsUpdate::SetTo(tags),
        BodyUpdate::SetTo(body),
        None,
        None,
        None,
        TitleUpdate::Keep,
    )?;
    proof {
        let sp = task_path_spec(project@, survivor@);
        assert(survivor_updated@.frontmatter =~= TaskView { tags: tags_field(mt.0), ..sd.frontmatter });
        let f = folded(m, project@, names, rs);
        assert forall|q: int| 0 <= q < closed.len() implies task_path_spec(project@, f[q]) != sp by {
            let pred = |n: Seq<char>| !already_merged(task_at(m, task_path_spec(project@, n)).unwrap(), rs);
            assert(f.contains(f[q]));
            names.lemma_filter_contains_rev(pred, f[q]);
            lemma_task_paths_differ(project@, f[q], survivor@);
        }
        assert forall|i2: int| 0 <= i2 < names.len() implies #[trigger] merged_at(store.files(), task_path_spec(project@, names[i2]), rs) by {
            lemma_task_paths_differ(project@, names[i2], survivor@);
            assert(merged_at(before_final, task_path_spec(project@, names[i2]), rs));
        }
    }
    Ok((survivor_updated, closed))
}

} // verus!
