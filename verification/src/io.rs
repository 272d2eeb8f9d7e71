//! Typed reads and writes of the documents a plan repo holds.
use vstd::prelude::*;

use crate::error::{Error, Result};
use crate::model::{DocView, Document, Phase, PhaseView, Plan, PlanView, Project, ProjectView, Review, ReviewView, Roadmap, RoadmapView, Run, RunView, Task, TaskView};
use crate::paths::{
    phase_path, phase_path_spec, plan_path, plan_path_spec, project_md_path, project_md_spec, review_path,
    review_path_spec, roadmap_path, roadmap_path_spec, run_path, run_path_spec, task_path, task_path_spec,
};
use crate::store::{Entry, EntryView, Files, MemoryStore, RelPath};
use crate::text::{cat, contains_char, has_char, owned, str_eq};

verus! {

/// The roadmap document stored at `path`, if that file holds one.
pub open spec fn roadmap_at(m: Files, path: Seq<char>) -> Option<DocView<RoadmapView>> {
    if m.contains_key(path) {
        match m[path] {
            EntryView::Roadmap(d) => Some(d),
            _ => None,
        }
    } else {
        None
    }
}

/// The phase document stored at `path`, if that file holds one.
pub open spec fn phase_at(m: Files, path: Seq<char>) -> Option<DocView<PhaseView>> {
    if m.contains_key(path) {
        match m[path] {
            EntryView::Phase(d) => Some(d),
            _ => None,
        }
    } else {
        None
    }
}

/// The task document stored at `path`, if that file holds one.
pub open spec fn task_at(m: Files, path: Seq<char>) -> Option<DocView<TaskView>> {
    if m.contains_key(path) {
        match m[path] {
            EntryView::Task(d) => Some(d),
            _ => None,
        }
    } else {
        None
    }
}

/// The project document stored at `path`, if that file holds one.
pub open spec fn project_at(m: Files, path: Seq<char>) -> Option<DocView<ProjectView>> {
    if m.contains_key(path) {
        match m[path] {
            EntryView::Project(d) => Some(d),
            _ => None,
        }
    } else {
        None
    }
}

/// A project's document; [`Error::ProjectNotFound`] when there is no file,
/// [`Error::FrontmatterParse`] when the file holds something else.
pub fn load_project(store: &MemoryStore, name: &str) -> (r: Result<Document<Project>>)
    ensures
        !store.files().contains_key(project_md_spec(name@)) ==> (r matches Err(
            Error::ProjectNotFound(n),
        ) && n@ == name@),
        store.files().contains_key(project_md_spec(name@)) ==> match project_at(
            store.files(),
            project_md_spec(name@),
        ) {
            Some(d) => (r matches Ok(doc) && doc@ == d),
            None => (r matches Err(e) && e is FrontmatterParse),
        },
{
    let path = project_md_path(name);
    match store.get(&path) {
        None => Err(Error::ProjectNotFound(owned(name))),
        Some(Entry::Project(d)) => Ok(d.duplicate()),
        Some(_) => Err(Error::FrontmatterParse(cat("not a project document: ", path.as_str()))),
    }
}

/// A roadmap's document; [`Error::RoadmapNotFound`] when there is no file,
/// [`Error::FrontmatterParse`] when the file holds something else.
pub fn load_roadmap(store: &MemoryStore, project: &str, roadmap: &str) -> (r: Result<
    Document<Roadmap>,
>)
    ensures
        !store.files().contains_key(roadmap_path_spec(project@, roadmap@)) ==> (r matches Err(
            Error::RoadmapNotFound(n),
        ) && n@ == roadmap@),
        store.files().contains_key(roadmap_path_spec(project@, roadmap@)) ==> match roadmap_at(
            store.files(),
            roadmap_path_spec(project@, roadmap@),
        ) {
            Some(d) => (r matches Ok(doc) && doc@ == d),
            None => (r matches Err(e) && e is FrontmatterParse),
        },
{
    let path = roadmap_path(project, roadmap);
    match store.get(&path) {
        None => Err(Error::RoadmapNotFound(owned(roadmap))),
        Some(Entry::Roadmap(d)) => Ok(d.duplicate()),
        Some(_) => Err(Error::FrontmatterParse(cat("not a roadmap document: ", path.as_str()))),
    }
}

/// A phase's document by its stem; [`Error::Io`] when there is no file,
/// [`Error::FrontmatterParse`] when the file holds something else.
pub fn load_phase(store: &MemoryStore, project: &str, roadmap: &str, stem: &str) -> (r: Result<
    Document<Phase>,
>)
    ensures
        !store.files().contains_key(phase_path_spec(project@, roadmap@, stem@)) ==> (r matches Err(
            e,
        ) && e is Io),
        store.files().contains_key(phase_path_spec(project@, roadmap@, stem@)) ==> match phase_at(
            store.files(),
            phase_path_spec(project@, roadmap@, stem@),
        ) {
            Some(d) => (r matches Ok(doc) && doc@ == d),
            None => (r matches Err(e) && e is FrontmatterParse),
        },
{
    let path = phase_path(project, roadmap, stem);
    match store.get(&path) {
        None => Err(Error::Io(cat("no such file: ", path.as_str()))),
        Some(Entry::Phase(d)) => Ok(d.duplicate()),
        Some(_) => Err(Error::FrontmatterParse(cat("not a phase document: ", path.as_str()))),
    }
}

/// A task's document; [`Error::TaskNotFound`] when there is no file,
/// [`Error::FrontmatterParse`] when the file holds something else.
pub fn load_task(store: &MemoryStore, project: &str, slug: &str) -> (r: Result<Document<Task>>)
    ensures
        !store.files().contains_key(task_path_spec(project@, slug@)) ==> (r matches Err(
            Error::TaskNotFound(n),
        ) && n@ == slug@),
        store.files().contains_key(task_path_spec(project@, slug@)) ==> match task_at(
            store.files(),
            task_path_spec(project@, slug@),
        ) {
            Some(d) => (r matches Ok(doc) && doc@ == d),
            None => (r matches Err(e) && e is FrontmatterParse),
        },
{
    let path = task_path(project, slug);
    match store.get(&path) {
        None => Err(Error::TaskNotFound(owned(slug))),
        Some(Entry::Task(d)) => Ok(d.duplicate()),
        Some(_) => Err(Error::FrontmatterParse(cat("not a task document: ", path.as_str()))),
    }
}

/// The roadmap document at `path`; [`Error::Io`] when there is no file,
/// [`Error::FrontmatterParse`] when the file holds something else.
pub fn load_roadmap_file(store: &MemoryStore, path: &RelPath) -> (r: Result<Document<Roadmap>>)
    ensures
        !store.files().contains_key(path@) ==> (r matches Err(e) && e is Io),
        store.files().contains_key(path@) ==> match roadmap_at(store.files(), path@) {
            Some(d) => (r matches Ok(doc) && doc@ == d),
            None => (r matches Err(e) && e is FrontmatterParse),
        },
{
    match store.get(path) {
        None => Err(Error::Io(cat("no such file: ", path.as_str()))),
        Some(Entry::Roadmap(d)) => Ok(d.duplicate()),
        Some(_) => Err(Error::FrontmatterParse(cat("not a roadmap document: ", path.as_str()))),
    }
}

/// The phase document at `path`; [`Error::Io`] when there is no file,
/// [`Error::FrontmatterParse`] when the file holds something else.
pub fn load_phase_file(store: &MemoryStore, path: &RelPath) -> (r: Result<Document<Phase>>)
    ensures
        !store.files().contains_key(path@) ==> (r matches Err(e) && e is Io),
        store.files().contains_key(path@) ==> match phase_at(store.files(), path@) {
            Some(d) => (r matches Ok(doc) && doc@ == d),
            None => (r matches Err(e) && e is FrontmatterParse),
        },
{
    match store.get(path) {
        None => Err(Error::Io(cat("no such file: ", path.as_str()))),
        Some(Entry::Phase(d)) => Ok(d.duplicate()),
        Some(_) => Err(Error::FrontmatterParse(cat("not a phase document: ", path.as_str()))),
    }
}

/// Stores a project's document.
pub fn write_project(store: &mut MemoryStore, name: &str, doc: &Document<Project>)
    ensures
        final(store).files() == old(store).files().insert(
            project_md_spec(name@),
            EntryView::Project(doc@),
        ),
{
    store.put(&project_md_path(name), Entry::Project(doc.duplicate()));
}

/// Stores a roadmap's document.
pub fn write_roadmap(store: &mut MemoryStore, project: &str, roadmap: &str, doc: &Document<Roadmap>)
    ensures
        final(store).files() == old(store).files().insert(
            roadmap_path_spec(project@, roadmap@),
            EntryView::Roadmap(doc@),
        ),
{
    store.put(&roadmap_path(project, roadmap), Entry::Roadmap(doc.duplicate()));
}

/// Stores a phase's document under its stem.
pub fn write_phase(
    store: &mut MemoryStore,
    project: &str,
    roadmap: &str,
    stem: &str,
    doc: &Document<Phase>,
)
    ensures
        final(store).files() == old(store).files().insert(
            phase_path_spec(project@, roadmap@, stem@),
            EntryView::Phase(doc@),
        ),
{
    store.put(&phase_path(project, roadmap, stem), Entry::Phase(doc.duplicate()));
}

/// Stores a task's document.
pub fn write_task(store: &mut MemoryStore, project: &str, slug: &str, doc: &Document<Task>)
    ensures
        final(store).files() == old(store).files().insert(
            task_path_spec(project@, slug@),
            EntryView::Task(doc@),
        ),
{
    store.put(&task_path(project, slug), Entry::Task(doc.duplicate()));
}


/// The review document stored at `path`, if that file holds one.
pub open spec fn review_at(m: Files, path: Seq<char>) -> Option<DocView<ReviewView>> {
    if m.contains_key(path) {
        match m[path] {
            EntryView::Review(d) => Some(d),
            _ => None,
        }
    } else {
        None
    }
}

/// A review's document by its id; [`Error::ReviewNotFound`] when there is no
/// file, [`Error::FrontmatterParse`] when the file holds something else.
pub fn load_review(store: &MemoryStore, project: &str, id: &str) -> (r: Result<Document<Review>>)
    ensures
        !store.files().contains_key(review_path_spec(project@, id@)) ==> (r matches Err(
            Error::ReviewNotFound(n),
        ) && n@ == id@),
        store.files().contains_key(review_path_spec(project@, id@)) ==> match review_at(
            store.files(),
            review_path_spec(project@, id@),
        ) {
            Some(d) => (r matches Ok(doc) && doc@ == d),
            None => (r matches Err(e) && e is FrontmatterParse),
        },
{
    let path = review_path(project, id);
    match store.get(&path) {
        None => Err(Error::ReviewNotFound(owned(id))),
        Some(Entry::Review(d)) => Ok(d.duplicate()),
        Some(_) => Err(Error::FrontmatterParse(cat("not a review document: ", path.as_str()))),
    }
}

/// Stores a review's document under its id.
pub fn write_review(store: &mut MemoryStore, project: &str, id: &str, doc: &Document<Review>)
    ensures
        final(store).files() == old(store).files().insert(
            review_path_spec(project@, id@),
            EntryView::Review(doc@),
        ),
{
    store.put(&review_path(project, id), Entry::Review(doc.duplicate()));
}

/// The run document stored at `path`, if that file holds one.
pub open spec fn run_at(m: Files, path: Seq<char>) -> Option<DocView<RunView>> {
    if m.contains_key(path) {
        match m[path] {
            EntryView::Run(d) => Some(d),
            _ => None,
        }
    } else {
        None
    }
}

/// Whether `name` is a single path component: not empty, not `.` or `..`,
/// and with no `/` or `\\` in it.
pub open spec fn single_component(name: Seq<char>) -> bool {
    &&& name.len() > 0
    &&& name != "."@
    &&& name != ".."@
    &&& !has_char(name, '/')
    &&& !has_char(name, '\\')
}

/// Whether `name` is a single path component; see [`single_component`].
pub fn is_single_component(name: &str) -> (r: bool)
    ensures
        r == single_component(name@),
{
    proof {
        reveal_strlit(".");
        reveal_strlit("..");
    }
    name.unicode_len() > 0 && !str_eq(name, ".") && !str_eq(name, "..") && !contains_char(name, '/')
        && !contains_char(name, '\\')
}

/// A run's document by its id; [`Error::RunNotFound`] when the id is no
/// single path component or there is no file, [`Error::FrontmatterParse`]
/// when the file holds something else.
pub fn load_run(store: &MemoryStore, project: &str, id: &str) -> (r: Result<Document<Run>>)
    ensures
        !single_component(id@) || !store.files().contains_key(run_path_spec(project@, id@)) ==> (r matches Err(
            Error::RunNotFound(n),
        ) && n@ == id@),
        single_component(id@) && store.files().contains_key(run_path_spec(project@, id@)) ==> match run_at(
            store.files(),
            run_path_spec(project@, id@),
        ) {
            Some(d) => (r matches Ok(doc) && doc@ == d),
            None => (r matches Err(e) && e is FrontmatterParse),
        },
{
    if !is_single_component(id) {
        return Err(Error::RunNotFound(owned(id)));
    }
    let path = run_path(project, id);
    match store.get(&path) {
        None => Err(Error::RunNotFound(owned(id))),
        Some(Entry::Run(d)) => Ok(d.duplicate()),
        Some(_) => Err(Error::FrontmatterParse(cat("not a run document: ", path.as_str()))),
    }
}

/// Stores a run's document under its id; an id that is no single path
/// component is refused with [`Error::RunNotFound`] and nothing is written.
pub fn write_run(store: &mut MemoryStore, project: &str, id: &str, doc: &Document<Run>) -> (r: Result<()>)
    ensures
        !single_component(id@) ==> (r matches Err(Error::RunNotFound(n)) && n@ == id@ && final(store).files()
            == old(store).files()),
        single_component(id@) ==> r is Ok && final(store).files() == old(store).files().insert(
            run_path_spec(project@, id@),
            EntryView::Run(doc@),
        ),
{
    if !is_single_component(id) {
        return Err(Error::RunNotFound(owned(id)));
    }
    store.put(&run_path(project, id), Entry::Run(doc.duplicate()));
    Ok(())
}

/// The plan document stored at `path`, if that file holds one.
pub open spec fn plan_at(m: Files, path: Seq<char>) -> Option<DocView<PlanView>> {
    if m.contains_key(path) {
        match m[path] {
            EntryView::Plan(d) => Some(d),
            _ => None,
        }
    } else {
        None
    }
}

/// A plan's document by its slug; [`Error::PlanNotFound`] when there is no
/// file, [`Error::FrontmatterParse`] when the file holds something else.
pub fn load_plan(store: &MemoryStore, project: &str, slug: &str) -> (r: Result<Document<Plan>>)
    ensures
        !store.files().contains_key(plan_path_spec(project@, slug@)) ==> (r matches Err(
            Error::PlanNotFound(n),
        ) && n@ == slug@),
        store.files().contains_key(plan_path_spec(project@, slug@)) ==> match plan_at(
            store.files(),
            plan_path_spec(project@, slug@),
        ) {
            Some(d) => (r matches Ok(doc) && doc@ == d),
            None => (r matches Err(e) && e is FrontmatterParse),
        },
{
    let path = plan_path(project, slug);
    match store.get(&path) {
        None => Err(Error::PlanNotFound(owned(slug))),
        Some(Entry::Plan(d)) => Ok(d.duplicate()),
        Some(_) => Err(Error::FrontmatterParse(cat("not a plan document: ", path.as_str()))),
    }
}

/// Stores a plan's document under its slug.
pub fn write_plan(store: &mut MemoryStore, project: &str, slug: &str, doc: &Document<Plan>)
    ensures
        final(store).files() == old(store).files().insert(plan_path_spec(project@, slug@), EntryView::Plan(doc@)),
{
    store.put(&plan_path(project, slug), Entry::Plan(doc.duplicate()));
}

} // verus!
