//! Creating, listing and editing projects.
use vstd::prelude::*;

use crate::error::{Error, Result};
use crate::io::{load_project, project_at, write_project};
use crate::model::{opt_source_view, DocView, Document, Project, ProjectView, Source};
use crate::paths::{project_md_path, project_md_spec};
use crate::sorted::{sort_unique, strictly_sorted};
use crate::store::{listed, DirEntryKind, EntryView, Files, MemoryStore, RelPath};
use crate::text::owned;

verus! {

/// A new project's document: its name and title, no source, an empty body.
pub open spec fn new_project_doc(name: Seq<char>, title: Seq<char>) -> DocView<ProjectView> {
    DocView {
        frontmatter: ProjectView { name: name, title: title, source: None },
        body: Seq::empty(),
    }
}

/// What [`create_project`] gives: its result and, for a change, the files it leaves.
pub open spec fn create_project_post(m: Files, name: &str, title: &str, r: Result< Document<Project>, >, m2: Files) -> bool {
    &&& (m.contains_key(project_md_spec(name@)) ==> (r matches Err(
            Error::DuplicateSlug(n),
        ) && n@ == name@ && m2 == m))
    &&& (!m.contains_key(project_md_spec(name@)) ==> (r matches Ok(doc) && doc@
            == new_project_doc(name@, title@) && m2 == m.insert(
            project_md_spec(name@),
            EntryView::Project(doc@),
        )))
}

/// Creates a project; [`Error::DuplicateSlug`] when it already exists.
pub fn create_project(store: &mut MemoryStore, name: &str, title: &str) -> (r: Result<
    Document<Project>,
>)
    ensures
        create_project_post(old(store).files(), name, title, r, final(store).files()),
{
    let md_path = project_md_path(name);
    if store.file_exists(&md_path) {
        return Err(Error::DuplicateSlug(owned(name)));
    }
    let doc = Document {
        frontmatter: Project { name: owned(name), title: owned(title), source: None },
        body: String::new(),
    };
    write_project(store, name, &doc);
    Ok(doc)
}

/// What [`list_projects`] gives: its result and, for a change, the files it leaves.
pub open spec fn list_projects_post(m: Files, r: Result<Vec<String>>) -> bool {
    &&& (r matches Ok(names) && strictly_sorted(names.deep_view()) && forall|n: Seq<char>|
            names.deep_view().contains(n) <==> listed(
                m,
                "projects"@,
                n,
                DirEntryKind::Dir,
            ))
}

/// The names of the projects, each once, in lexicographic order: the
/// directories under `projects/`.
pub fn list_projects(store: &MemoryStore) -> (r: Result<Vec<String>>)
    ensures
        list_projects_post(store.files(), r),
{
    let dir = RelPath::from_string(owned("projects"));
    let entries = store.list(&dir);
    let mut names: Vec<String> = Vec::new();
    let mut i: usize = 0;
    while i < entries.len()
        invariant
            i <= entries.len(),
            forall|n: Seq<char>|
                names.deep_view().contains(n) <==> exists|j: int|
                    0 <= j < i && entries[j].name@ == n && entries[j].kind == DirEntryKind::Dir,
        decreases entries.len() - i,
    {
        if entries[i].kind == DirEntryKind::Dir {
            let ghost before = names.deep_view();
            names.push(entries[i].name.clone());
            assert(names.deep_view() =~= before.push(entries[i as int].name@));
            assert forall|n: Seq<char>| names.deep_view().contains(n) <==> exists|j: int|
                0 <= j < i + 1 && entries[j].name@ == n && entries[j].kind == DirEntryKind::Dir by {
                if names.deep_view().contains(n) && n != entries[i as int].name@ {
                    let k = choose|k: int| 0 <= k < names.deep_view().len() && names.deep_view()[k] == n;
                    assert(before[k] == n);
                    assert(before.contains(n));
                }
                if n == entries[i as int].name@ {
                    assert(names.deep_view()[before.len() as int] == n);
                } else if exists|j: int|
                    0 <= j < i + 1 && entries[j].name@ == n && entries[j].kind == DirEntryKind::Dir {
                    let j = choose|j: int| 0 <= j < i + 1 && entries[j].name@ == n && entries[j].kind == DirEntryKind::Dir;
                    assert(j < i);
                    assert(before.contains(n));
                    let k = choose|k: int| 0 <= k < before.len() && before[k] == n;
                    assert(names.deep_view()[k] == n);
                }
            }
        } else {
            assert forall|n: Seq<char>| (exists|j: int|
                0 <= j < i + 1 && entries[j].name@ == n && entries[j].kind == DirEntryKind::Dir) implies names.deep_view().contains(n) by {
                let j = choose|j: int| 0 <= j < i + 1 && entries[j].name@ == n && entries[j].kind == DirEntryKind::Dir;
                assert(j < i);
            }
        }
        i = i + 1;
    }
    let sorted = sort_unique(&names);
    Ok(sorted)
}

/// What [`update_project_source`] gives: its result and, for a change, the files it leaves.
pub open spec fn update_project_source_post(m: Files, name: &str, source: Option<Source>, r: Result<Document<Project>>, m2: Files) -> bool {
    &&& (!m.contains_key(project_md_spec(name@)) ==> (r matches Err(
            Error::ProjectNotFound(n),
        ) && n@ == name@))
    &&& (r is Err ==> m2 == m)
    &&& (m.contains_key(project_md_spec(name@)) ==> match project_at(
            m,
            project_md_spec(name@),
        ) {
            Some(d) => (r matches Ok(doc) && doc@ == DocView {
                frontmatter: ProjectView { source: opt_source_view(source), ..d.frontmatter },
                ..d
            } && m2 == m.insert(
                project_md_spec(name@),
                EntryView::Project(doc@),
            )),
            None => (r matches Err(e) && e is FrontmatterParse),
        })
}

/// Sets or clears a project's source repository, keeping the rest of its
/// document.
pub fn update_project_source(store: &mut MemoryStore, name: &str, source: Option<Source>) -> (r:
    Result<Document<Project>>)
    ensures
        update_project_source_post(old(store).files(), name, source, r, final(store).files()),
{
    let mut doc = load_project(store, name)?;
    doc.frontmatter.source = source;
    write_project(store, name, &doc);
    Ok(doc)
}

} // verus!
