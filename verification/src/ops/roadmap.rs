//! Roadmap operations: create, update, list, dependencies, delete, archive,
//! unarchive and split.
use vstd::prelude::*;

use crate::error::{Error, Result};
use crate::graph::{acyclic, edge, has_cycle, lemma_added_edge_keeps_acyclic, lemma_fewer_edges_acyclic, lemma_with_edge, reaches, with_edge, Graph};
use crate::io::{load_roadmap, roadmap_at, write_roadmap};
use crate::model::{
    opt_priority_rank, opt_priority_rank_exec, DocView, Document, Phase, PhaseStatus, PhaseView, Priority,
    Roadmap, RoadmapSort, RoadmapView,
};
use crate::paths::{
    archived_roadmap_dir, archived_roadmap_dir_spec, archived_roadmap_path, archived_roadmaps_dir,
    archived_roadmaps_dir_spec,
    archived_roadmap_path_spec, phase_path_spec, project_md_path, project_md_spec, roadmap_dir, roadmap_dir_spec,
    roadmap_path, roadmap_path_spec, roadmaps_dir, roadmaps_dir_spec,
};
use crate::sorted::{sort_unique, strictly_sorted};
use crate::store::{child_of, copied_under, listed, without_under, DirEntryKind, EntryView, Files, MemoryStore};
use crate::text::{has_char, is_prefix, owned, seq_lt, str_lt, lemma_seq_lt_trans, lemma_seq_lt_asym};

verus! {

/// Whether `slug` names a roadmap of `project`: a directory under the
/// project's roadmaps that holds a `roadmap.md`.
pub open spec fn is_roadmap_slug(m: Files, project: Seq<char>, slug: Seq<char>) -> bool {
    listed(m, roadmaps_dir_spec(project), slug, DirEntryKind::Dir) && m.contains_key(
        roadmap_path_spec(project, slug),
    )
}

/// Whether `slugs` lists the roadmaps of `project`, each once, in slug order.
pub open spec fn enumerates(m: Files, project: Seq<char>, slugs: Seq<Seq<char>>) -> bool {
    strictly_sorted(slugs) && forall|x: Seq<char>|
        slugs.contains(x) <==> is_roadmap_slug(m, project, x)
}

/// Whether each listed roadmap file holds a roadmap document.
pub open spec fn all_roadmaps(m: Files, project: Seq<char>, slugs: Seq<Seq<char>>) -> bool {
    forall|i: int| 0 <= i < slugs.len() ==> (#[trigger] roadmap_at(m, roadmap_path_spec(project, slugs[i]))) is Some
}

/// The roadmap documents of `slugs`, in order.
pub open spec fn roadmap_docs(m: Files, project: Seq<char>, slugs: Seq<Seq<char>>) -> Seq<
    DocView<RoadmapView>,
> {
    slugs.map_values(|s: Seq<char>| roadmap_at(m, roadmap_path_spec(project, s)).unwrap())
}

/// The views of a list of roadmap documents.
pub open spec fn roadmap_views(v: Seq<Document<Roadmap>>) -> Seq<DocView<RoadmapView>> {
    v.map_values(|d: Document<Roadmap>| d@)
}

/// Whether `a` comes strictly before `b` in priority order: higher priority
/// first, unprioritized last, ties by the roadmap's slug.
pub open spec fn priority_before(a: DocView<RoadmapView>, b: DocView<RoadmapView>) -> bool {
    opt_priority_rank(a.frontmatter.priority) > opt_priority_rank(b.frontmatter.priority) || (
    opt_priority_rank(a.frontmatter.priority) == opt_priority_rank(b.frontmatter.priority)
        && seq_lt(a.frontmatter.roadmap, b.frontmatter.roadmap))
}

/// Whether no document comes before one listed ahead of it.
pub open spec fn priority_sorted(s: Seq<DocView<RoadmapView>>) -> bool {
    forall|i: int, j: int| 0 <= i < j < s.len() ==> !priority_before(#[trigger] s[j], #[trigger] s[i])
}

/// The documents whose priority is `filter`, or all of them without one.
pub open spec fn with_priority(s: Seq<DocView<RoadmapView>>, filter: Option<Priority>) -> Seq<
    DocView<RoadmapView>,
> {
    s.filter(|d: DocView<RoadmapView>| filter is None || d.frontmatter.priority == filter)
}

/// A new roadmap's document.
pub open spec fn new_roadmap_doc(
    project: Seq<char>,
    slug: Seq<char>,
    title: Seq<char>,
    body: Seq<char>,
    priority: Option<Priority>,
) -> DocView<RoadmapView> {
    DocView {
        frontmatter: RoadmapView {
            project: project,
            roadmap: slug,
            title: title,
            phases: Seq::empty(),
            dependencies: None,
            priority: priority,
            tags: None,
        },
        body: body,
    }
}

/// The text of an optional body, empty when there is none.
pub open spec fn body_or_empty(body: Option<&str>) -> Seq<char> {
    match body {
        Some(b) => b@,
        None => Seq::empty(),
    }
}

pub(crate) fn body_text(body: Option<&str>) -> (r: String)
    ensures
        r@ == body_or_empty(body),
{
    match body {
        Some(b) => owned(b),
        None => String::new(),
    }
}

/// What [`create_roadmap`] gives: its result and, for a change, the files it leaves.
pub open spec fn create_roadmap_post(m: Files, project: &str, slug: &str, title: &str, body: Option<&str>, priority: Option<Priority>, r: Result<Document<Roadmap>>, m2: Files) -> bool {
    &&& (!m.contains_key(project_md_spec(project@)) ==> (r matches Err(
            Error::ProjectNotFound(n),
        ) && n@ == project@))
    &&& (m.contains_key(project_md_spec(project@)) && m.contains_key(roadmap_path_spec(project@, slug@)) ==> (r matches Err(
            Error::DuplicateSlug(n),
        ) && n@ == slug@))
    &&& (r is Err ==> m2 == m)
    &&& (m.contains_key(project_md_spec(project@)) && !m.contains_key(roadmap_path_spec(project@, slug@)) ==> (r matches Ok(doc) && doc@
            == new_roadmap_doc(project@, slug@, title@, body_or_empty(body), priority) && m2 == m.insert(
            roadmap_path_spec(project@, slug@),
            EntryView::Roadmap(doc@),
        )))
}

/// Creates a roadmap with no phases; the project must exist and the slug
/// must be free.
pub fn create_roadmap(
    store: &mut MemoryStore,
    project: &str,
    slug: &str,
    title: &str,
    body: Option<&str>,
    priority: Option<Priority>,
) -> (r: Result<Document<Roadmap>>)
    ensures
        create_roadmap_post(old(store).files(), project, slug, title, body, priority, r, final(store).files()),
{
    if !store.file_exists(&project_md_path(project)) {
        return Err(Error::ProjectNotFound(owned(project)));
    }
    if store.file_exists(&roadmap_path(project, slug)) {
        return Err(Error::DuplicateSlug(owned(slug)));
    }
    let doc = Document {
        frontmatter: Roadmap {
            project: owned(project),
            roadmap: owned(slug),
            title: owned(title),
            phases: Vec::new(),
            dependencies: None,
            priority,
            tags: None,
        },
        body: body_text(body),
    };
    assert(doc@.frontmatter.phases =~= Seq::<Seq<char>>::empty());
    write_roadmap(store, project, slug, &doc);
    Ok(doc)
}

/// What [`update_roadmap`] gives: its result and, for a change, the files it leaves.
pub open spec fn update_roadmap_post(m: Files, project: &str, slug: &str, body: Option<&str>, priority: Option<Option<Priority>>, r: Result<Document<Roadmap>>, m2: Files) -> bool {
    &&& (!m.contains_key(roadmap_path_spec(project@, slug@)) ==> (r matches Err(
            Error::RoadmapNotFound(n),
        ) && n@ == slug@))
    &&& (r is Err ==> m2 == m)
    &&& (m.contains_key(roadmap_path_spec(project@, slug@)) ==> match roadmap_at(
            m,
            roadmap_path_spec(project@, slug@),
        ) {
            Some(d) => (r matches Ok(doc) && doc@ == DocView {
                frontmatter: RoadmapView {
                    priority: match priority {
                        Some(p) => p,
                        None => d.frontmatter.priority,
                    },
                    ..d.frontmatter
                },
                body: match body {
                    Some(b) => b@,
                    None => d.body,
                },
            } && m2 == m.insert(
                roadmap_path_spec(project@, slug@),
                EntryView::Roadmap(doc@),
            )),
            None => (r matches Err(e) && e is FrontmatterParse),
        })
}

/// Replaces a roadmap's body and/or priority (`Some(None)` clears it).
pub fn update_roadmap(
    store: &mut MemoryStore,
    project: &str,
    slug: &str,
    body: Option<&str>,
    priority: Option<Option<Priority>>,
) -> (r: Result<Document<Roadmap>>)
    ensures
        update_roadmap_post(old(store).files(), project, slug, body, priority, r, final(store).files()),
{
    let mut doc = load_roadmap(store, project, slug)?;
    match body {
        Some(b) => {
            doc.body = owned(b);
        },
        None => {},
    }
    match priority {
        Some(p) => {
            doc.frontmatter.priority = p;
        },
        None => {},
    }
    write_roadmap(store, project, slug, &doc);
    Ok(doc)
}

/// The roadmap slugs of a project in slug order, each with its document.
fn roadmap_entries(store: &MemoryStore, project: &str) -> (r: Result<
    (Vec<String>, Vec<Document<Roadmap>>),
>)
    ensures
        r matches Ok((slugs, docs)) ==> enumerates(store.files(), project@, slugs.deep_view())
            && all_roadmaps(store.files(), project@, slugs.deep_view()) && roadmap_views(docs@)
            == roadmap_docs(store.files(), project@, slugs.deep_view()),
        r matches Err(e) ==> e is FrontmatterParse && exists|slugs: Seq<Seq<char>>|
            enumerates(store.files(), project@, slugs) && !all_roadmaps(
                store.files(),
                project@,
                slugs,
            ),
{
    let dir = roadmaps_dir(project);
    let entries = store.list(&dir);
    let mut names: Vec<String> = Vec::new();
    let mut i: usize = 0;
    while i < entries.len()
        invariant
            i <= entries.len(),
            forall|a: int| 0 <= a < entries.len() ==> listed(store.files(), roadmaps_dir_spec(project@), #[trigger] entries[a].name@, entries[a].kind),
            forall|n: Seq<char>| listed(store.files(), roadmaps_dir_spec(project@), n, DirEntryKind::Dir) ==> exists|a: int| 0 <= a < entries.len() && entries[a].name@ == n && entries[a].kind == DirEntryKind::Dir,
            forall|n: Seq<char>|
                names.deep_view().contains(n) ==> is_roadmap_slug(store.files(), project@, n),
            forall|a: int|
                0 <= a < i && entries[a].kind == DirEntryKind::Dir && is_roadmap_slug(store.files(), project@, #[trigger] entries[a].name@) ==> names.deep_view().contains(entries[a].name@),
        decreases entries.len() - i,
    {
        if entries[i].kind == DirEntryKind::Dir && store.file_exists(
            &roadmap_path(project, entries[i].name.as_str()),
        ) {
            let ghost before = names.deep_view();
            names.push(entries[i].name.clone());
            assert(names.deep_view() =~= before.push(entries[i as int].name@));
            assert forall|n: Seq<char>| names.deep_view().contains(n) implies is_roadmap_slug(store.files(), project@, n) by {
                if n != entries[i as int].name@ {
                    let k = choose|k: int| 0 <= k < names.deep_view().len() && names.deep_view()[k] == n;
                    assert(before[k] == n);
                    assert(before.contains(n));
                }
            }
            assert forall|a: int|
                0 <= a < i + 1 && entries[a].kind == DirEntryKind::Dir && is_roadmap_slug(store.files(), project@, #[trigger] entries[a].name@) implies names.deep_view().contains(entries[a].name@) by {
                if a < i {
                    let k = choose|k: int| 0 <= k < before.len() && before[k] == entries[a].name@;
                    assert(names.deep_view()[k] == entries[a].name@);
                } else {
                    assert(names.deep_view()[before.len() as int] == entries[a].name@);
                }
            }
        }
        i = i + 1;
    }
    let slugs = sort_unique(&names);
    let ghost sv = slugs.deep_view();
    assert forall|x: Seq<char>| sv.contains(x) <==> is_roadmap_slug(store.files(), project@, x) by {
        if is_roadmap_slug(store.files(), project@, x) {
            let a = choose|a: int| 0 <= a < entries.len() && entries[a].name@ == x && entries[a].kind == DirEntryKind::Dir;
            assert(names.deep_view().contains(entries[a].name@));
        }
    }
    let mut docs: Vec<Document<Roadmap>> = Vec::new();
    let mut k: usize = 0;
    while k < slugs.len()
        invariant
            k <= slugs.len(),
            sv == slugs.deep_view(),
            enumerates(store.files(), project@, sv),
            docs.len() == k,
            roadmap_views(docs@) == roadmap_docs(store.files(), project@, sv.subrange(0, k as int)),
            forall|a: int| 0 <= a < k ==> (#[trigger] roadmap_at(store.files(), roadmap_path_spec(project@, sv[a]))) is Some,
        decreases slugs.len() - k,
    {
        assert(sv.contains(sv[k as int]));
        assert(is_roadmap_slug(store.files(), project@, sv[k as int]));
        match load_roadmap(store, project, slugs[k].as_str()) {
            Ok(d) => {
                let ghost d0 = roadmap_views(docs@);
                docs.push(d);
                assert(roadmap_views(docs@) =~= d0.push(d@));
                assert(sv.subrange(0, k + 1) =~= sv.subrange(0, k as int).push(sv[k as int]));
                assert(roadmap_docs(store.files(), project@, sv.subrange(0, k + 1)) =~= roadmap_docs(store.files(), project@, sv.subrange(0, k as int)).push(roadmap_at(store.files(), roadmap_path_spec(project@, sv[k as int])).unwrap()));
                assert(roadmap_views(docs@) =~= roadmap_docs(store.files(), project@, sv.subrange(0, k + 1)));
            },
            Err(e) => {
                assert(!all_roadmaps(store.files(), project@, sv));
                return Err(e);
            },
        }
        k = k + 1;
    }
    assert(sv.subrange(0, k as int) =~= sv);
    Ok((slugs, docs))
}

/// Whether `slug` names an archived roadmap of `project`: a directory under
/// the project's archive that holds a `roadmap.md`.
pub open spec fn is_archived_slug(m: Files, project: Seq<char>, slug: Seq<char>) -> bool {
    listed(m, archived_roadmaps_dir_spec(project), slug, DirEntryKind::Dir) && m.contains_key(
        archived_roadmap_path_spec(project, slug),
    )
}

/// Whether `slugs` lists the roadmaps of `project`, each once, in slug order.
pub open spec fn enumerates_archived(m: Files, project: Seq<char>, slugs: Seq<Seq<char>>) -> bool {
    strictly_sorted(slugs) && forall|x: Seq<char>|
        slugs.contains(x) <==> is_archived_slug(m, project, x)
}

/// Whether each listed roadmap file holds a roadmap document.
pub open spec fn all_archived(m: Files, project: Seq<char>, slugs: Seq<Seq<char>>) -> bool {
    forall|i: int| 0 <= i < slugs.len() ==> (#[trigger] roadmap_at(m, archived_roadmap_path_spec(project, slugs[i]))) is Some
}

/// The roadmap documents of `slugs`, in order.
pub open spec fn archived_docs(m: Files, project: Seq<char>, slugs: Seq<Seq<char>>) -> Seq<
    DocView<RoadmapView>,
> {
    slugs.map_values(|s: Seq<char>| roadmap_at(m, archived_roadmap_path_spec(project, s)).unwrap())
}

/// The archived roadmap slugs of a project in slug order, each with its
/// document.
fn archived_entries(store: &MemoryStore, project: &str) -> (r: Result<
    (Vec<String>, Vec<Document<Roadmap>>),
>)
    ensures
        r matches Ok((slugs, docs)) ==> enumerates_archived(store.files(), project@, slugs.deep_view())
            && all_archived(store.files(), project@, slugs.deep_view()) && roadmap_views(docs@)
            == archived_docs(store.files(), project@, slugs.deep_view()),
        r matches Err(e) ==> e is FrontmatterParse && exists|slugs: Seq<Seq<char>>|
            enumerates_archived(store.files(), project@, slugs) && !all_archived(
                store.files(),
                project@,
                slugs,
            ),
{
    let dir = archived_roadmaps_dir(project);
    let entries = store.list(&dir);
    let mut names: Vec<String> = Vec::new();
    let mut i: usize = 0;
    while i < entries.len()
        invariant
            i <= entries.len(),
            forall|a: int| 0 <= a < entries.len() ==> listed(store.files(), archived_roadmaps_dir_spec(project@), #[trigger] entries[a].name@, entries[a].kind),
            forall|n: Seq<char>| listed(store.files(), archived_roadmaps_dir_spec(project@), n, DirEntryKind::Dir) ==> exists|a: int| 0 <= a < entries.len() && entries[a].name@ == n && entries[a].kind == DirEntryKind::Dir,
            forall|n: Seq<char>|
                names.deep_view().contains(n) ==> is_archived_slug(store.files(), project@, n),
            forall|a: int|
                0 <= a < i && entries[a].kind == DirEntryKind::Dir && is_archived_slug(store.files(), project@, #[trigger] entries[a].name@) ==> names.deep_view().contains(entries[a].name@),
        decreases entries.len() - i,
    {
        if entries[i].kind == DirEntryKind::Dir && store.file_exists(
            &archived_roadmap_path(project, entries[i].name.as_str()),
        ) {
            let ghost before = names.deep_view();
            names.push(entries[i].name.clone());
            assert(names.deep_view() =~= before.push(entries[i as int].name@));
            assert forall|n: Seq<char>| names.deep_view().contains(n) implies is_archived_slug(store.files(), project@, n) by {
                if n != entries[i as int].name@ {
                    let k = choose|k: int| 0 <= k < names.deep_view().len() && names.deep_view()[k] == n;
                    assert(before[k] == n);
                    assert(before.contains(n));
                }
            }
            assert forall|a: int|
                0 <= a < i + 1 && entries[a].kind == DirEntryKind::Dir && is_archived_slug(store.files(), project@, #[trigger] entries[a].name@) implies names.deep_view().contains(entries[a].name@) by {
                if a < i {
                    let k = choose|k: int| 0 <= k < before.len() && before[k] == entries[a].name@;
                    assert(names.deep_view()[k] == entries[a].name@);
                } else {
                    assert(names.deep_view()[before.len() as int] == entries[a].name@);
                }
            }
        }
        i = i + 1;
    }
    let slugs = sort_unique(&names);
    let ghost sv = slugs.deep_view();
    assert forall|x: Seq<char>| sv.contains(x) <==> is_archived_slug(store.files(), project@, x) by {
        if is_archived_slug(store.files(), project@, x) {
            let a = choose|a: int| 0 <= a < entries.len() && entries[a].name@ == x && entries[a].kind == DirEntryKind::Dir;
            assert(names.deep_view().contains(entries[a].name@));
        }
    }
    let mut docs: Vec<Document<Roadmap>> = Vec::new();
    let mut k: usize = 0;
    while k < slugs.len()
        invariant
            k <= slugs.len(),
            sv == slugs.deep_view(),
            enumerates_archived(store.files(), project@, sv),
            docs.len() == k,
            roadmap_views(docs@) == archived_docs(store.files(), project@, sv.subrange(0, k as int)),
            forall|a: int| 0 <= a < k ==> (#[trigger] roadmap_at(store.files(), archived_roadmap_path_spec(project@, sv[a]))) is Some,
        decreases slugs.len() - k,
    {
        assert(sv.contains(sv[k as int]));
        assert(is_archived_slug(store.files(), project@, sv[k as int]));
        match crate::io::load_roadmap_file(store, &archived_roadmap_path(project, slugs[k].as_str())) {
            Ok(d) => {
                let ghost d0 = roadmap_views(docs@);
                docs.push(d);
                assert(roadmap_views(docs@) =~= d0.push(d@));
                assert(sv.subrange(0, k + 1) =~= sv.subrange(0, k as int).push(sv[k as int]));
                assert(archived_docs(store.files(), project@, sv.subrange(0, k + 1)) =~= archived_docs(store.files(), project@, sv.subrange(0, k as int)).push(roadmap_at(store.files(), archived_roadmap_path_spec(project@, sv[k as int])).unwrap()));
                assert(roadmap_views(docs@) =~= archived_docs(store.files(), project@, sv.subrange(0, k + 1)));
            },
            Err(e) => {
                assert(!all_archived(store.files(), project@, sv));
                return Err(e);
            },
        }
        k = k + 1;
    }
    assert(sv.subrange(0, k as int) =~= sv);
    Ok((slugs, docs))
}

/// What [`list_archived_roadmaps`] gives: its result and, for a change, the files it leaves.
pub open spec fn list_archived_roadmaps_post(m: Files, project: &str, r: Result<Vec<Document<Roadmap>>>) -> bool {
    &&& (exists|slugs: Seq<Seq<char>>|
            enumerates_archived(m, project@, slugs) && (all_archived(
                m,
                project@,
                slugs,
            ) ==> (r matches Ok(v) && roadmap_views(v@) == archived_docs(m, project@, slugs)))
                && (!all_archived(m, project@, slugs) ==> (r matches Err(e)
                && e is FrontmatterParse)))
}

/// The archived roadmaps of a project in slug order.
pub fn list_archived_roadmaps(store: &MemoryStore, project: &str) -> (r: Result<Vec<Document<Roadmap>>>)
    ensures
        list_archived_roadmaps_post(store.files(), project, r),
{
    match archived_entries(store, project) {
        Ok((slugs, docs)) => Ok(docs),
        Err(e) => {
            proof {
                let s = choose|slugs: Seq<Seq<char>>|
                    enumerates_archived(store.files(), project@, slugs) && !all_archived(store.files(), project@, slugs);
                assert forall|t: Seq<Seq<char>>| enumerates_archived(store.files(), project@, t) implies t == s by {
                    crate::sorted::lemma_sorted_unique(s, t);
                }
            }
            Err(e)
        },
    }
}

fn insert_by_priority(out: &mut Vec<Document<Roadmap>>, x: Document<Roadmap>)
    requires
        priority_sorted(roadmap_views(old(out)@)),
    ensures
        priority_sorted(roadmap_views(final(out)@)),
        roadmap_views(final(out)@).to_multiset() == roadmap_views(old(out)@).to_multiset().insert(x@),
{
    let ghost o = roadmap_views(out@);
    let xr = opt_priority_rank_exec(x.frontmatter.priority);
    let mut p: usize = 0;
    let mut done = false;
    while p < out.len() && !done
        invariant
            p <= out.len(),
            o == roadmap_views(out@),
            xr == opt_priority_rank(x@.frontmatter.priority),
            forall|k: int| 0 <= k < p ==> !priority_before(x@, #[trigger] o[k]),
            done ==> p < out.len() && priority_before(x@, o[p as int]),
        decreases out.len() - p, if done { 0int } else { 1int },
    {
        let er = opt_priority_rank_exec(out[p].frontmatter.priority);
        let before = xr > er || (xr == er && str_lt(x.frontmatter.roadmap.as_str(), out[p].frontmatter.roadmap.as_str()));
        assert(o[p as int] == out[p as int]@);
        if before {
            done = true;
        } else {
            p = p + 1;
        }
    }
    out.insert(p, x);
    let ghost n = roadmap_views(out@);
    assert(n =~= o.insert(p as int, x@));
    proof {
        vstd::seq_lib::to_multiset_insert(o, p as int, x@);
        assert forall|i: int, j: int| 0 <= i < j < n.len() implies !priority_before(#[trigger] n[j], #[trigger] n[i]) by {
            if j < p {
                assert(n[i] == o[i] && n[j] == o[j]);
            } else if j == p {
                assert(n[i] == o[i]);
            } else if i == p {
                assert(n[j] == o[j - 1]);
                let a = x@;
                let b = o[p as int];
                let c = o[j - 1];
                if priority_before(c, a) {
                    assert(priority_before(a, b));
                    if j - 1 > p {
                        assert(!priority_before(c, b));
                        lemma_priority_before_trans(c, a, b);
                    } else {
                        lemma_priority_before_asym(a, b);
                    }
                }
            } else if i < p {
                assert(n[i] == o[i] && n[j] == o[j - 1]);
            } else {
                assert(n[i] == o[i - 1] && n[j] == o[j - 1]);
            }
        }
    }
}

/// What [`list_roadmaps`] gives: its result and, for a change, the files it leaves.
pub open spec fn list_roadmaps_post(m: Files, project: &str, sort: Option<RoadmapSort>, priority_filter: Option<Priority>, r: Result<Vec<Document<Roadmap>>>) -> bool {
    &&& (!m.contains_key(project_md_spec(project@)) ==> (r matches Err(
            Error::ProjectNotFound(n),
        ) && n@ == project@))
    &&& (m.contains_key(project_md_spec(project@)) ==> exists|slugs: Seq<Seq<char>>|
            enumerates(m, project@, slugs) && (all_roadmaps(
                m,
                project@,
                slugs,
            ) ==> (r matches Ok(v) && if sort == Some(RoadmapSort::Priority) {
                priority_sorted(roadmap_views(v@)) && roadmap_views(v@).to_multiset()
                    == with_priority(roadmap_docs(m, project@, slugs), priority_filter).to_multiset()
            } else {
                roadmap_views(v@) == with_priority(
                    roadmap_docs(m, project@, slugs),
                    priority_filter,
                )
            })) && (!all_roadmaps(m, project@, slugs) ==> (r matches Err(e)
                && e is FrontmatterParse)))
}

/// The roadmaps of a project in slug order, restricted to one priority when
/// `priority_filter` names one, and reordered by priority (highest first,
/// unprioritized last, ties by slug) when `sort` asks for it.
pub fn list_roadmaps(
    store: &MemoryStore,
    project: &str,
    sort: Option<RoadmapSort>,
    priority_filter: Option<Priority>,
) -> (r: Result<Vec<Document<Roadmap>>>)
    ensures
        list_roadmaps_post(store.files(), project, sort, priority_filter, r),
{
    if !store.file_exists(&project_md_path(project)) {
        return Err(Error::ProjectNotFound(owned(project)));
    }
    let (slugs, docs) = match roadmap_entries(store, project) {
        Ok(x) => x,
        Err(e) => {
            proof {
                let s = choose|slugs: Seq<Seq<char>>|
                    enumerates(store.files(), project@, slugs) && !all_roadmaps(store.files(), project@, slugs);
                lemma_enumeration_unique(store.files(), project@, s);
            }
            return Err(e);
        },
    };
    let ghost sv = slugs.deep_view();
    let ghost all = roadmap_views(docs@);
    let mut kept: Vec<Document<Roadmap>> = Vec::new();
    let mut docs = docs;
    let mut i: usize = 0;
    while i < docs.len()
        invariant
            i <= docs.len(),
            all == roadmap_views(docs@),
            roadmap_views(kept@) == with_priority(all.subrange(0, i as int), priority_filter),
        decreases docs.len() - i,
    {
        let keep = match priority_filter {
            None => true,
            Some(f) => match docs[i].frontmatter.priority {
                Some(p) => p == f,
                None => false,
            },
        };
        proof {
            let pred = |d: DocView<RoadmapView>| priority_filter is None || d.frontmatter.priority == priority_filter;
            assert(all.subrange(0, i + 1) =~= all.subrange(0, i as int).push(all[i as int]));
            Seq::filter_distributes_over_add(all.subrange(0, i as int), seq![all[i as int]], pred);
            assert(all.subrange(0, i as int).push(all[i as int]) =~= all.subrange(0, i as int) + seq![all[i as int]]);
            reveal_with_fuel(vstd::seq::Seq::filter, 2);
            assert(keep == pred(all[i as int]));
        }
        if keep {
            let ghost k0 = roadmap_views(kept@);
            kept.push(docs[i].duplicate());
            assert(roadmap_views(kept@) =~= k0.push(all[i as int]));
        } else {
            assert(seq![all[i as int]].filter(|d: DocView<RoadmapView>| priority_filter is None || d.frontmatter.priority == priority_filter) =~= Seq::<DocView<RoadmapView>>::empty());
        }
        i = i + 1;
    }
    assert(all.subrange(0, docs.len() as int) =~= all);
    proof {
        lemma_enumeration_unique(store.files(), project@, sv);
    }
    if sort == Some(RoadmapSort::Priority) {
        let mut out: Vec<Document<Roadmap>> = Vec::new();
        let ghost kv = roadmap_views(kept@);
        assert(roadmap_views(out@) =~= kv.subrange(0, 0));
        let mut j: usize = 0;
        while j < kept.len()
            invariant
                j <= kept.len(),
                kv == roadmap_views(kept@),
                priority_sorted(roadmap_views(out@)),
                roadmap_views(out@).to_multiset() == kv.subrange(0, j as int).to_multiset(),
            decreases kept.len() - j,
        {
            proof {
                assert(kv.subrange(0, j + 1) =~= kv.subrange(0, j as int).push(kv[j as int]));
                vstd::seq_lib::to_multiset_build(kv.subrange(0, j as int), kv[j as int]);
            }
            insert_by_priority(&mut out, kept[j].duplicate());
            j = j + 1;
        }
        assert(kv.subrange(0, kept.len() as int) =~= kv);
        Ok(out)
    } else {
        Ok(kept)
    }
}

proof fn lemma_priority_before_trans(a: DocView<RoadmapView>, b: DocView<RoadmapView>, c: DocView<RoadmapView>)
    requires
        priority_before(a, b),
        priority_before(b, c),
    ensures
        priority_before(a, c),
{
    lemma_seq_lt_trans(a.frontmatter.roadmap, b.frontmatter.roadmap, c.frontmatter.roadmap);
}

proof fn lemma_priority_before_asym(a: DocView<RoadmapView>, b: DocView<RoadmapView>)
    ensures
        !(priority_before(a, b) && priority_before(b, a)),
{
    lemma_seq_lt_asym(a.frontmatter.roadmap, b.frontmatter.roadmap);
}

/// Two slug lists that both enumerate the roadmaps of a project are equal.
pub proof fn lemma_enumeration_unique(m: Files, project: Seq<char>, s: Seq<Seq<char>>)
    requires
        enumerates(m, project, s),
    ensures
        forall|t: Seq<Seq<char>>| enumerates(m, project, t) ==> t == s,
{
    assert forall|t: Seq<Seq<char>>| enumerates(m, project, t) implies t == s by {
        crate::sorted::lemma_sorted_unique(s, t);
    }
}

/// The dependency graph of a list of roadmap documents: each roadmap with
/// the roadmaps it depends on.
pub open spec fn graph_of(docs: Seq<DocView<RoadmapView>>) -> Graph {
    docs.map_values(
        |d: DocView<RoadmapView>|
            (
                d.frontmatter.roadmap,
                match d.frontmatter.dependencies {
                    Some(v) => v,
                    None => Seq::empty(),
                },
            ),
    )
}

/// Whether a roadmap already depends on `dep`.
pub open spec fn has_dependency(d: DocView<RoadmapView>, dep: Seq<char>) -> bool {
    d.frontmatter.dependencies matches Some(v) && v.contains(dep)
}

/// A roadmap's dependencies with `dep` appended.
pub open spec fn deps_with(deps: Option<Seq<Seq<char>>>, dep: Seq<char>) -> Option<Seq<Seq<char>>> {
    match deps {
        Some(v) => Some(v.push(dep)),
        None => Some(seq![dep]),
    }
}

fn graph_exec(docs: &Vec<Document<Roadmap>>) -> (r: Vec<(String, Vec<String>)>)
    ensures
        r.deep_view() == graph_of(roadmap_views(docs@)),
{
    let mut g: Vec<(String, Vec<String>)> = Vec::new();
    let mut i: usize = 0;
    while i < docs.len()
        invariant
            i <= docs.len(),
            g.deep_view() == graph_of(roadmap_views(docs@).subrange(0, i as int)),
        decreases docs.len() - i,
    {
        let deps = match &docs[i].frontmatter.dependencies {
            Some(v) => crate::model::copy_strings(v),
            None => Vec::new(),
        };
        let ghost dv = roadmap_views(docs@)[i as int];
        assert(dv == docs[i as int]@);
        assert(deps.deep_view() =~= match dv.frontmatter.dependencies {
            Some(v) => v,
            None => Seq::<Seq<char>>::empty(),
        });
        let name = docs[i].frontmatter.roadmap.clone();
        let ghost g0 = g.deep_view();
        g.push((name, deps));
        assert(g.deep_view() =~= g0.push(graph_of(roadmap_views(docs@))[i as int]));
        assert(roadmap_views(docs@).subrange(0, i + 1) =~= roadmap_views(docs@).subrange(0, i as int).push(roadmap_views(docs@)[i as int]));
        assert(graph_of(roadmap_views(docs@).subrange(0, i + 1)) =~= graph_of(roadmap_views(docs@).subrange(0, i as int)).push(graph_of(roadmap_views(docs@))[i as int]));
        i = i + 1;
    }
    assert(roadmap_views(docs@).subrange(0, docs.len() as int) =~= roadmap_views(docs@));
    g
}

/// What [`add_dependency`] gives: its result and, for a change, the files it leaves.
pub open spec fn add_dependency_post(m: Files, project: &str, slug: &str, depends_on: &str, r: Result<Document<Roadmap>>, m2: Files) -> bool {
    &&& (r is Err ==> m2 == m)
    &&& (!m.contains_key(roadmap_path_spec(project@, slug@)) ==> (r matches Err(
            Error::RoadmapNotFound(n),
        ) && n@ == slug@))
    &&& (m.contains_key(roadmap_path_spec(project@, slug@)) && roadmap_at(
            m,
            roadmap_path_spec(project@, slug@),
        ) is None ==> (r matches Err(e) && e is FrontmatterParse))
    &&& (roadmap_at(m, roadmap_path_spec(project@, slug@)) is Some
            && !m.contains_key(roadmap_path_spec(project@, depends_on@)) ==> (
        r matches Err(Error::RoadmapNotFound(n)) && n@ == depends_on@))
    &&& (roadmap_at(m, roadmap_path_spec(project@, slug@)) is Some
            && roadmap_at(m, roadmap_path_spec(project@, depends_on@)) is Some
            && slug@ == depends_on@ ==> (r matches Err(e) && e is CyclicDependency))
    &&& (roadmap_at(m, roadmap_path_spec(project@, slug@)) matches Some(d) ==> (
        roadmap_at(m, roadmap_path_spec(project@, depends_on@)) is Some && slug@
            != depends_on@ && has_dependency(d, depends_on@) ==> (r matches Ok(doc) && doc@ == d
            && m2 == m)))
    &&& (r matches Ok(doc) ==> roadmap_at(m, roadmap_path_spec(project@, slug@)) matches Some(d) && (
            (doc@ == d && has_dependency(d, depends_on@) && m2 == m) || (doc@ == DocView {
                frontmatter: RoadmapView {
                    dependencies: deps_with(d.frontmatter.dependencies, depends_on@),
                    ..d.frontmatter
                },
                ..d
            } && m2 == m.insert(
                roadmap_path_spec(project@, slug@),
                EntryView::Roadmap(doc@),
            ) && exists|slugs: Seq<Seq<char>>|
                enumerates(m, project@, slugs) && all_roadmaps(
                    m,
                    project@,
                    slugs,
                ) && !reaches(
                    with_edge(
                        graph_of(roadmap_docs(m, project@, slugs)),
                        slug@,
                        depends_on@,
                    ),
                    slug@,
                    slug@,
                ))))
    &&& (roadmap_at(m, roadmap_path_spec(project@, slug@)) matches Some(d) ==> (
        roadmap_at(m, roadmap_path_spec(project@, depends_on@)) is Some && slug@
            != depends_on@ && !has_dependency(d, depends_on@) && m.contains_key(
            project_md_spec(project@),
        ) ==> forall|
            slugs: Seq<Seq<char>>,
        |
            enumerates(m, project@, slugs) && all_roadmaps(
                m,
                project@,
                slugs,
            ) ==> (if reaches(
                with_edge(
                    graph_of(roadmap_docs(m, project@, slugs)),
                    slug@,
                    depends_on@,
                ),
                slug@,
                slug@,
            ) {
                r matches Err(e) && e is CyclicDependency
            } else {
                r is Ok
            })))
}

/// Makes roadmap `slug` depend on `depends_on`. Both must exist; a roadmap
/// cannot depend on itself, and a dependency that would let `slug` reach
/// itself through the project's dependency graph is refused with
/// [`Error::CyclicDependency`]. Adding a dependency that is already there
/// changes nothing.
pub fn add_dependency(store: &mut MemoryStore, project: &str, slug: &str, depends_on: &str) -> (r:
    Result<Document<Roadmap>>)
    ensures
        add_dependency_post(old(store).files(), project, slug, depends_on, r, final(store).files()),
{
    let mut doc = load_roadmap(store, project, slug)?;
    let _target = load_roadmap(store, project, depends_on)?;
    if crate::text::str_eq(slug, depends_on) {
        return Err(Error::CyclicDependency(crate::text::cat(slug, " cannot depend on itself")));
    }
    let already = match &doc.frontmatter.dependencies {
        Some(v) => crate::graph::contains_str(v, depends_on),
        None => false,
    };
    if already {
        return Ok(doc);
    }
    let all = match list_roadmaps(store, project, None, None) {
        Ok(v) => v,
        Err(e) => {
            proof {
                if store.files().contains_key(project_md_spec(project@)) {
                    let slugs = choose|slugs: Seq<Seq<char>>| enumerates(store.files(), project@, slugs) && (all_roadmaps(store.files(), project@, slugs) ==> true);
                    lemma_enumeration_unique(store.files(), project@, slugs);
                }
            }
            return Err(e);
        },
    };
    let mut adj = graph_exec(&all);
    let mut single: Vec<String> = Vec::new();
    single.push(owned(depends_on));
    assert(single.deep_view() =~= seq![depends_on@]);
    let ghost g0 = adj.deep_view();
    adj.push((owned(slug), single));
    proof {
        assert(adj.deep_view() =~= with_edge(g0, slug@, depends_on@));
        let slugs = choose|slugs: Seq<Seq<char>>| enumerates(store.files(), project@, slugs) && (all_roadmaps(store.files(), project@, slugs) ==> true);
        lemma_enumeration_unique(store.files(), project@, slugs);
        lemma_with_priority_none(roadmap_docs(store.files(), project@, slugs));
    }
    if has_cycle(&adj, slug) {
        let mut msg = crate::text::cat3("adding ", slug, " → ");
        msg.append(depends_on);
        msg.append(" would create a cycle");
        return Err(Error::CyclicDependency(msg));
    }
    let ghost d0 = doc@;
    match &mut doc.frontmatter.dependencies {
        Some(v) => {
            v.push(owned(depends_on));
        },
        None => {},
    }
    if doc.frontmatter.dependencies.is_none() {
        let mut v: Vec<String> = Vec::new();
        v.push(owned(depends_on));
        doc.frontmatter.dependencies = Some(v);
    }
    assert(doc@.frontmatter.dependencies == deps_with(d0.frontmatter.dependencies, depends_on@));
    write_roadmap(store, project, slug, &doc);
    Ok(doc)
}

proof fn lemma_filter_all<A>(s: Seq<A>, pred: spec_fn(A) -> bool)
    requires
        forall|x: A| #[trigger] pred(x),
    ensures
        s.filter(pred) == s,
    decreases s.len(),
{
    reveal(Seq::filter);
    if s.len() > 0 {
        lemma_filter_all(s.drop_last(), pred);
        assert(s =~= s.drop_last().push(s.last()));
    }
}

pub proof fn lemma_with_priority_none(s: Seq<DocView<RoadmapView>>)
    ensures
        with_priority(s, None) == s,
{
    lemma_filter_all(s, |d: DocView<RoadmapView>| None::<Priority> is None || d.frontmatter.priority == None::<Priority>);
}

/// The dependencies left after dropping every `dep`: none at all when
/// nothing is left.
pub open spec fn deps_without(deps: Option<Seq<Seq<char>>>, dep: Seq<char>) -> Option<Seq<Seq<char>>> {
    match deps {
        Some(v) => {
            let w = v.filter(|x: Seq<char>| x != dep);
            if w.len() == 0 {
                None
            } else {
                Some(w)
            }
        },
        None => None,
    }
}

/// What [`remove_dependency`] gives: its result and, for a change, the files it leaves.
pub open spec fn remove_dependency_post(m: Files, project: &str, slug: &str, depends_on: &str, r: Result<Document<Roadmap>>, m2: Files) -> bool {
    &&& (!m.contains_key(roadmap_path_spec(project@, slug@)) ==> (r matches Err(
            Error::RoadmapNotFound(n),
        ) && n@ == slug@))
    &&& (r is Err ==> m2 == m)
    &&& (m.contains_key(roadmap_path_spec(project@, slug@)) ==> match roadmap_at(
            m,
            roadmap_path_spec(project@, slug@),
        ) {
            Some(d) => (r matches Ok(doc) && doc@ == DocView {
                frontmatter: RoadmapView {
                    dependencies: deps_without(d.frontmatter.dependencies, depends_on@),
                    ..d.frontmatter
                },
                ..d
            } && m2 == m.insert(
                roadmap_path_spec(project@, slug@),
                EntryView::Roadmap(doc@),
            )),
            None => (r matches Err(e) && e is FrontmatterParse),
        })
}

/// Drops `depends_on` from roadmap `slug`'s dependencies (none at all when
/// nothing is left) and stores the roadmap.
pub fn remove_dependency(store: &mut MemoryStore, project: &str, slug: &str, depends_on: &str) -> (r:
    Result<Document<Roadmap>>)
    ensures
        remove_dependency_post(old(store).files(), project, slug, depends_on, r, final(store).files()),
{
    let mut doc = load_roadmap(store, project, slug)?;
    let newdeps = match &doc.frontmatter.dependencies {
        Some(v) => {
            let w = crate::model::strings_without(v, depends_on);
            if w.len() == 0 {
                None
            } else {
                Some(w)
            }
        },
        None => None,
    };
    doc.frontmatter.dependencies = newdeps;
    write_roadmap(store, project, slug, &doc);
    Ok(doc)
}

/// The roadmaps that have dependencies, in slug order, each with them.
pub open spec fn dependency_pairs(docs: Seq<DocView<RoadmapView>>) -> Graph {
    graph_of(
        docs.filter(
            |d: DocView<RoadmapView>|
                d.frontmatter.dependencies matches Some(v) && v.len() > 0,
        ),
    )
}

/// What [`dependency_graph`] gives: its result and, for a change, the files it leaves.
pub open spec fn dependency_graph_post(m: Files, project: &str, r: Result< Vec<(String, Vec<String>)>, >) -> bool {
    &&& (!m.contains_key(project_md_spec(project@)) ==> (r matches Err(
            Error::ProjectNotFound(n),
        ) && n@ == project@))
    &&& (m.contains_key(project_md_spec(project@)) ==> exists|slugs: Seq<Seq<char>>|
            enumerates(m, project@, slugs) && (all_roadmaps(
                m,
                project@,
                slugs,
            ) ==> (r matches Ok(g) && g.deep_view() == dependency_pairs(
                roadmap_docs(m, project@, slugs),
            ))) && (!all_roadmaps(m, project@, slugs) ==> (r matches Err(e)
                && e is FrontmatterParse)))
}

/// The project's roadmaps that have dependencies, in slug order, each with
/// the roadmaps it depends on.
pub fn dependency_graph(store: &MemoryStore, project: &str) -> (r: Result<
    Vec<(String, Vec<String>)>,
>)
    ensures
        dependency_graph_post(store.files(), project, r),
{
    let all = list_roadmaps(store, project, None, None)?;
    let ghost av = roadmap_views(all@);
    let ghost pred = |d: DocView<RoadmapView>| d.frontmatter.dependencies matches Some(v) && v.len() > 0;
    let mut kept: Vec<Document<Roadmap>> = Vec::new();
    let mut i: usize = 0;
    while i < all.len()
        invariant
            i <= all.len(),
            av == roadmap_views(all@),
            pred == (|d: DocView<RoadmapView>| d.frontmatter.dependencies matches Some(v) && v.len() > 0),
            roadmap_views(kept@) == av.subrange(0, i as int).filter(pred),
        decreases all.len() - i,
    {
        let keep = match &all[i].frontmatter.dependencies {
            Some(v) => v.len() > 0,
            None => false,
        };
        proof {
            let a = av.subrange(0, i as int);
            let x = av[i as int];
            assert(av.subrange(0, i + 1) =~= a + seq![x]);
            Seq::filter_distributes_over_add(a, seq![x], pred);
            reveal_with_fuel(Seq::filter, 2);
            assert(seq![x].drop_last() =~= Seq::<DocView<RoadmapView>>::empty());
        }
        if keep {
            let ghost k0 = roadmap_views(kept@);
            kept.push(all[i].duplicate());
            assert(roadmap_views(kept@) =~= k0 + seq![av[i as int]]);
        } else {
            assert(roadmap_views(kept@) =~= roadmap_views(kept@) + Seq::<DocView<RoadmapView>>::empty());
        }
        i = i + 1;
    }
    assert(av.subrange(0, all.len() as int) =~= av);
    proof {
        if store.files().contains_key(project_md_spec(project@)) {
            let slugs = choose|slugs: Seq<Seq<char>>| enumerates(store.files(), project@, slugs) && (all_roadmaps(store.files(), project@, slugs) ==> true);
            lemma_enumeration_unique(store.files(), project@, slugs);
            lemma_with_priority_none(roadmap_docs(store.files(), project@, slugs));
        }
    }
    Ok(graph_exec(&kept))
}

/// The store after every roadmap of `docs`, other than `slug` itself, that
/// depends on `slug` has that dependency dropped; `None` when one of them
/// cannot be loaded under its own name.
pub open spec fn unlinked(
    m: Files,
    project: Seq<char>,
    docs: Seq<DocView<RoadmapView>>,
    slug: Seq<char>,
) -> Option<Files>
    decreases docs.len(),
{
    if docs.len() == 0 {
        Some(m)
    } else {
        match unlinked(m, project, docs.drop_last(), slug) {
            None => None,
            Some(m1) => {
                let d = docs.last();
                let name = d.frontmatter.roadmap;
                if name != slug && has_dependency(d, slug) {
                    match roadmap_at(m1, roadmap_path_spec(project, name)) {
                        Some(x) => Some(
                            m1.insert(
                                roadmap_path_spec(project, name),
                                EntryView::Roadmap(
                                    DocView {
                                        frontmatter: RoadmapView {
                                            dependencies: deps_without(
                                                x.frontmatter.dependencies,
                                                slug,
                                            ),
                                            ..x.frontmatter
                                        },
                                        ..x
                                    },
                                ),
                            ),
                        ),
                        None => None,
                    }
                } else {
                    Some(m1)
                }
            },
        }
    }
}

fn unlink_all(store: &mut MemoryStore, project: &str, docs: &Vec<Document<Roadmap>>, slug: &str) -> (r:
    Result<()>)
    ensures
        r is Ok <==> unlinked(old(store).files(), project@, roadmap_views(docs@), slug@) is Some,
        r is Ok ==> Some(final(store).files()) == unlinked(
            old(store).files(),
            project@,
            roadmap_views(docs@),
            slug@,
        ),
{
    let ghost m = store.files();
    let ghost dv = roadmap_views(docs@);
    let mut i: usize = 0;
    assert(dv.subrange(0, 0) =~= Seq::<DocView<RoadmapView>>::empty());
    while i < docs.len()
        invariant
            i <= docs.len(),
            m == old(store).files(),
            dv == roadmap_views(docs@),
            Some(store.files()) == unlinked(m, project@, dv.subrange(0, i as int), slug@),
        decreases docs.len() - i,
    {
        let d = &docs[i];
        let ghost sub = dv.subrange(0, i + 1);
        assert(sub.drop_last() =~= dv.subrange(0, i as int));
        assert(sub.last() == d@);
        let name = d.frontmatter.roadmap.as_str();
        let depends = match &d.frontmatter.dependencies {
            Some(v) => crate::graph::contains_str(v, slug),
            None => false,
        };
        if !crate::text::str_eq(name, slug) && depends {
            assert(has_dependency(d@, slug@));
            match remove_dependency(store, project, name, slug) {
                Ok(_) => {
                    assert(unlinked(m, project@, sub, slug@) == Some(store.files()));
                },
                Err(e) => {
                    proof {
                        assert(unlinked(m, project@, sub, slug@) is None);
                        lemma_unlinked_none_extends(m, project@, dv, slug@, i as int + 1);
                    }
                    return Err(e);
                },
            }
        } else {
            assert(unlinked(m, project@, sub, slug@) == Some(store.files()));
        }
        i = i + 1;
    }
    assert(dv.subrange(0, docs.len() as int) =~= dv);
    Ok(())
}

proof fn lemma_unlinked_none_extends(
    m: Files,
    project: Seq<char>,
    docs: Seq<DocView<RoadmapView>>,
    slug: Seq<char>,
    k: int,
)
    requires
        0 <= k <= docs.len(),
        unlinked(m, project, docs.subrange(0, k), slug) is None,
    ensures
        unlinked(m, project, docs, slug) is None,
    decreases docs.len() - k,
{
    if k < docs.len() {
        assert(docs.subrange(0, k + 1).drop_last() =~= docs.subrange(0, k));
        lemma_unlinked_none_extends(m, project, docs, slug, k + 1);
    } else {
        assert(docs.subrange(0, k) =~= docs);
    }
}

/// What removing roadmap `slug` leaves when every step succeeds: the other
/// roadmaps no longer depend on it and nothing remains under its directory.
pub open spec fn deleted_roadmap(
    m: Files,
    project: Seq<char>,
    slug: Seq<char>,
    slugs: Seq<Seq<char>>,
    result: Files,
) -> bool {
    enumerates(m, project, slugs) && all_roadmaps(m, project, slugs) && (unlinked(
        m,
        project,
        roadmap_docs(m, project, slugs),
        slug,
    ) matches Some(m1) && result == without_under(m1, roadmap_dir_spec(project, slug) + "/"@))
}

/// What [`delete_roadmap`] gives: its result and, for a change, the files it leaves.
pub open spec fn delete_roadmap_post(m: Files, project: &str, slug: &str, r: Result<()>, m2: Files) -> bool {
    &&& (({
            let m = m;
            &&& !m.contains_key(roadmap_path_spec(project@, slug@)) ==> (r matches Err(
                Error::RoadmapNotFound(n),
            ) && n@ == slug@ && m2 == m)
            &&& m.contains_key(roadmap_path_spec(project@, slug@)) && !m.contains_key(
                project_md_spec(project@),
            ) ==> (r matches Err(Error::ProjectNotFound(n)) && n@ == project@ && m2 == m)
            &&& r is Ok ==> exists|slugs: Seq<Seq<char>>|
                deleted_roadmap(m, project@, slug@, slugs, m2)
            &&& m.contains_key(roadmap_path_spec(project@, slug@)) && m.contains_key(
                project_md_spec(project@),
            ) ==> forall|slugs: Seq<Seq<char>>|
                enumerates(m, project@, slugs) && all_roadmaps(m, project@, slugs) && unlinked(
                    m,
                    project@,
                    roadmap_docs(m, project@, slugs),
                    slug@,
                ) is Some ==> r is Ok
        }))
}

/// Deletes a roadmap with all its phases, after dropping it from the
/// dependencies of the project's other roadmaps.
pub fn delete_roadmap(store: &mut MemoryStore, project: &str, slug: &str) -> (r: Result<()>)
    ensures
        delete_roadmap_post(old(store).files(), project, slug, r, final(store).files()),
{
    if !store.file_exists(&roadmap_path(project, slug)) {
        return Err(Error::RoadmapNotFound(owned(slug)));
    }
    let ghost m = store.files();
    let ghost slugs = choose|slugs: Seq<Seq<char>>| enumerates(m, project@, slugs) && (all_roadmaps(m, project@, slugs) ==> true);
    let all = match list_roadmaps(store, project, None, None) {
        Ok(v) => v,
        Err(e) => {
            proof {
                if m.contains_key(project_md_spec(project@)) {
                    lemma_enumeration_unique(m, project@, slugs);
                }
            }
            return Err(e);
        },
    };
    proof {
        lemma_enumeration_unique(m, project@, slugs);
        lemma_with_priority_none(roadmap_docs(m, project@, slugs));
    }
    match unlink_all(store, project, &all, slug) {
        Ok(()) => {},
        Err(e) => {
            return Err(e);
        },
    }
    let ghost m1 = store.files();
    let dir = roadmap_dir(project, slug);
    let pre = crate::text::cat(dir.as_str(), "/");
    store.remove_under(pre.as_str());
    assert(deleted_roadmap(m, project@, slug@, slugs, store.files()));
    Ok(())
}

/// Whether every listed phase is done.
pub open spec fn all_done(m: Files, project: Seq<char>, roadmap: Seq<char>) -> bool {
    forall|x: (Seq<char>, DocView<PhaseView>)|
        crate::ops::phase::is_phase_item(m, project, roadmap, x) ==> x.1.frontmatter.status
            == PhaseStatus::Done
}

/// What [`archive_roadmap`] gives: its result and, for a change, the files it leaves.
pub open spec fn archive_roadmap_post(m: Files, project: &str, slug: &str, force: bool, r: Result<()>, m2: Files) -> bool {
    &&& (({
            let m = m;
            let rp = roadmap_path_spec(project@, slug@);
            &&& !m.contains_key(rp) ==> (r matches Err(Error::RoadmapNotFound(n)) && n@ == slug@
                && m2 == m)
            &&& m.contains_key(rp) && !force && crate::ops::phase::phases_ok(m, project@, slug@)
                && !all_done(m, project@, slug@) ==> (r matches Err(
                Error::RoadmapHasIncompletePhases(n),
            ) && n@ == slug@ && m2 == m)
            &&& r is Ok ==> (force || all_done(m, project@, slug@)) && exists|slugs: Seq<Seq<char>>, m1: Files|
                enumerates(m, project@, slugs) && all_roadmaps(m, project@, slugs) && unlinked(
                    m,
                    project@,
                    roadmap_docs(m, project@, slugs),
                    slug@,
                ) == Some(m1) && m2 == without_under(
                    copied_under(
                        m1,
                        roadmap_dir_spec(project@, slug@) + "/"@,
                        archived_roadmap_dir_spec(project@, slug@) + "/"@,
                    ),
                    roadmap_dir_spec(project@, slug@) + "/"@,
                )
            &&& m.contains_key(rp) && m.contains_key(project_md_spec(project@)) && (force || (
                crate::ops::phase::phases_ok(m, project@, slug@) && all_done(m, project@, slug@)))
                ==> forall|slugs: Seq<Seq<char>>|
                enumerates(m, project@, slugs) && all_roadmaps(m, project@, slugs) && unlinked(
                    m,
                    project@,
                    roadmap_docs(m, project@, slugs),
                    slug@,
                ) is Some ==> r is Ok
        }))
}

/// Moves a roadmap with its phases under the project's archive, after
/// dropping it from the dependencies of the other roadmaps. Unless `force`
/// is set, every phase must be done.
pub fn archive_roadmap(store: &mut MemoryStore, project: &str, slug: &str, force: bool) -> (r: Result<()>)
    ensures
        archive_roadmap_post(old(store).files(), project, slug, force, r, final(store).files()),
{
    if !store.file_exists(&roadmap_path(project, slug)) {
        return Err(Error::RoadmapNotFound(owned(slug)));
    }
    let ghost m = store.files();
    if !force {
        let phases = crate::ops::phase::list_phases(store, project, slug)?;
        let ghost pv = crate::ops::phase::phase_views(phases@);
        proof {
            let names = choose|names: Seq<Seq<char>>| crate::ops::phase::phase_files(m, project@, slug@, names) && pv.to_multiset() == names.map_values(
                |n: Seq<char>| crate::ops::phase::phase_item(m, project@, slug@, n),
            ).to_multiset();
            crate::ops::phase::lemma_listed_phases(m, project@, slug@, pv, names);
        }
        let mut i: usize = 0;
        let mut open = false;
        while i < phases.len() && !open
            invariant
                i <= phases.len(),
                pv == crate::ops::phase::phase_views(phases@),
                forall|k: int| 0 <= k < i ==> (#[trigger] pv[k]).1.frontmatter.status == PhaseStatus::Done,
                open ==> i < phases.len() && pv[i as int].1.frontmatter.status != PhaseStatus::Done,
            decreases phases.len() - i, if open { 0int } else { 1int },
        {
            assert(pv[i as int] == (phases[i as int].0@, phases[i as int].1@));
            if phases[i].1.frontmatter.status != PhaseStatus::Done {
                open = true;
            } else {
                i = i + 1;
            }
        }
        if open {
            proof {
                assert(pv.contains(pv[i as int]));
            }
            return Err(Error::RoadmapHasIncompletePhases(owned(slug)));
        }
        proof {
            assert forall|x: (Seq<char>, DocView<PhaseView>)|
                crate::ops::phase::is_phase_item(m, project@, slug@, x) implies x.1.frontmatter.status == PhaseStatus::Done by {
                assert(pv.contains(x));
                let k = choose|k: int| 0 <= k < pv.len() && pv[k] == x;
            }
        }
    }
    let ghost slugs = choose|slugs: Seq<Seq<char>>| enumerates(m, project@, slugs) && (all_roadmaps(m, project@, slugs) ==> true);
    let all = match list_roadmaps(store, project, None, None) {
        Ok(v) => v,
        Err(e) => {
            proof {
                if m.contains_key(project_md_spec(project@)) {
                    lemma_enumeration_unique(m, project@, slugs);
                }
            }
            return Err(e);
        },
    };
    proof {
        lemma_enumeration_unique(m, project@, slugs);
        lemma_with_priority_none(roadmap_docs(m, project@, slugs));
    }
    unlink_all(store, project, &all, slug)?;
    let src = crate::text::cat(roadmap_dir(project, slug).as_str(), "/");
    let dst = crate::text::cat(archived_roadmap_dir(project, slug).as_str(), "/");
    store.copy_under(src.as_str(), dst.as_str());
    store.remove_under(src.as_str());
    Ok(())
}

/// Dropping a dependency from other roadmaps only writes roadmap files:
/// every file it leaves was there before or is a `roadmap.md`.
proof fn lemma_unlinked_keys(m: Files, project: Seq<char>, docs: Seq<DocView<RoadmapView>>, slug: Seq<char>)
    requires
        unlinked(m, project, docs, slug) is Some,
    ensures
        forall|k: Seq<char>| #[trigger] m.contains_key(k) ==> unlinked(m, project, docs, slug).unwrap().contains_key(k),
        forall|k: Seq<char>| #[trigger] unlinked(m, project, docs, slug).unwrap().contains_key(k) ==> m.contains_key(k)
            || exists|name: Seq<char>| k == roadmap_path_spec(project, name),
    decreases docs.len(),
{
    if docs.len() > 0 {
        lemma_unlinked_keys(m, project, docs.drop_last(), slug);
        let m1 = unlinked(m, project, docs.drop_last(), slug).unwrap();
        let name = docs.last().frontmatter.roadmap;
        assert forall|k: Seq<char>| #[trigger] unlinked(m, project, docs, slug).unwrap().contains_key(k) implies m.contains_key(k)
            || exists|name: Seq<char>| k == roadmap_path_spec(project, name) by {
            if !m1.contains_key(k) {
                assert(k == roadmap_path_spec(project, name));
            }
        }
    }
}

/// A path under a project's roadmaps directory is never under its archive.
proof fn lemma_active_not_archived(project: Seq<char>, slug: Seq<char>, k: Seq<char>)
    requires
        is_prefix(roadmaps_dir_spec(project) + "/"@, k),
    ensures
        !is_prefix(archived_roadmap_dir_spec(project, slug) + "/"@, k),
{
    reveal_strlit("projects/");
    reveal_strlit("/");
    reveal_strlit("roadmaps");
    reveal_strlit("archive/roadmaps");
    let i = ("projects/"@ + project + "/"@).len();
    let a = roadmaps_dir_spec(project) + "/"@;
    let d = archived_roadmap_dir_spec(project, slug) + "/"@;
    assert(a[i as int] == 'r');
    assert(d[i as int] == 'a');
    if is_prefix(d, k) {
        assert(k[i as int] == d[i as int]);
        assert(k[i as int] == a[i as int]);
    }
}

/// Archiving a roadmap that had no archived files, then unarchiving it,
/// succeeds and restores its directory: every file under it is again what
/// it was once the other roadmaps' dependencies on it were dropped, nothing
/// is left under its archive directory, and every other file is as that
/// dropping left it.
pub proof fn lemma_archive_then_unarchive(
    m: Files,
    project: &str,
    slug: &str,
    force: bool,
    m2: Files,
    r3: Result<()>,
    m3: Files,
)
    requires
        archive_roadmap_post(m, project, slug, force, Ok(()), m2),
        unarchive_roadmap_post(m2, project, slug, r3, m3),
        forall|k: Seq<char>| #[trigger] m.contains_key(k) ==> !is_prefix(archived_roadmap_dir_spec(project@, slug@) + "/"@, k),
    ensures
        r3 is Ok,
        exists|slugs: Seq<Seq<char>>, m1: Files|
            enumerates(m, project@, slugs) && unlinked(m, project@, roadmap_docs(m, project@, slugs), slug@) == Some(m1)
            && (forall|k: Seq<char>| is_prefix(roadmap_dir_spec(project@, slug@) + "/"@, k) ==> (#[trigger] m3.contains_key(k)
                == m1.contains_key(k) && (m1.contains_key(k) ==> m3[k] == m1[k])))
            && (forall|k: Seq<char>| is_prefix(archived_roadmap_dir_spec(project@, slug@) + "/"@, k) ==> !#[trigger] m3.contains_key(k))
            && (forall|k: Seq<char>| !is_prefix(roadmap_dir_spec(project@, slug@) + "/"@, k) && !is_prefix(
                archived_roadmap_dir_spec(project@, slug@) + "/"@, k) ==> (#[trigger] m3.contains_key(k) == m1.contains_key(k)
                && (m1.contains_key(k) ==> m3[k] == m1[k]))),
{
    reveal_strlit("/");
    reveal_strlit("/roadmap.md");
    reveal_strlit("roadmap.md");
    let s = roadmap_dir_spec(project@, slug@) + "/"@;
    let d = archived_roadmap_dir_spec(project@, slug@) + "/"@;
    let (slugs, m1) = choose|slugs: Seq<Seq<char>>, m1: Files|
        enumerates(m, project@, slugs) && all_roadmaps(m, project@, slugs) && unlinked(m, project@, roadmap_docs(m, project@, slugs), slug@)
            == Some(m1) && m2 == without_under(copied_under(m1, s, d), s);
    lemma_unlinked_keys(m, project@, roadmap_docs(m, project@, slugs), slug@);
    assert(roadmaps_dir_spec(project@) + "/"@ + slug@ + "/"@ =~= s);
    assert forall|k: Seq<char>| is_prefix(s, k) implies !is_prefix(d, k) by {
        assert(is_prefix(roadmaps_dir_spec(project@) + "/"@, k)) by {
            let a = roadmaps_dir_spec(project@) + "/"@;
            assert(s =~= a + (slug@ + "/"@));
            assert(s.subrange(0, a.len() as int) =~= a);
            assert(k.subrange(0, s.len() as int) == s);
            assert(k.subrange(0, a.len() as int) =~= k.subrange(0, s.len() as int).subrange(0, a.len() as int));
        }
        lemma_active_not_archived(project@, slug@, k);
    }
    assert forall|k: Seq<char>| #[trigger] m1.contains_key(k) implies !is_prefix(d, k) by {
        if !m.contains_key(k) {
            let name = choose|name: Seq<char>| k == roadmap_path_spec(project@, name);
            assert(is_prefix(roadmaps_dir_spec(project@) + "/"@, k)) by {
                let a = roadmaps_dir_spec(project@) + "/"@;
                assert(k =~= a + name + "/roadmap.md"@);
                assert(k.subrange(0, a.len() as int) =~= a);
            }
            lemma_active_not_archived(project@, slug@, k);
        }
    }
    // The roadmap file existed, so its archived copy does, and it is gone from the active side.
    let rp = roadmap_path_spec(project@, slug@);
    let ap = archived_roadmap_path_spec(project@, slug@);
    assert(m.contains_key(rp));
    assert(m1.contains_key(rp));
    assert(rp =~= s + "roadmap.md"@);
    assert(ap =~= d + "roadmap.md"@);
    assert(is_prefix(d, ap)) by {
        assert(ap.subrange(0, d.len() as int) =~= d);
    }
    assert(ap.subrange(d.len() as int, ap.len() as int) =~= "roadmap.md"@);
    assert(is_prefix(s, rp)) by {
        assert(rp.subrange(0, s.len() as int) =~= s);
    }
    assert(m2.contains_key(ap));
    assert(!m2.contains_key(rp));
    assert forall|k: Seq<char>| is_prefix(s, k) implies (#[trigger] m3.contains_key(k) == m1.contains_key(k)
        && (m1.contains_key(k) ==> m3[k] == m1[k])) by {
        let rest = k.subrange(s.len() as int, k.len() as int);
        let dk = d + rest;
        assert(k =~= s + rest);
        assert(is_prefix(d, dk)) by {
            assert(dk.subrange(0, d.len() as int) =~= d);
        }
        assert(dk.subrange(d.len() as int, dk.len() as int) =~= rest);
        assert(!is_prefix(s, dk));
        assert(!is_prefix(d, k));
    }
    assert forall|k: Seq<char>| !is_prefix(s, k) && !is_prefix(d, k) implies (#[trigger] m3.contains_key(k) == m1.contains_key(k)
        && (m1.contains_key(k) ==> m3[k] == m1[k])) by {
    }
}

/// The file of a roadmap named without a `/` lies under no other roadmap's
/// directory.
proof fn lemma_roadmap_path_outside(project: Seq<char>, name: Seq<char>, slug: Seq<char>)
    requires
        name != slug,
        !has_char(name, '/'),
    ensures
        !is_prefix(roadmap_dir_spec(project, slug) + "/"@, roadmap_path_spec(project, name)),
{
    reveal_strlit("/");
    reveal_strlit("/roadmap.md");
    let a = roadmaps_dir_spec(project) + "/"@;
    let s = roadmap_dir_spec(project, slug) + "/"@;
    let k = roadmap_path_spec(project, name);
    let t = "/roadmap.md"@;
    assert(s =~= a + slug + seq!['/']);
    assert(k =~= a + name + t);
    let al = a.len() as int;
    if is_prefix(s, k) {
        assert forall|i: int| 0 <= i < s.len() implies k[i] == s[i] by {
            assert(k.subrange(0, s.len() as int)[i] == s[i]);
        }
        if slug.len() < name.len() {
            assert(k[al + slug.len()] == name[slug.len() as int]);
            assert(s[al + slug.len()] == '/');
            assert(has_char(name, '/'));
        } else if slug.len() == name.len() {
            assert forall|i: int| 0 <= i < name.len() implies name[i] == slug[i] by {
                assert(k[al + i] == name[i]);
                assert(s[al + i] == slug[i]);
            }
            assert(name =~= slug);
        } else {
            let j = slug.len() - name.len();
            assert(k[al + slug.len()] == t[j]);
            assert(s[al + slug.len()] == '/');
            assert(t[j] != '/');
        }
    }
}

/// Dropping dependencies on `slug` touches no file under the directory of
/// `slug` when no roadmap name holds a `/`.
proof fn lemma_unlinked_outside(m: Files, project: Seq<char>, docs: Seq<DocView<RoadmapView>>, slug: Seq<char>)
    requires
        unlinked(m, project, docs, slug) is Some,
        forall|i: int| 0 <= i < docs.len() ==> !has_char((#[trigger] docs[i]).frontmatter.roadmap, '/'),
    ensures
        forall|k: Seq<char>| is_prefix(roadmap_dir_spec(project, slug) + "/"@, k) ==> (#[trigger] unlinked(m, project, docs, slug).unwrap().contains_key(k)
            == m.contains_key(k) && (m.contains_key(k) ==> unlinked(m, project, docs, slug).unwrap()[k] == m[k])),
    decreases docs.len(),
{
    if docs.len() > 0 {
        let p = docs.drop_last();
        assert forall|i: int| 0 <= i < p.len() implies !has_char((#[trigger] p[i]).frontmatter.roadmap, '/') by {
            assert(p[i] == docs[i]);
        }
        lemma_unlinked_outside(m, project, p, slug);
        let name = docs.last().frontmatter.roadmap;
        assert(docs.last() == docs[docs.len() - 1]);
        if name != slug {
            lemma_roadmap_path_outside(project, name, slug);
        }
    }
}

/// Archiving a roadmap that had no archived files, then unarchiving it,
/// gives back its directory exactly as it was, when no roadmap is named with
/// a `/` (dropping a dependency writes the file of the roadmap that held
/// it, and a name such as `r/x` puts that file inside the directory of `r`):
/// every file under it is there again with the same contents, no other file
/// is there, and nothing is left under its archive directory.
pub proof fn lemma_archive_then_unarchive_restores(
    m: Files,
    project: &str,
    slug: &str,
    force: bool,
    m2: Files,
    r3: Result<()>,
    m3: Files,
)
    requires
        archive_roadmap_post(m, project, slug, force, Ok(()), m2),
        unarchive_roadmap_post(m2, project, slug, r3, m3),
        forall|k: Seq<char>| #[trigger] m.contains_key(k) ==> !is_prefix(archived_roadmap_dir_spec(project@, slug@) + "/"@, k),
        forall|k: Seq<char>| (#[trigger] roadmap_at(m, k)) matches Some(x) ==> !has_char(x.frontmatter.roadmap, '/'),
    ensures
        r3 is Ok,
        forall|k: Seq<char>| is_prefix(roadmap_dir_spec(project@, slug@) + "/"@, k) ==> (#[trigger] m3.contains_key(k)
            == m.contains_key(k) && (m.contains_key(k) ==> m3[k] == m[k])),
        forall|k: Seq<char>| is_prefix(archived_roadmap_dir_spec(project@, slug@) + "/"@, k) ==> !#[trigger] m3.contains_key(k),
{
    lemma_archive_then_unarchive(m, project, slug, force, m2, r3, m3);
    let (slugs, m1) = choose|slugs: Seq<Seq<char>>, m1: Files|
        enumerates(m, project@, slugs) && all_roadmaps(m, project@, slugs) && unlinked(m, project@, roadmap_docs(m, project@, slugs), slug@)
            == Some(m1) && m2 == without_under(
            copied_under(m1, roadmap_dir_spec(project@, slug@) + "/"@, archived_roadmap_dir_spec(project@, slug@) + "/"@),
            roadmap_dir_spec(project@, slug@) + "/"@,
        );
    let (slugs2, m12) = choose|slugs: Seq<Seq<char>>, m1: Files|
        enumerates(m, project@, slugs) && unlinked(m, project@, roadmap_docs(m, project@, slugs), slug@) == Some(m1)
            && (forall|k: Seq<char>| is_prefix(roadmap_dir_spec(project@, slug@) + "/"@, k) ==> (#[trigger] m3.contains_key(k)
            == m1.contains_key(k) && (m1.contains_key(k) ==> m3[k] == m1[k])))
            && (forall|k: Seq<char>| is_prefix(archived_roadmap_dir_spec(project@, slug@) + "/"@, k) ==> !#[trigger] m3.contains_key(k))
            && (forall|k: Seq<char>| !is_prefix(roadmap_dir_spec(project@, slug@) + "/"@, k) && !is_prefix(
            archived_roadmap_dir_spec(project@, slug@) + "/"@, k) ==> (#[trigger] m3.contains_key(k) == m1.contains_key(k)
            && (m1.contains_key(k) ==> m3[k] == m1[k])));
    lemma_enumeration_unique(m, project@, slugs);
    assert(slugs2 == slugs);
    assert(m12 == m1);
    let docs = roadmap_docs(m, project@, slugs);
    assert forall|i: int| 0 <= i < docs.len() implies !has_char((#[trigger] docs[i]).frontmatter.roadmap, '/') by {
        assert(roadmap_at(m, roadmap_path_spec(project@, slugs[i])) is Some);
    }
    lemma_unlinked_outside(m, project@, docs, slug@);
    assert forall|k: Seq<char>| is_prefix(roadmap_dir_spec(project@, slug@) + "/"@, k) implies (#[trigger] m3.contains_key(k)
        == m.contains_key(k) && (m.contains_key(k) ==> m3[k] == m[k])) by {
        assert(m3.contains_key(k) == m1.contains_key(k) && (m1.contains_key(k) ==> m3[k] == m1[k]));
        assert(unlinked(m, project@, docs, slug@).unwrap().contains_key(k) == m.contains_key(k));
    }
}

/// What [`unarchive_roadmap`] gives: its result and, for a change, the files it leaves.
pub open spec fn unarchive_roadmap_post(m: Files, project: &str, slug: &str, r: Result<()>, m2: Files) -> bool {
    &&& (({
            let m = m;
            &&& !m.contains_key(archived_roadmap_path_spec(project@, slug@)) ==> (r matches Err(
                Error::RoadmapNotFound(n),
            ) && n@ == slug@ && m2 == m)
            &&& m.contains_key(archived_roadmap_path_spec(project@, slug@)) && m.contains_key(
                roadmap_path_spec(project@, slug@),
            ) ==> (r matches Err(Error::DuplicateSlug(n)) && n@ == slug@ && m2 == m)
            &&& m.contains_key(archived_roadmap_path_spec(project@, slug@)) && !m.contains_key(
                roadmap_path_spec(project@, slug@),
            ) ==> (r is Ok && m2 == without_under(
                copied_under(
                    m,
                    archived_roadmap_dir_spec(project@, slug@) + "/"@,
                    roadmap_dir_spec(project@, slug@) + "/"@,
                ),
                archived_roadmap_dir_spec(project@, slug@) + "/"@,
            ))
        }))
}

/// Moves an archived roadmap back among the active ones; its slug must be
/// free there.
pub fn unarchive_roadmap(store: &mut MemoryStore, project: &str, slug: &str) -> (r: Result<()>)
    ensures
        unarchive_roadmap_post(old(store).files(), project, slug, r, final(store).files()),
{
    if !store.file_exists(&archived_roadmap_path(project, slug)) {
        return Err(Error::RoadmapNotFound(owned(slug)));
    }
    if store.file_exists(&roadmap_path(project, slug)) {
        return Err(Error::DuplicateSlug(owned(slug)));
    }
    let src = crate::text::cat(archived_roadmap_dir(project, slug).as_str(), "/");
    let dst = crate::text::cat(roadmap_dir(project, slug).as_str(), "/");
    store.copy_under(src.as_str(), dst.as_str());
    store.remove_under(src.as_str());
    Ok(())
}

/// The part of a phase stem after its second `-`, or the whole stem when it
/// has fewer than two.
pub open spec fn stem_suffix(stem: Seq<char>) -> Seq<char> {
    match crate::text::split_once(stem, '-') {
        Some((_, rest)) => match crate::text::split_once(rest, '-') {
            Some((_, tail)) => tail,
            None => stem,
        },
        None => stem,
    }
}

fn stem_suffix_of(stem: &str) -> (r: &str)
    ensures
        r@ == stem_suffix(stem@),
{
    match crate::text::split_once_char(stem, '-') {
        Some((_, rest)) => match crate::text::split_once_char(rest, '-') {
            Some((_, tail)) => tail,
            None => stem,
        },
        None => stem,
    }
}

/// Phase stems renumbered from 1 in order, each keeping its suffix.
pub open spec fn renumbered(stems: Seq<Seq<char>>) -> Seq<Seq<char>> {
    Seq::new(
        stems.len(),
        |i: int| crate::model::phase_stem_spec((i + 1) as u32, stem_suffix(stems[i])),
    )
}

fn contains_in(v: &[String], s: &str) -> (r: bool)
    ensures
        r == v@.map_values(|x: String| x@).contains(s@),
{
    let ghost w = v@.map_values(|x: String| x@);
    let mut i: usize = 0;
    while i < v.len()
        invariant
            i <= v.len(),
            w == v@.map_values(|x: String| x@),
            forall|j: int| 0 <= j < i ==> w[j] != s@,
        decreases v.len() - i,
    {
        if crate::text::str_eq(v[i].as_str(), s) {
            assert(w[i as int] == s@);
            return true;
        }
        i = i + 1;
    }
    false
}

/// A phase document with its number set to `n`, the rest kept.
pub open spec fn phase_renumbered(d: DocView<PhaseView>, n: u32) -> DocView<PhaseView> {
    DocView { frontmatter: PhaseView { phase: n, ..d.frontmatter }, ..d }
}

/// The phase documents that roadmap `roadmap`'s files in `m` hold under `stems`.
pub open spec fn phase_docs_of(m: Files, project: Seq<char>, roadmap: Seq<char>, stems: Seq<Seq<char>>) -> Seq<
    DocView<PhaseView>,
> {
    stems.map_values(|s: Seq<char>| crate::io::phase_at(m, phase_path_spec(project, roadmap, s)).unwrap())
}

/// The files after the phases `stems` of roadmap `from`, with documents
/// `docs`, are moved one by one, in order, into roadmap `to` and renumbered
/// from 1: the `k`-th is written as `phase-<k+1>-<suffix>` with number
/// `k+1`, then its old file is deleted, always when `always_delete` is set
/// and otherwise only when its stem changed.
pub open spec fn moved_phases(
    m: Files,
    project: Seq<char>,
    from: Seq<char>,
    to: Seq<char>,
    stems: Seq<Seq<char>>,
    docs: Seq<DocView<PhaseView>>,
    always_delete: bool,
) -> Files
    decreases stems.len(),
{
    if stems.len() == 0 {
        m
    } else {
        let k = stems.len() - 1;
        let m1 = moved_phases(m, project, from, to, stems.drop_last(), docs.drop_last(), always_delete);
        let number = stems.len() as u32;
        let new_stem = crate::model::phase_stem_spec(number, stem_suffix(stems[k]));
        let m2 = m1.insert(
            phase_path_spec(project, to, new_stem),
            EntryView::Phase(phase_renumbered(docs[k], number)),
        );
        if always_delete || new_stem != stems[k] {
            m2.remove(phase_path_spec(project, from, stems[k]))
        } else {
            m2
        }
    }
}

/// The files a successful split of roadmap `source` (document `d`) leaves
/// before any dependency is added: the chosen phases moved into `target`,
/// the rest renumbered in place, then both roadmap files written.
pub open spec fn split_files(
    m: Files,
    project: Seq<char>,
    source: Seq<char>,
    target: Seq<char>,
    d: DocView<RoadmapView>,
    chosen: Seq<Seq<char>>,
    target_doc: DocView<RoadmapView>,
) -> Files {
    let ev = d.frontmatter.phases.filter(|x: Seq<char>| chosen.contains(x));
    let rv = d.frontmatter.phases.filter(|x: Seq<char>| !chosen.contains(x));
    let m1 = moved_phases(m, project, source, target, ev, phase_docs_of(m, project, source, ev), true);
    let m2 = moved_phases(m1, project, source, source, rv, phase_docs_of(m, project, source, rv), false);
    m2.insert(
        roadmap_path_spec(project, source),
        EntryView::Roadmap(DocView { frontmatter: RoadmapView { phases: renumbered(rv), ..d.frontmatter }, ..d }),
    ).insert(roadmap_path_spec(project, target), EntryView::Roadmap(target_doc))
}

/// The new roadmap a split creates, before any dependency is added.
pub open spec fn split_target(project: Seq<char>, target: Seq<char>, title: Seq<char>, stems: Seq<Seq<char>>) -> DocView<RoadmapView> {
    DocView {
        frontmatter: RoadmapView {
            project: project,
            roadmap: target,
            title: title,
            phases: stems,
            dependencies: None,
            priority: None,
            tags: None,
        },
        body: Seq::empty(),
    }
}

/// What [`split_roadmap`] gives: its result and, for a change, the files it leaves.
pub open spec fn split_roadmap_post(m: Files, project: &str, source_slug: &str, target_slug: &str, target_title: &str, phase_stems: &[String], depends_on: Option<&str>, r: Result<Document<Roadmap>>, m2: Files) -> bool {
    &&& (({
            let m = m;
            let sp = roadmap_path_spec(project@, source_slug@);
            let tp = roadmap_path_spec(project@, target_slug@);
            let chosen = phase_stems@.map_values(|x: String| x@);
            &&& !m.contains_key(sp) ==> (r matches Err(Error::RoadmapNotFound(n)) && n@ == source_slug@
                && m2 == m)
            &&& m.contains_key(sp) && roadmap_at(m, sp) is None ==> (r matches Err(e) && e is FrontmatterParse
                && m2 == m)
            &&& roadmap_at(m, sp) is Some && m.contains_key(tp) ==> (r matches Err(Error::DuplicateSlug(n))
                && n@ == target_slug@ && m2 == m)
            &&& roadmap_at(m, sp) matches Some(d) ==> (!m.contains_key(tp) && (exists|i: int|
                0 <= i < chosen.len() && !d.frontmatter.phases.contains(#[trigger] chosen[i])) ==> (r matches Err(e)
                && e is InvalidPhaseSelection && m2 == m))
            &&& roadmap_at(m, sp) matches Some(d) ==> (!m.contains_key(tp) && (forall|x: Seq<char>|
                #[trigger] d.frontmatter.phases.contains(x) ==> chosen.contains(x)) ==> (r matches Err(e)
                && e is InvalidPhaseSelection && m2 == m))
            &&& roadmap_at(m, sp) is Some && !m.contains_key(tp) && chosen.len() == 0 ==> (r matches Err(e)
                && e is InvalidPhaseSelection && m2 == m)
            &&& roadmap_at(m, sp) matches Some(d) ==> (!m.contains_key(tp) && chosen.len() > 0
                && (forall|i: int| 0 <= i < chosen.len() ==> d.frontmatter.phases.contains(#[trigger] chosen[i]))
                && (exists|x: Seq<char>| #[trigger] d.frontmatter.phases.contains(x) && !chosen.contains(x))
                && (forall|x: Seq<char>| #[trigger] d.frontmatter.phases.contains(x) ==> crate::io::phase_at(
                    m, phase_path_spec(project@, source_slug@, x)) is Some)
                && depends_on is None ==> r is Ok)
            &&& roadmap_at(m, sp) matches Some(d) ==> (!m.contains_key(tp) && chosen.len() > 0
                && (forall|i: int| 0 <= i < chosen.len() ==> d.frontmatter.phases.contains(#[trigger] chosen[i]))
                && (exists|x: Seq<char>| #[trigger] d.frontmatter.phases.contains(x) && !chosen.contains(x))
                && (forall|x: Seq<char>| #[trigger] d.frontmatter.phases.contains(x) ==> crate::io::phase_at(
                    m, phase_path_spec(project@, source_slug@, x)) is Some)
                && depends_on is Some ==> {
                    let m1 = split_files(m, project@, source_slug@, target_slug@, d, chosen, split_target(
                        project@, target_slug@, target_title@,
                        renumbered(d.frontmatter.phases.filter(|x: Seq<char>| chosen.contains(x)))));
                    exists|rd: Result<Document<Roadmap>>|
                        #[trigger] add_dependency_post(m1, project, target_slug, depends_on.unwrap(), rd, m2) && match rd {
                            Ok(_) => r is Ok,
                            Err(e) => r == Err::<Document<Roadmap>, Error>(e),
                        }
                })
            &&& r is Err && depends_on is None ==> m2 == m
            &&& r matches Ok(doc) ==> (roadmap_at(m, sp) matches Some(d) && doc@ == DocView {
                frontmatter: RoadmapView {
                    project: project@,
                    roadmap: target_slug@,
                    title: target_title@,
                    phases: renumbered(d.frontmatter.phases.filter(|x: Seq<char>| chosen.contains(x))),
                    dependencies: match depends_on {
                        Some(dep) => Some(seq![dep@]),
                        None => None,
                    },
                    priority: None,
                    tags: None,
                },
                body: Seq::empty(),
            } && roadmap_at(m2, tp) == Some(doc@) && roadmap_at(m2, sp) == Some(DocView {
                frontmatter: RoadmapView {
                    phases: renumbered(d.frontmatter.phases.filter(|x: Seq<char>| !chosen.contains(x))),
                    ..d.frontmatter
                },
                ..d
            }) && {
                let m1 = split_files(m, project@, source_slug@, target_slug@, d, chosen, split_target(
                    project@, target_slug@, target_title@,
                    renumbered(d.frontmatter.phases.filter(|x: Seq<char>| chosen.contains(x)))));
                match depends_on {
                    None => m2 == m1,
                    Some(dep) => exists|rd: Result<Document<Roadmap>>|
                        #[trigger] add_dependency_post(m1, project, target_slug, dep, rd, m2) && rd is Ok,
                }
            })
        }))
}

/// Loads the phases `stems` of roadmap `roadmap`, in order; fails when one
/// of them does not load.
fn load_phases(store: &MemoryStore, project: &str, roadmap: &str, stems: &Vec<String>) -> (r: Result<Vec<Document<Phase>>>)
    ensures
        r is Ok <==> forall|i: int| 0 <= i < stems.len() ==> (#[trigger] crate::io::phase_at(
            store.files(), phase_path_spec(project@, roadmap@, stems[i]@))) is Some,
        r matches Ok(v) ==> v.len() == stems.len() && forall|i: int| 0 <= i < stems.len() ==>
            #[trigger] v[i]@ == phase_docs_of(store.files(), project@, roadmap@, stems.deep_view())[i],
{
    let ghost m = store.files();
    let mut out: Vec<Document<Phase>> = Vec::new();
    let mut i: usize = 0;
    while i < stems.len()
        invariant
            i <= stems.len(),
            out.len() == i,
            m == store.files(),
            forall|k: int| 0 <= k < i ==> (#[trigger] crate::io::phase_at(m, phase_path_spec(project@, roadmap@, stems[k]@))) is Some,
            forall|k: int| 0 <= k < i ==> #[trigger] out[k]@ == phase_docs_of(m, project@, roadmap@, stems.deep_view())[k],
        decreases stems.len() - i,
    {
        assert(stems.deep_view()[i as int] == stems[i as int]@);
        match crate::io::load_phase(store, project, roadmap, stems[i].as_str()) {
            Ok(d) => {
                out.push(d);
            },
            Err(e) => {
                return Err(e);
            },
        }
        i = i + 1;
    }
    Ok(out)
}

/// Moves the phases `phase_stems` of roadmap `source_slug` into a new
/// roadmap `target_slug`, renumbering the moved phases and those left
/// behind from 1 in their order; the new roadmap depends on `depends_on`
/// when one is given. Every named phase must belong to the source, at
/// least one phase must be named, and one must stay. Every phase is loaded
/// before anything is written.
#[verifier::rlimit(40)]
#[verifier::spinoff_prover]
pub fn split_roadmap(
    store: &mut MemoryStore,
    project: &str,
    source_slug: &str,
    target_slug: &str,
    target_title: &str,
    phase_stems: &[String],
    depends_on: Option<&str>,
) -> (r: Result<Document<Roadmap>>)
    ensures
        split_roadmap_post(old(store).files(), project, source_slug, target_slug, target_title, phase_stems, depends_on, r, final(store).files()),
{
    let ghost m = store.files();
    let ghost chosen = phase_stems@.map_values(|x: String| x@);
    let source_doc = load_roadmap(store, project, source_slug)?;
    if store.file_exists(&roadmap_path(project, target_slug)) {
        return Err(Error::DuplicateSlug(owned(target_slug)));
    }
    let ghost d = source_doc@;
    let source_phases = &source_doc.frontmatter.phases;
    let mut k: usize = 0;
    let mut missing = false;
    while k < phase_stems.len() && !missing
        invariant
            k <= phase_stems.len(),
            chosen == phase_stems@.map_values(|x: String| x@),
            source_phases.deep_view() == d.frontmatter.phases,
            forall|j: int| 0 <= j < k ==> d.frontmatter.phases.contains(#[trigger] chosen[j]),
            missing ==> k < phase_stems.len() && !d.frontmatter.phases.contains(chosen[k as int]),
        decreases phase_stems.len() - k, if missing { 0int } else { 1int },
    {
        assert(chosen[k as int] == phase_stems@[k as int]@);
        if !crate::graph::contains_str(source_phases, phase_stems[k].as_str()) {
            missing = true;
        } else {
            k = k + 1;
        }
    }
    if missing {
        let mut msg = crate::text::cat3("phase '", phase_stems[k].as_str(), "' is not in roadmap '");
        msg.append(source_slug);
        msg.append("'");
        return Err(Error::InvalidPhaseSelection(msg));
    }
    let ghost pred_in = |x: Seq<char>| chosen.contains(x);
    let ghost pred_out = |x: Seq<char>| !chosen.contains(x);
    let mut extracted: Vec<String> = Vec::new();
    let mut remaining: Vec<String> = Vec::new();
    let mut i: usize = 0;
    while i < source_phases.len()
        invariant
            i <= source_phases.len(),
            chosen == phase_stems@.map_values(|x: String| x@),
            pred_in == (|x: Seq<char>| chosen.contains(x)),
            pred_out == (|x: Seq<char>| !chosen.contains(x)),
            extracted.deep_view() == source_phases.deep_view().subrange(0, i as int).filter(pred_in),
            remaining.deep_view() == source_phases.deep_view().subrange(0, i as int).filter(pred_out),
        decreases source_phases.len() - i,
    {
        let inside = contains_in(phase_stems, source_phases[i].as_str());
        proof {
            let a = source_phases.deep_view().subrange(0, i as int);
            let x = source_phases.deep_view()[i as int];
            assert(source_phases.deep_view().subrange(0, i + 1) =~= a + seq![x]);
            Seq::filter_distributes_over_add(a, seq![x], pred_in);
            Seq::filter_distributes_over_add(a, seq![x], pred_out);
            reveal_with_fuel(Seq::filter, 2);
            assert(seq![x].drop_last() =~= Seq::<Seq<char>>::empty());
        }
        let ghost e0 = extracted.deep_view();
        let ghost r0 = remaining.deep_view();
        if inside {
            extracted.push(source_phases[i].clone());
            assert(extracted.deep_view() =~= e0 + seq![source_phases.deep_view()[i as int]]);
            assert(remaining.deep_view() =~= r0 + Seq::<Seq<char>>::empty());
        } else {
            remaining.push(source_phases[i].clone());
            assert(remaining.deep_view() =~= r0 + seq![source_phases.deep_view()[i as int]]);
            assert(extracted.deep_view() =~= e0 + Seq::<Seq<char>>::empty());
        }
        i = i + 1;
    }
    assert(source_phases.deep_view().subrange(0, source_phases.len() as int) =~= source_phases.deep_view());
    let ghost ev = extracted.deep_view();
    let ghost rv = remaining.deep_view();
    if remaining.len() == 0 {
        proof {
            assert forall|x: Seq<char>| #[trigger] d.frontmatter.phases.contains(x) implies chosen.contains(x) by {
                if !chosen.contains(x) {
                    let j = choose|j: int| 0 <= j < d.frontmatter.phases.len() && d.frontmatter.phases[j] == x;
                    d.frontmatter.phases.lemma_filter_contains(pred_out, j);
                }
            }
        }
        return Err(Error::InvalidPhaseSelection(owned("cannot extract all phases — source roadmap would be empty")));
    }
    proof {
        assert(rv.contains(rv[0]));
        d.frontmatter.phases.lemma_filter_contains_rev(pred_out, rv[0]);
        d.frontmatter.phases.lemma_filter_pred(pred_out, 0);
        assert(d.frontmatter.phases.contains(rv[0]) && !chosen.contains(rv[0]));
    }
    if phase_stems.len() == 0 {
        return Err(Error::InvalidPhaseSelection(owned("no phases specified to extract")));
    }
    let ghost de = phase_docs_of(m, project@, source_slug@, ev);
    let ghost dr = phase_docs_of(m, project@, source_slug@, rv);
    proof {
        assert forall|x: Seq<char>| ev.contains(x) || rv.contains(x) implies #[trigger] d.frontmatter.phases.contains(x) by {
            if ev.contains(x) {
                d.frontmatter.phases.lemma_filter_contains_rev(pred_in, x);
            } else {
                d.frontmatter.phases.lemma_filter_contains_rev(pred_out, x);
            }
        }
    }
    let edocs = match load_phases(store, project, source_slug, &extracted) {
        Ok(v) => v,
        Err(e) => {
            proof {
                let j = choose|j: int| 0 <= j < extracted.len() && !((#[trigger] crate::io::phase_at(
                    m, phase_path_spec(project@, source_slug@, extracted[j]@))) is Some);
                assert(ev[j] == extracted[j]@);
                assert(ev.contains(ev[j]));
            }
            return Err(e);
        },
    };
    let rdocs = match load_phases(store, project, source_slug, &remaining) {
        Ok(v) => v,
        Err(e) => {
            proof {
                let j = choose|j: int| 0 <= j < remaining.len() && !((#[trigger] crate::io::phase_at(
                    m, phase_path_spec(project@, source_slug@, remaining[j]@))) is Some);
                assert(rv[j] == remaining[j]@);
                assert(rv.contains(rv[j]));
                d.frontmatter.phases.lemma_filter_contains_rev(pred_out, rv[j]);
                assert(d.frontmatter.phases.contains(rv[j]));
                assert(crate::io::phase_at(m, phase_path_spec(project@, source_slug@, rv[j])) is None);
            }
            return Err(e);
        },
    };
    let mut target_stems: Vec<String> = Vec::new();
    let mut a: usize = 0;
    assert(ev.subrange(0, 0) =~= Seq::<Seq<char>>::empty());
    while a < extracted.len()
        invariant
            m == old(store).files(),
            ev == extracted.deep_view(),
            de == phase_docs_of(m, project@, source_slug@, ev),
            edocs.len() == ev.len(),
            forall|q: int| 0 <= q < ev.len() ==> #[trigger] edocs[q]@ == de[q],
            a <= extracted.len(),
            store.files() == moved_phases(m, project@, source_slug@, target_slug@, ev.subrange(0, a as int), de.subrange(0, a as int), true),
            target_stems.deep_view() == renumbered(ev).subrange(0, a as int),
        decreases extracted.len() - a,
    {
        let old_stem = extracted[a].as_str();
        #[verifier::truncate]
        let new_number = (a + 1) as u32;
        let new_stem = crate::model::phase_stem(new_number, stem_suffix_of(old_stem));
        let mut new_doc = edocs[a].duplicate();
        new_doc.frontmatter.phase = new_number;
        proof {
            let sub = ev.subrange(0, a + 1);
            assert(sub.drop_last() =~= ev.subrange(0, a as int));
            assert(de.subrange(0, a + 1).drop_last() =~= de.subrange(0, a as int));
            assert(sub[a as int] == old_stem@);
            assert(new_doc@ == phase_renumbered(de[a as int], new_number));
        }
        crate::io::write_phase(store, project, target_slug, new_stem.as_str(), &new_doc);
        let old_path = crate::paths::phase_path(project, source_slug, old_stem);
        let _ = store.delete(&old_path);
        assert(store.files() == moved_phases(m, project@, source_slug@, target_slug@, ev.subrange(0, a + 1), de.subrange(0, a + 1), true));
        let ghost t0 = target_stems.deep_view();
        assert(renumbered(ev)[a as int] == new_stem@);
        let ghost nv = new_stem@;
        target_stems.push(new_stem);
        assert(target_stems.deep_view() =~= t0.push(nv));
        assert(renumbered(ev).subrange(0, a + 1) =~= renumbered(ev).subrange(0, a as int).push(nv));
        a = a + 1;
    }
    assert(renumbered(ev).subrange(0, extracted.len() as int) =~= renumbered(ev));
    assert(ev.subrange(0, ev.len() as int) =~= ev);
    assert(de.subrange(0, de.len() as int) =~= de);
    let ghost m1 = store.files();
    let mut source_stems: Vec<String> = Vec::new();
    let mut b: usize = 0;
    assert(rv.subrange(0, 0) =~= Seq::<Seq<char>>::empty());
    while b < remaining.len()
        invariant
            m == old(store).files(),
            rv == remaining.deep_view(),
            dr == phase_docs_of(m, project@, source_slug@, rv),
            rdocs.len() == rv.len(),
            forall|q: int| 0 <= q < rv.len() ==> #[trigger] rdocs[q]@ == dr[q],
            b <= remaining.len(),
            store.files() == moved_phases(m1, project@, source_slug@, source_slug@, rv.subrange(0, b as int), dr.subrange(0, b as int), false),
            source_stems.deep_view() == renumbered(rv).subrange(0, b as int),
        decreases remaining.len() - b,
    {
        let old_stem = remaining[b].as_str();
        #[verifier::truncate]
        let new_number = (b + 1) as u32;
        let new_stem = crate::model::phase_stem(new_number, stem_suffix_of(old_stem));
        let mut new_doc = rdocs[b].duplicate();
        new_doc.frontmatter.phase = new_number;
        proof {
            let sub = rv.subrange(0, b + 1);
            assert(sub.drop_last() =~= rv.subrange(0, b as int));
            assert(dr.subrange(0, b + 1).drop_last() =~= dr.subrange(0, b as int));
            assert(sub[b as int] == old_stem@);
            assert(new_doc@ == phase_renumbered(dr[b as int], new_number));
        }
        crate::io::write_phase(store, project, source_slug, new_stem.as_str(), &new_doc);
        if !crate::text::str_eq(new_stem.as_str(), old_stem) {
            let old_path = crate::paths::phase_path(project, source_slug, old_stem);
            let _ = store.delete(&old_path);
        }
        assert(store.files() == moved_phases(m1, project@, source_slug@, source_slug@, rv.subrange(0, b + 1), dr.subrange(0, b + 1), false));
        assert(renumbered(rv)[b as int] == new_stem@);
        let ghost nv = new_stem@;
        let ghost s0 = source_stems.deep_view();
        source_stems.push(new_stem);
        assert(source_stems.deep_view() =~= s0.push(nv));
        assert(renumbered(rv).subrange(0, b + 1) =~= renumbered(rv).subrange(0, b as int).push(nv));
        b = b + 1;
    }
    assert(renumbered(rv).subrange(0, remaining.len() as int) =~= renumbered(rv));
    assert(rv.subrange(0, rv.len() as int) =~= rv);
    assert(dr.subrange(0, dr.len() as int) =~= dr);
    let mut updated = source_doc.duplicate();
    updated.frontmatter.phases = source_stems;
    write_roadmap(store, project, source_slug, &updated);
    let target_doc = Document {
        frontmatter: Roadmap {
            project: owned(project),
            roadmap: owned(target_slug),
            title: owned(target_title),
            phases: target_stems,
            dependencies: None,
            priority: None,
            tags: None,
        },
        body: String::new(),
    };
    proof {
        lemma_roadmap_paths_differ(project@, source_slug@, target_slug@);
    }
    write_roadmap(store, project, target_slug, &target_doc);
    assert(store.files() == split_files(m, project@, source_slug@, target_slug@, d, chosen, split_target(
        project@, target_slug@, target_title@, renumbered(ev))));
    match depends_on {
        Some(dep) => {
            let ghost mb = store.files();
            let added = add_dependency(store, project, target_slug, dep);
            match added {
                Ok(_) => {
                    assert(add_dependency_post(mb, project, target_slug, dep, added, store.files()));
                },
                Err(e) => {
                    assert(add_dependency_post(mb, project, target_slug, dep, added, store.files()));
                    return Err(e);
                },
            }
        },
        None => {},
    }
    load_roadmap(store, project, target_slug)
}

/// Roadmap files of different slugs are different files.
proof fn lemma_roadmap_paths_differ(project: Seq<char>, a: Seq<char>, b: Seq<char>)
    requires
        a != b,
    ensures
        roadmap_path_spec(project, a) != roadmap_path_spec(project, b),
{
    let pa = roadmap_path_spec(project, a);
    let pb = roadmap_path_spec(project, b);
    let d = roadmaps_dir_spec(project) + "/"@;
    let t = "/roadmap.md"@;
    assert(pa =~= d + a + t);
    assert(pb =~= d + b + t);
    if pa == pb {
        assert(a.len() == b.len());
        assert forall|i: int| 0 <= i < a.len() implies a[i] == b[i] by {
            assert(pa[d.len() + i] == a[i]);
            assert(pb[d.len() + i] == b[i]);
        }
        assert(a =~= b);
    }
}


proof fn lemma_filter_keeps_all(v: Seq<Seq<char>>, pred: spec_fn(Seq<char>) -> bool)
    requires
        forall|i: int| 0 <= i < v.len() ==> pred(#[trigger] v[i]),
    ensures
        v.filter(pred) == v,
    decreases v.len(),
{
    reveal(Seq::filter);
    if v.len() > 0 {
        assert forall|i: int| 0 <= i < v.drop_last().len() implies pred(#[trigger] v.drop_last()[i]) by {
            assert(v.drop_last()[i] == v[i]);
        }
        lemma_filter_keeps_all(v.drop_last(), pred);
        assert(pred(v[v.len() - 1]));
        assert(v.drop_last().push(v.last()) =~= v);
    }
}

/// Dropping a dependency undoes adding it: the dependencies of a roadmap
/// that did not have `dep`, and whose list is absent or not empty, come
/// back as they were.
pub proof fn lemma_deps_without_with(deps: Option<Seq<Seq<char>>>, dep: Seq<char>)
    requires
        deps matches Some(v) ==> v.len() > 0 && !v.contains(dep),
    ensures
        deps_without(deps_with(deps, dep), dep) == deps,
{
    reveal(Seq::filter);
    match deps {
        Some(v) => {
            let w = v.push(dep);
            assert(w.drop_last() =~= v);
            assert(w.last() == dep);
            assert forall|pred: spec_fn(Seq<char>) -> bool|
                (forall|x: Seq<char>| #[trigger] pred(x) == (x != dep)) implies #[trigger] w.filter(pred) == v by {
                assert forall|i: int| 0 <= i < v.len() implies pred(#[trigger] v[i]) by {
                    assert(v.contains(v[i]));
                }
                lemma_filter_keeps_all(v, pred);
                assert(!pred(dep));
            }
            assert(deps_without(Some(w), dep) == Some(v));
            assert(deps_with(deps, dep) == Some(w));
            assert(deps_without(deps_with(deps, dep), dep) == deps);
        },
        None => {
            let w = seq![dep];
            assert(w.drop_last() =~= Seq::<Seq<char>>::empty());
            assert forall|pred: spec_fn(Seq<char>) -> bool|
                (forall|x: Seq<char>| #[trigger] pred(x) == (x != dep)) implies (#[trigger] w.filter(pred)).len() == 0 by {
                reveal_with_fuel(Seq::filter, 2);
                assert(!pred(dep));
                assert(w.last() == dep);
                assert(w.drop_last().filter(pred) =~= Seq::<Seq<char>>::empty());
            }
            assert(deps_without(deps_with(deps, dep), dep) == deps);
        },
    }
}

/// Adding a dependency keeps the project's dependency graph acyclic: when the
/// graph of the listed roadmaps has no cycle before [`add_dependency`], it
/// has none after, whatever the call returned, and the same roadmaps are
/// listed. The roadmap that gains the dependency must carry its own slug as
/// its name, since the graph's nodes are the names the documents carry: a
/// roadmap `a` named `x` that gains `a -> b`, where `b` depends on `x`,
/// closes the cycle `x -> b -> x` that the check on `a` does not see.
pub proof fn lemma_add_dependency_keeps_acyclic(
    m: Files,
    project: &str,
    slug: &str,
    depends_on: &str,
    r: Result<Document<Roadmap>>,
    m2: Files,
    slugs: Seq<Seq<char>>,
)
    requires
        add_dependency_post(m, project, slug, depends_on, r, m2),
        enumerates(m, project@, slugs),
        acyclic(graph_of(roadmap_docs(m, project@, slugs))),
        roadmap_at(m, roadmap_path_spec(project@, slug@)) matches Some(d) ==> d.frontmatter.roadmap == slug@,
    ensures
        enumerates(m2, project@, slugs),
        all_roadmaps(m, project@, slugs) ==> all_roadmaps(m2, project@, slugs),
        acyclic(graph_of(roadmap_docs(m2, project@, slugs))),
{
    if m2 != m {
        let path = roadmap_path_spec(project@, slug@);
        let d = roadmap_at(m, path).unwrap();
        let doc = r->Ok_0;
        assert(m2 == m.insert(path, EntryView::Roadmap(doc@)));
        let s2 = choose|s2: Seq<Seq<char>>|
            enumerates(m, project@, s2) && all_roadmaps(m, project@, s2) && !reaches(
                with_edge(graph_of(roadmap_docs(m, project@, s2)), slug@, depends_on@),
                slug@,
                slug@,
            );
        lemma_enumeration_unique(m, project@, slugs);
        assert(s2 == slugs);
        let g1 = graph_of(roadmap_docs(m, project@, slugs));
        let h = with_edge(g1, slug@, depends_on@);
        lemma_added_edge_keeps_acyclic(g1, slug@, depends_on@);
        assert(m2.dom() =~= m.dom());
        assert forall|x: Seq<char>| is_roadmap_slug(m2, project@, x) == is_roadmap_slug(m, project@, x) by {
            if listed(m, roadmaps_dir_spec(project@), x, DirEntryKind::Dir) {
                let k = choose|k: Seq<char>| m.contains_key(k) && child_of(roadmaps_dir_spec(project@), k) == Some((x, DirEntryKind::Dir));
                assert(m2.contains_key(k));
            }
            if listed(m2, roadmaps_dir_spec(project@), x, DirEntryKind::Dir) {
                let k = choose|k: Seq<char>| m2.contains_key(k) && child_of(roadmaps_dir_spec(project@), k) == Some((x, DirEntryKind::Dir));
                assert(m.contains_key(k));
            }
        }
        let g2 = graph_of(roadmap_docs(m2, project@, slugs));
        assert(g2.len() == slugs.len() && g1.len() == slugs.len());
        assert forall|i: int| 0 <= i < slugs.len() && slugs[i] != slug@ implies #[trigger] g2[i] == g1[i]
            && roadmap_at(m2, roadmap_path_spec(project@, slugs[i])) is Some by {
            lemma_roadmap_paths_differ(project@, slugs[i], slug@);
            assert(roadmap_at(m, roadmap_path_spec(project@, slugs[i])) is Some);
        }
        assert forall|i: int| 0 <= i < slugs.len() implies (#[trigger] roadmap_at(m2, roadmap_path_spec(project@, slugs[i])))
            is Some by {
            if slugs[i] != slug@ {
                assert(g2[i] == g1[i]);
            }
        }
        assert forall|x: Seq<char>, y: Seq<char>| #[trigger] edge(g2, x, y) implies edge(h, x, y) by {
            lemma_with_edge(g1, slug@, depends_on@, x, y);
            let i = choose|i: int| 0 <= i < g2.len() && g2[i].0 == x && #[trigger] g2[i].1.contains(y);
            if slugs[i] != slug@ {
                assert(g2[i] == g1[i]);
                assert(edge(g1, x, y));
            } else {
                assert(roadmap_at(m, roadmap_path_spec(project@, slugs[i])) == Some(d));
                assert(g1[i].0 == slug@);
                assert(g2[i].0 == slug@);
                let q = choose|q: int| 0 <= q < g2[i].1.len() && g2[i].1[q] == y;
                if y != depends_on@ {
                    match d.frontmatter.dependencies {
                        Some(v) => {
                            assert(g2[i].1 == v.push(depends_on@));
                            assert(g1[i].1 == v);
                            assert(q < v.len());
                            assert(g1[i].1[q] == y);
                            assert(g1[i].1.contains(y));
                            assert(edge(g1, x, y));
                        },
                        None => {
                            assert(g2[i].1 == seq![depends_on@]);
                        },
                    }
                }
            }
        }
        lemma_fewer_edges_acyclic(g2, h);
    }
}

/// Removing a dependency undoes adding it: after [`add_dependency`] adds
/// `dep` to a roadmap that did not have it, and whose list is absent or not
/// empty, [`remove_dependency`] of `dep` leaves the files as they were.
pub proof fn lemma_remove_undoes_add(
    m: Files,
    project: &str,
    slug: &str,
    dep: &str,
    r1: Result<Document<Roadmap>>,
    m1: Files,
    r2: Result<Document<Roadmap>>,
    m2: Files,
)
    requires
        roadmap_at(m, roadmap_path_spec(project@, slug@)) matches Some(d) && !has_dependency(d, dep@)
            && (d.frontmatter.dependencies matches Some(v) ==> v.len() > 0),
        add_dependency_post(m, project, slug, dep, r1, m1),
        r1 is Ok,
        remove_dependency_post(m1, project, slug, dep, r2, m2),
    ensures
        r2 is Ok,
        m2 == m,
{
    let path = roadmap_path_spec(project@, slug@);
    let d = roadmap_at(m, path).unwrap();
    lemma_deps_without_with(d.frontmatter.dependencies, dep@);
    let doc1 = r1->Ok_0;
    assert(doc1@ == DocView {
        frontmatter: RoadmapView {
            dependencies: deps_with(d.frontmatter.dependencies, dep@),
            ..d.frontmatter
        },
        ..d
    });
    assert(roadmap_at(m1, path) == Some(doc1@));
    assert(m2 == m1.insert(path, EntryView::Roadmap(d)));
    assert(m.contains_key(path) && m[path] == EntryView::Roadmap(d));
    assert(m2 =~= m);
}

} // verus!
