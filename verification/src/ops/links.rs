//! Resolving `rdm:` links: an item reference to whether the item exists and
//! where its file is, a source reference to the revision it is read at and
//! its web address.
use vstd::prelude::*;

use crate::error::{Error, Result};
use crate::io::{load_project, project_at};
use crate::link::{BacklinkEntry, DocRef, DocRefView, ItemRef, ItemRefView, Link, Resolved, ResolvedView};
use crate::model::{Project, ProjectView};
use crate::ops::phase::{resolve_phase_stem, resolves_stem};
use crate::paths::{
    phase_path, phase_path_spec, plan_path, plan_path_spec, project_md_spec, roadmap_path, roadmap_path_spec,
    task_path, task_path_spec,
};
use crate::store::{Files, MemoryStore, RelPath};
use crate::text::{cat, cat3, decimal, is_suffix, owned, strip_suffix, u64_to_decimal};

verus! {

/// What resolving phase identifier `stem` of roadmap `roadmap` leniently
/// gives: the resolved stem and `true`, or, for an unknown roadmap or phase
/// number, the identifier as written and `false`; any other failure is
/// passed on.
pub open spec fn lenient_stem(m: Files, project: Seq<char>, roadmap: Seq<char>, stem: Seq<char>, r: Result<(String, bool)>) -> bool {
    exists|rs: Result<String>|
        #[trigger] resolves_stem(m, project, roadmap, stem, rs) && match rs {
            Ok(s) => r matches Ok(p) && p.0@ == s@ && p.1,
            Err(Error::RoadmapNotFound(_)) => r matches Ok(p) && p.0@ == stem && !p.1,
            Err(Error::PhaseNotFound(_)) => r matches Ok(p) && p.0@ == stem && !p.1,
            Err(e) => r == Err::<(String, bool), Error>(e),
        }
}

fn resolve_phase_stem_lenient(store: &MemoryStore, project: &str, roadmap: &str, stem: &str) -> (r: Result<
    (String, bool),
>)
    ensures
        lenient_stem(store.files(), project@, roadmap@, stem@, r),
{
    let rs = resolve_phase_stem(store, project, roadmap, stem);
    let ghost rsv = rs;
    assert(resolves_stem(store.files(), project@, roadmap@, stem@, rsv));
    match rs {
        Ok(s) => Ok((s, true)),
        Err(Error::RoadmapNotFound(n)) => Ok((owned(stem), false)),
        Err(Error::PhaseNotFound(n)) => Ok((owned(stem), false)),
        Err(e) => Err(e),
    }
}

/// What resolving item reference `t` gives: the item and whether its file
/// exists, a phase named by number first resolved to its stem (an unknown
/// roadmap or number is an item that does not exist, never an error).
pub open spec fn item_resolved(m: Files, project: Seq<char>, t: ItemRefView, r: Result<Resolved>) -> bool {
    match t {
        ItemRefView::Roadmap { roadmap } => r matches Ok(x) && x@ == ResolvedView::Item {
            target: t,
            exists: m.contains_key(roadmap_path_spec(project, roadmap)),
        },
        ItemRefView::Task { slug } => r matches Ok(x) && x@ == ResolvedView::Item {
            target: t,
            exists: m.contains_key(task_path_spec(project, slug)),
        },
        ItemRefView::Plan { slug } => r matches Ok(x) && x@ == ResolvedView::Item {
            target: t,
            exists: m.contains_key(plan_path_spec(project, slug)),
        },
        ItemRefView::Phase { roadmap, stem } => phase_resolved(m, project, roadmap, stem, r),
        ItemRefView::Change { .. } => r matches Ok(x) && x@ == ResolvedView::Broken {
            reason: crate::error::no_document_message(crate::link::label_spec(t)),
        },
    }
}

/// What resolving a phase reference gives: see [`item_resolved`].
pub open spec fn phase_resolved(m: Files, project: Seq<char>, roadmap: Seq<char>, stem: Seq<char>, r: Result<Resolved>) -> bool {
    exists|l: Result<(String, bool)>|
        #[trigger] lenient_stem(m, project, roadmap, stem, l) && match l {
            Ok(p) => r matches Ok(x) && x@ == ResolvedView::Item {
                target: ItemRefView::Phase { roadmap, stem },
                exists: p.1 && m.contains_key(phase_path_spec(project, roadmap, p.0@)),
            },
            Err(e) => r == Err::<Resolved, Error>(e),
        }
}

/// Resolves an item reference: whether the item exists. A dangling
/// reference is an item that does not exist, not an error; only a store
/// failure while resolving a phase number is.
pub fn resolve_item_link(store: &MemoryStore, project: &str, target: &ItemRef) -> (r: Result<Resolved>)
    ensures
        item_resolved(store.files(), project@, target@, r),
{
    let exists = match target {
        ItemRef::Roadmap { roadmap } => store.file_exists(&roadmap_path(project, roadmap.as_str())),
        ItemRef::Task { slug } => store.file_exists(&task_path(project, slug.as_str())),
        ItemRef::Plan { slug } => store.file_exists(&plan_path(project, slug.as_str())),
        ItemRef::Phase { roadmap, stem } => {
            let l = resolve_phase_stem_lenient(store, project, roadmap.as_str(), stem.as_str());
            let ghost lv = l;
            assert(lenient_stem(store.files(), project@, roadmap@, stem@, lv));
            match l {
                Ok((s, found)) => {
                    let ex = found && store.file_exists(&phase_path(project, roadmap.as_str(), s.as_str()));
                    let r = Resolved::Item { target: target.duplicate(), exists: ex };
                    assert(phase_resolved(store.files(), project@, roadmap@, stem@, Ok::<Resolved, Error>(r)));
                    return Ok(r);
                },
                Err(e) => {
                    assert(phase_resolved(store.files(), project@, roadmap@, stem@, Err::<Resolved, Error>(e)));
                    return Err(e);
                },
            }
        },
        ItemRef::Change { .. } => {
            let reason = Error::ChangeTargetHasNoDocument(target.label()).message();
            return Ok(Resolved::Broken { reason });
        },
    };
    Ok(Resolved::Item { target: target.duplicate(), exists })
}

/// What [`item_ref_path`] gives: the file a reference names, a phase named
/// by number resolved to its stem where it can be, else kept as written.
pub open spec fn item_path(m: Files, project: Seq<char>, t: ItemRefView, r: Result<RelPath>) -> bool {
    match t {
        ItemRefView::Roadmap { roadmap } => r matches Ok(p) && p@ == roadmap_path_spec(project, roadmap),
        ItemRefView::Task { slug } => r matches Ok(p) && p@ == task_path_spec(project, slug),
        ItemRefView::Plan { slug } => r matches Ok(p) && p@ == plan_path_spec(project, slug),
        ItemRefView::Phase { roadmap, stem } => phase_path_of(m, project, roadmap, stem, r),
        ItemRefView::Change { .. } => r matches Err(Error::ChangeTargetHasNoDocument(l)) && l@ == crate::link::label_spec(t),
    }
}

/// The file a phase reference names: see [`item_path`].
pub open spec fn phase_path_of(m: Files, project: Seq<char>, roadmap: Seq<char>, stem: Seq<char>, r: Result<RelPath>) -> bool {
    exists|l: Result<(String, bool)>|
        #[trigger] lenient_stem(m, project, roadmap, stem, l) && match l {
            Ok(q) => r matches Ok(p) && p@ == phase_path_spec(project, roadmap, q.0@),
            Err(e) => r == Err::<RelPath, Error>(e),
        }
}

/// The file an item reference names; whether it exists is not checked.
pub fn item_ref_path(store: &MemoryStore, project: &str, target: &ItemRef) -> (r: Result<RelPath>)
    ensures
        item_path(store.files(), project@, target@, r),
{
    match target {
        ItemRef::Roadmap { roadmap } => Ok(roadmap_path(project, roadmap.as_str())),
        ItemRef::Task { slug } => Ok(task_path(project, slug.as_str())),
        ItemRef::Plan { slug } => Ok(plan_path(project, slug.as_str())),
        ItemRef::Phase { roadmap, stem } => {
            let l = resolve_phase_stem_lenient(store, project, roadmap.as_str(), stem.as_str());
            let ghost lv = l;
            assert(lenient_stem(store.files(), project@, roadmap@, stem@, lv));
            match l {
                Ok((s, _found)) => {
                    let p = phase_path(project, roadmap.as_str(), s.as_str());
                    assert(phase_path_of(store.files(), project@, roadmap@, stem@, Ok::<RelPath, Error>(p)));
                    Ok(p)
                },
                Err(e) => {
                    assert(phase_path_of(store.files(), project@, roadmap@, stem@, Err::<RelPath, Error>(e)));
                    Err(e)
                },
            }
        },
        ItemRef::Change { .. } => Err(Error::ChangeTargetHasNoDocument(target.label())),
    }
}

/// What [`normalize_item_ref`] gives: a phase named by number with its
/// stem where it can be resolved, every other reference as it is.
pub open spec fn normalized_ref(m: Files, project: Seq<char>, t: ItemRefView, r: Result<ItemRef>) -> bool {
    match t {
        ItemRefView::Phase { roadmap, stem } => phase_normalized(m, project, roadmap, stem, r),
        _ => r matches Ok(x) && x@ == t,
    }
}

/// A phase reference normalized: see [`normalized_ref`].
pub open spec fn phase_normalized(m: Files, project: Seq<char>, roadmap: Seq<char>, stem: Seq<char>, r: Result<ItemRef>) -> bool {
    exists|l: Result<(String, bool)>|
        #[trigger] lenient_stem(m, project, roadmap, stem, l) && match l {
            Ok(q) => r matches Ok(x) && x@ == ItemRefView::Phase { roadmap, stem: q.0@ },
            Err(e) => r == Err::<ItemRef, Error>(e),
        }
}

/// A reference with a phase number replaced by the phase's stem, so that
/// the two ways of naming a phase compare equal.
pub fn normalize_item_ref(store: &MemoryStore, project: &str, item_ref: &ItemRef) -> (r: Result<ItemRef>)
    ensures
        normalized_ref(store.files(), project@, item_ref@, r),
{
    match item_ref {
        ItemRef::Phase { roadmap, stem } => {
            let l = resolve_phase_stem_lenient(store, project, roadmap.as_str(), stem.as_str());
            let ghost lv = l;
            assert(lenient_stem(store.files(), project@, roadmap@, stem@, lv));
            match l {
                Ok((s, _found)) => {
                    let x = ItemRef::Phase { roadmap: roadmap.clone(), stem: s };
                    assert(phase_normalized(store.files(), project@, roadmap@, stem@, Ok::<ItemRef, Error>(x)));
                    Ok(x)
                },
                Err(e) => {
                    assert(phase_normalized(store.files(), project@, roadmap@, stem@, Err::<ItemRef, Error>(e)));
                    Err(e)
                },
            }
        },
        _ => Ok(item_ref.duplicate()),
    }
}

/// The web address of a source location: `<repo>/blob/<rev>/<path>`, one
/// trailing `/` of `repo` dropped, and a `#L<start>` or
/// `#L<start>-L<end>` fragment for a line range (a range of one line is
/// `#L<start>`).
pub open spec fn web_url(repo: Seq<char>, rev: Seq<char>, path: Seq<char>, lines: Option<(u32, Option<u32>)>) -> Seq<char> {
    let base = (if is_suffix("/"@, repo) {
        repo.drop_last()
    } else {
        repo
    }) + "/blob/"@ + rev + "/"@ + path;
    match lines {
        None => base,
        Some((start, end)) => match end {
            Some(e) => if e != start {
                base + "#L"@ + decimal(start as nat) + "-L"@ + decimal(e as nat)
            } else {
                base + "#L"@ + decimal(start as nat)
            },
            None => base + "#L"@ + decimal(start as nat),
        },
    }
}

/// Builds the web address of a source location; see [`web_url`].
pub fn build_web_url(repo: &str, rev: &str, path: &str, lines: Option<(u32, Option<u32>)>) -> (r: String)
    ensures
        r@ == web_url(repo@, rev@, path@, lines),
{
    proof {
        reveal_strlit("/");
        reveal_strlit("/blob/");
        reveal_strlit("#L");
        reveal_strlit("-L");
    }
    let repo = match strip_suffix(repo, "/") {
        Some(r) => r,
        None => repo,
    };
    let mut url = cat3(repo, "/blob/", rev);
    url.append("/");
    url.append(path);
    match lines {
        Some((start, end)) => {
            let s = u64_to_decimal(start as u64);
            url.append("#L");
            url.append(s.as_str());
            match end {
                Some(e) => {
                    if e != start {
                        let es = u64_to_decimal(e as u64);
                        url.append("-L");
                        url.append(es.as_str());
                    }
                },
                None => {},
            }
        },
        None => {},
    }
    url
}

/// What resolving a source reference gives: the revision is the link's own,
/// else the commit stamped on the document holding the link, else none; a
/// web address only where the project names its repository, at that
/// revision, else the repository's default branch, else `main`.
pub open spec fn code_resolved(
    project: ProjectView,
    containing_commit: Option<Seq<char>>,
    path: Seq<char>,
    explicit_rev: Option<Seq<char>>,
    lines: Option<(u32, Option<u32>)>,
) -> ResolvedView {
    let rev = match explicit_rev {
        Some(x) => Some(x),
        None => containing_commit,
    };
    ResolvedView::Code {
        path,
        rev,
        lines,
        web_url: match project.source {
            Some(src) => Some(
                web_url(
                    src.repo,
                    match rev {
                        Some(x) => x,
                        None => match src.default_branch {
                            Some(b) => b,
                            None => "main"@,
                        },
                    },
                    path,
                    lines,
                ),
            ),
            None => None,
        },
    }
}

/// The view of an optional text.
pub open spec fn opt_view(s: Option<&str>) -> Option<Seq<char>> {
    match s {
        Some(x) => Some(x@),
        None => None,
    }
}

/// Resolves a source reference of `project`; see [`code_resolved`]. It
/// never fails.
pub fn resolve_code_link(
    project: &Project,
    containing_commit: Option<&str>,
    path: &str,
    explicit_rev: Option<&str>,
    lines: Option<(u32, Option<u32>)>,
) -> (r: Result<Resolved>)
    ensures
        r matches Ok(x) && x@ == code_resolved(project@, opt_view(containing_commit), path@, opt_view(explicit_rev), lines),
{
    proof {
        reveal_strlit("main");
    }
    let rev: Option<String> = match explicit_rev {
        Some(x) => Some(owned(x)),
        None => match containing_commit {
            Some(c) => Some(owned(c)),
            None => None,
        },
    };
    let web_url = match &project.source {
        Some(src) => {
            let r = match &rev {
                Some(x) => x.clone(),
                None => match &src.default_branch {
                    Some(b) => b.clone(),
                    None => owned("main"),
                },
            };
            Some(build_web_url(src.repo.as_str(), r.as_str(), path, lines))
        },
        None => None,
    };
    Ok(Resolved::Code { path: owned(path), rev, lines, web_url })
}

/// What [`resolve_link`] gives: an item link as [`resolve_item_link`]
/// resolves it; a source link against the project's document, whose
/// loading errors are passed on.
pub open spec fn link_resolved(m: Files, project: Seq<char>, containing_commit: Option<Seq<char>>, link: Link, r: Result<Resolved>) -> bool {
    match link {
        Link::Item(t) => item_resolved(m, project, t@, r),
        Link::Code { path, rev, lines } => {
            &&& !m.contains_key(project_md_spec(project)) ==> (r matches Err(Error::ProjectNotFound(n)) && n@
                == project)
            &&& m.contains_key(project_md_spec(project)) ==> match project_at(m, project_md_spec(project)) {
                Some(d) => r matches Ok(x) && x@ == code_resolved(
                    d.frontmatter,
                    containing_commit,
                    path@,
                    rev.deep_view(),
                    lines,
                ),
                None => r matches Err(e) && e is FrontmatterParse,
            }
        },
    }
}

/// Resolves any link, item or source. `containing_commit` is the commit
/// stamped on the document holding the link, if any.
pub fn resolve_link(store: &MemoryStore, project: &str, containing_commit: Option<&str>, link: &Link) -> (r: Result<
    Resolved,
>)
    ensures
        link_resolved(store.files(), project@, opt_view(containing_commit), *link, r),
{
    match link {
        Link::Item(target) => resolve_item_link(store, project, target),
        Link::Code { path, rev, lines } => {
            let project_doc = load_project(store, project)?;
            let explicit: Option<&str> = match rev {
                Some(x) => Some(x.as_str()),
                None => None,
            };
            resolve_code_link(&project_doc.frontmatter, containing_commit, path.as_str(), explicit, *lines)
        },
    }
}

/// `s` with each value kept only where it first appears.
pub open spec fn first_each<A>(s: Seq<A>) -> Seq<A>
    decreases s.len(),
{
    if s.len() == 0 {
        s
    } else {
        let d = first_each(s.drop_last());
        if d.contains(s.last()) {
            d
        } else {
            d.push(s.last())
        }
    }
}

/// Whether a review (id, normalized and written `implements`) implements
/// one of the plans `slugs`, as written.
pub open spec fn implements_plan_of(r: (Seq<char>, ItemRefView, ItemRefView), slugs: Seq<Seq<char>>) -> bool {
    r.2 matches ItemRefView::Plan { slug } && slugs.contains(slug)
}

/// The slugs of the plans implementing `t`, in order.
pub open spec fn matched_slugs(t: ItemRefView, plans: Seq<(Seq<char>, ItemRefView)>) -> Seq<Seq<char>>
    decreases plans.len(),
{
    if plans.len() == 0 {
        Seq::empty()
    } else {
        let m = matched_slugs(t, plans.drop_last());
        if plans.last().1 == t {
            m.push(plans.last().0)
        } else {
            m
        }
    }
}

/// An entry for each plan of `slugs`.
pub open spec fn plan_entries(slugs: Seq<Seq<char>>) -> Seq<(DocRefView, Option<ItemRefView>)>
    decreases slugs.len(),
{
    if slugs.len() == 0 {
        Seq::empty()
    } else {
        plan_entries(slugs.drop_last()).push((DocRefView::Plan { slug: slugs.last() }, None))
    }
}

/// An entry for each review implementing `t`, in order.
pub open spec fn review_entries(t: ItemRefView, reviews: Seq<(Seq<char>, ItemRefView, ItemRefView)>) -> Seq<
    (DocRefView, Option<ItemRefView>),
>
    decreases reviews.len(),
{
    if reviews.len() == 0 {
        Seq::empty()
    } else {
        let e = review_entries(t, reviews.drop_last());
        let r = reviews.last();
        if r.1 == t {
            e.push((DocRefView::Review { id: r.0, comment: None }, None))
        } else {
            e
        }
    }
}

/// An entry for each review implementing one of the plans `slugs`, reached
/// through that plan, in order.
pub open spec fn hop_entries(slugs: Seq<Seq<char>>, reviews: Seq<(Seq<char>, ItemRefView, ItemRefView)>) -> Seq<
    (DocRefView, Option<ItemRefView>),
>
    decreases reviews.len(),
{
    if reviews.len() == 0 {
        Seq::empty()
    } else {
        let e = hop_entries(slugs, reviews.drop_last());
        let r = reviews.last();
        if implements_plan_of(r, slugs) {
            e.push((DocRefView::Review { id: r.0, comment: None }, Some(r.2)))
        } else {
            e
        }
    }
}

/// The structural backlinks to `t`, given each plan's slug with what it
/// implements (normalized) and each review's id with what it implements
/// (normalized, and as written): the plans implementing `t`, then the
/// reviews implementing `t`, then, one hop further, the reviews
/// implementing one of those plans, reached through it; each entry once.
pub open spec fn structural_views(
    t: ItemRefView,
    plans: Seq<(Seq<char>, ItemRefView)>,
    reviews: Seq<(Seq<char>, ItemRefView, ItemRefView)>,
) -> Seq<(DocRefView, Option<ItemRefView>)> {
    let ms = matched_slugs(t, plans);
    first_each(plan_entries(ms) + review_entries(t, reviews) + hop_entries(ms, reviews))
}

fn entry_eq(a: &BacklinkEntry, b: &BacklinkEntry) -> (r: bool)
    ensures
        r == (a@ == b@),
{
    let same_doc = match (&a.document, &b.document) {
        (DocRef::Plan { slug: x }, DocRef::Plan { slug: y }) => crate::text::str_eq(x.as_str(), y.as_str()),
        (DocRef::Review { id: x, comment: c }, DocRef::Review { id: y, comment: d }) => crate::text::str_eq(
            x.as_str(),
            y.as_str(),
        ) && match (c, d) {
            (Some(p), Some(q)) => *p == *q,
            (None, None) => true,
            _ => false,
        },
        (DocRef::Roadmap { roadmap: x }, DocRef::Roadmap { roadmap: y }) => crate::text::str_eq(x.as_str(), y.as_str()),
        (DocRef::Phase { roadmap: x, stem: s }, DocRef::Phase { roadmap: y, stem: u }) => crate::text::str_eq(
            x.as_str(),
            y.as_str(),
        ) && crate::text::str_eq(s.as_str(), u.as_str()),
        (DocRef::Task { slug: x }, DocRef::Task { slug: y }) => crate::text::str_eq(x.as_str(), y.as_str()),
        _ => false,
    };
    let same_via = match (&a.via, &b.via) {
        (Some(x), Some(y)) => x.same(y),
        (None, None) => true,
        _ => false,
    };
    same_doc && same_via
}

/// The views of backlink entries.
pub open spec fn entry_views(v: Seq<BacklinkEntry>) -> Seq<(DocRefView, Option<ItemRefView>)> {
    v.map_values(|e: BacklinkEntry| e@)
}

/// Plans as slug and what they implement.
pub open spec fn plan_refs(v: Seq<(String, ItemRef)>) -> Seq<(Seq<char>, ItemRefView)> {
    v.map_values(|p: (String, ItemRef)| (p.0@, p.1@))
}

/// Reviews as id and what they implement, normalized and as written.
pub open spec fn review_refs(v: Seq<(String, ItemRef, ItemRef)>) -> Seq<(Seq<char>, ItemRefView, ItemRefView)> {
    v.map_values(|r: (String, ItemRef, ItemRef)| (r.0@, r.1@, r.2@))
}

proof fn lemma_filter_step<A>(s: Seq<A>, i: int, p: spec_fn(A) -> bool)
    requires
        0 <= i < s.len(),
    ensures
        s.subrange(0, i + 1).filter(p) == if p(s[i]) {
            s.subrange(0, i).filter(p).push(s[i])
        } else {
            s.subrange(0, i).filter(p)
        },
{
    reveal(Seq::filter);
    assert(s.subrange(0, i + 1).drop_last() =~= s.subrange(0, i));
}

fn push_once(out: &mut Vec<BacklinkEntry>, e: BacklinkEntry)
    ensures
        entry_views(final(out)@) == if entry_views(old(out)@).contains(e@) {
            entry_views(old(out)@)
        } else {
            entry_views(old(out)@).push(e@)
        },
{
    let ghost o = entry_views(out@);
    let mut i: usize = 0;
    while i < out.len()
        invariant
            i <= out.len(),
            o == entry_views(out@),
            forall|j: int| 0 <= j < i ==> o[j] != e@,
        decreases out.len() - i,
    {
        if entry_eq(&out[i], &e) {
            assert(o[i as int] == e@);
            assert(o.contains(e@));
            return;
        }
        i = i + 1;
    }
    out.push(e);
    assert(entry_views(out@) =~= o.push(e@));
}

/// The structural backlinks to `target`; see [`structural_views`].
pub fn structural_backlinks(
    target: &ItemRef,
    plans: &Vec<(String, ItemRef)>,
    reviews: &Vec<(String, ItemRef, ItemRef)>,
) -> (r: Vec<BacklinkEntry>)
    ensures
        entry_views(r@) == structural_views(target@, plan_refs(plans@), review_refs(reviews@)),
{
    let ghost t = target@;
    let ghost pv = plan_refs(plans@);
    let ghost rv = review_refs(reviews@);
    let mut matched: Vec<String> = Vec::new();
    let mut all: Vec<BacklinkEntry> = Vec::new();
    let mut i: usize = 0;
    assert(pv.subrange(0, 0) =~= Seq::<(Seq<char>, ItemRefView)>::empty());
    while i < plans.len()
        invariant
            i <= plans.len(),
            pv == plan_refs(plans@),
            t == target@,
            matched.deep_view() == matched_slugs(t, pv.subrange(0, i as int)),
            entry_views(all@) == plan_entries(matched.deep_view()),
        decreases plans.len() - i,
    {
        assert(pv.subrange(0, i + 1).drop_last() =~= pv.subrange(0, i as int));
        assert(pv[i as int] == (plans[i as int].0@, plans[i as int].1@));
        if plans[i].1.same(target) {
            let ghost m0 = matched.deep_view();
            let ghost a0 = entry_views(all@);
            matched.push(plans[i].0.clone());
            all.push(BacklinkEntry { document: DocRef::Plan { slug: plans[i].0.clone() }, via: None });
            assert(matched.deep_view() =~= m0.push(plans[i as int].0@));
            assert(matched.deep_view().drop_last() =~= m0);
            assert(entry_views(all@) =~= a0.push((DocRefView::Plan { slug: plans[i as int].0@ }, None)));
        }
        i = i + 1;
    }
    assert(pv.subrange(0, plans.len() as int) =~= pv);
    let ghost ms = matched.deep_view();
    let ghost dp = entry_views(all@);
    let mut j: usize = 0;
    assert(rv.subrange(0, 0) =~= Seq::<(Seq<char>, ItemRefView, ItemRefView)>::empty());
    assert(dp + Seq::<(DocRefView, Option<ItemRefView>)>::empty() =~= dp);
    while j < reviews.len()
        invariant
            j <= reviews.len(),
            rv == review_refs(reviews@),
            t == target@,
            entry_views(all@) == dp + review_entries(t, rv.subrange(0, j as int)),
            matched.deep_view() == ms,
        decreases reviews.len() - j,
    {
        assert(rv.subrange(0, j + 1).drop_last() =~= rv.subrange(0, j as int));
        assert(rv[j as int] == (reviews[j as int].0@, reviews[j as int].1@, reviews[j as int].2@));
        let ghost a0 = entry_views(all@);
        let ghost e0 = review_entries(t, rv.subrange(0, j as int));
        if reviews[j].1.same(target) {
            all.push(BacklinkEntry { document: DocRef::Review { id: reviews[j].0.clone(), comment: None }, via: None });
            assert(entry_views(all@) =~= a0.push((DocRefView::Review { id: rv[j as int].0, comment: None }, None)));
            assert(entry_views(all@) =~= dp + e0.push((DocRefView::Review { id: rv[j as int].0, comment: None }, None)));
        }
        j = j + 1;
    }
    assert(rv.subrange(0, reviews.len() as int) =~= rv);
    let ghost dr = entry_views(all@);
    let mut q: usize = 0;
    assert(dr + Seq::<(DocRefView, Option<ItemRefView>)>::empty() =~= dr);
    while q < reviews.len()
        invariant
            q <= reviews.len(),
            rv == review_refs(reviews@),
            entry_views(all@) == dr + hop_entries(ms, rv.subrange(0, q as int)),
            matched.deep_view() == ms,
        decreases reviews.len() - q,
    {
        assert(rv.subrange(0, q + 1).drop_last() =~= rv.subrange(0, q as int));
        assert(rv[q as int] == (reviews[q as int].0@, reviews[q as int].1@, reviews[q as int].2@));
        let hit = match &reviews[q].2 {
            ItemRef::Plan { slug } => crate::graph::contains_str(&matched, slug.as_str()),
            _ => false,
        };
        let ghost a0 = entry_views(all@);
        let ghost e0 = hop_entries(ms, rv.subrange(0, q as int));
        if hit {
            all.push(BacklinkEntry {
                document: DocRef::Review { id: reviews[q].0.clone(), comment: None },
                via: Some(reviews[q].2.duplicate()),
            });
            assert(entry_views(all@) =~= a0.push((DocRefView::Review { id: rv[q as int].0, comment: None }, Some(rv[q as int].2))));
            assert(entry_views(all@) =~= dr + e0.push((DocRefView::Review { id: rv[q as int].0, comment: None }, Some(rv[q as int].2))));
        }
        q = q + 1;
    }
    assert(rv.subrange(0, reviews.len() as int) =~= rv);
    let ghost whole = entry_views(all@);
    assert(whole =~= plan_entries(ms) + review_entries(t, rv) + hop_entries(ms, rv));
    let mut out: Vec<BacklinkEntry> = Vec::new();
    let mut k: usize = 0;
    let n = all.len();
    assert(whole.subrange(0, 0) =~= Seq::<(DocRefView, Option<ItemRefView>)>::empty());
    while k < n
        invariant
            k <= n,
            n == all.len(),
            whole == entry_views(all@),
            entry_views(out@) == first_each(whole.subrange(0, k as int)),
        decreases n - k,
    {
        let e = BacklinkEntry {
            document: match &all[k].document {
                DocRef::Plan { slug } => DocRef::Plan { slug: slug.clone() },
                DocRef::Review { id, comment } => DocRef::Review { id: id.clone(), comment: *comment },
                DocRef::Roadmap { roadmap } => DocRef::Roadmap { roadmap: roadmap.clone() },
                DocRef::Phase { roadmap, stem } => DocRef::Phase { roadmap: roadmap.clone(), stem: stem.clone() },
                DocRef::Task { slug } => DocRef::Task { slug: slug.clone() },
            },
            via: match &all[k].via {
                Some(v) => Some(v.duplicate()),
                None => None,
            },
        };
        assert(e@ == whole[k as int]);
        assert(whole.subrange(0, k + 1).drop_last() =~= whole.subrange(0, k as int));
        push_once(&mut out, e);
        k = k + 1;
    }
    assert(whole.subrange(0, n as int) =~= whole);
    out
}

/// What [`implements_backlinks`] gives when it succeeds: the structural
/// backlinks to `target`, its reference and every plan's and review's
/// `implements` normalized, over the project's plans as listed and the
/// reviews `reviews` (id and `implements`) handed in.
pub open spec fn backlinks_found(
    m: Files,
    project: Seq<char>,
    target: ItemRefView,
    reviews: Seq<(Seq<char>, ItemRefView)>,
    v: Seq<(DocRefView, Option<ItemRefView>)>,
) -> bool {
    exists|nt: ItemRef, l: Vec<(String, crate::model::Document<crate::model::Plan>)>, np: Seq<ItemRef>, nr: Seq<ItemRef>|
        #![trigger normalized_ref(m, project, target, Ok::<ItemRef, Error>(nt)), crate::ops::plan::lists_plans(m, project, Ok::<Vec<(String, crate::model::Document<crate::model::Plan>)>, Error>(l)), np.len(), nr.len()]
        normalized_ref(m, project, target, Ok::<ItemRef, Error>(nt))
        && crate::ops::plan::lists_plans(m, project, Ok::<Vec<(String, crate::model::Document<crate::model::Plan>)>, Error>(l))
        && np.len() == l.len() && (forall|i: int| 0 <= i < l.len() ==> #[trigger] normalized_ref(m, project, l@[i].1@.frontmatter.implements, Ok::<ItemRef, Error>(np[i])))
        && nr.len() == reviews.len() && (forall|j: int| 0 <= j < reviews.len() ==> #[trigger] normalized_ref(m, project, reviews[j].1, Ok::<ItemRef, Error>(nr[j])))
        && v == structural_views(
            nt@,
            Seq::new(l.len() as nat, |i: int| (l@[i].0@, np[i]@)),
            Seq::new(reviews.len(), |j: int| (reviews[j].0, nr[j]@, reviews[j].1)),
        )
}

/// Whether reference `x` normalizes in `project`.
pub open spec fn normalizes(m: Files, project: Seq<char>, x: ItemRefView) -> bool {
    exists|y: ItemRef| #[trigger] normalized_ref(m, project, x, Ok::<ItemRef, Error>(y))
}

/// Whether the plans of `project` can be listed and each one's `implements`
/// normalizes.
pub open spec fn plans_normalize(m: Files, project: Seq<char>) -> bool {
    exists|l: Vec<(String, crate::model::Document<crate::model::Plan>)>|
        #[trigger] crate::ops::plan::lists_plans(m, project, Ok::<Vec<(String, crate::model::Document<crate::model::Plan>)>, Error>(l))
        && forall|k: int| 0 <= k < l.len() ==> normalizes(m, project, (#[trigger] l@[k]).1@.frontmatter.implements)
}

/// Whether `e` is the error of the first step of [`implements_backlinks`]
/// that fails, in the order it takes them: normalizing the target, listing
/// the plans, normalizing each listed plan's `implements` in turn, then each
/// handed-in review's `implements` in turn. Every step before the failing
/// one succeeds.
pub open spec fn backlinks_failure(
    m: Files,
    project: Seq<char>,
    target: ItemRefView,
    reviews: Seq<(Seq<char>, ItemRefView)>,
    e: Error,
) -> bool {
    ||| normalized_ref(m, project, target, Err::<ItemRef, Error>(e))
    ||| normalizes(m, project, target)
        && crate::ops::plan::lists_plans(m, project, Err::<Vec<(String, crate::model::Document<crate::model::Plan>)>, Error>(e))
    ||| normalizes(m, project, target) && exists|l: Vec<(String, crate::model::Document<crate::model::Plan>)>, i: int|
        #![trigger crate::ops::plan::lists_plans(m, project, Ok::<Vec<(String, crate::model::Document<crate::model::Plan>)>, Error>(l)), l@[i]]
        crate::ops::plan::lists_plans(m, project, Ok::<Vec<(String, crate::model::Document<crate::model::Plan>)>, Error>(l))
        && 0 <= i < l.len()
        && (forall|k: int| 0 <= k < i ==> normalizes(m, project, (#[trigger] l@[k]).1@.frontmatter.implements))
        && normalized_ref(m, project, l@[i].1@.frontmatter.implements, Err::<ItemRef, Error>(e))
    ||| normalizes(m, project, target) && plans_normalize(m, project) && exists|j: int|
        0 <= j < reviews.len()
        && (forall|k: int| 0 <= k < j ==> normalizes(m, project, (#[trigger] reviews[k]).1))
        && #[trigger] normalized_ref(m, project, reviews[j].1, Err::<ItemRef, Error>(e))
}

/// The structural backlinks to `target` in `project`: the plans
/// implementing it, the reviews of `reviews` (each review's id and what its
/// `implements` names) implementing it, and the reviews implementing one of
/// those plans, reached through it; each once. A failure to list the plans
/// or to normalize a reference is passed on.
pub fn implements_backlinks(
    store: &MemoryStore,
    project: &str,
    target: &ItemRef,
    reviews: &Vec<(String, ItemRef)>,
) -> (r: Result<Vec<BacklinkEntry>>)
    ensures
        r matches Ok(v) ==> backlinks_found(store.files(), project@, target@, reviews@.map_values(|x: (String, ItemRef)| (x.0@, x.1@)), entry_views(v@)),
        r matches Err(e) ==> backlinks_failure(store.files(), project@, target@, reviews@.map_values(|x: (String, ItemRef)| (x.0@, x.1@)), e),
{
    let ghost m = store.files();
    let ghost rsv = reviews@.map_values(|x: (String, ItemRef)| (x.0@, x.1@));
    let nt = match normalize_item_ref(store, project, target) {
        Ok(x) => x,
        Err(e) => {
            return Err(e);
        },
    };
    assert(normalizes(m, project@, target@));
    let l = match crate::ops::plan::list_plans(store, project) {
        Ok(x) => x,
        Err(e) => {
            return Err(e);
        },
    };
    let mut pairs: Vec<(String, ItemRef)> = Vec::new();
    let ghost mut np: Seq<ItemRef> = Seq::empty();
    let mut i: usize = 0;
    while i < l.len()
        invariant
            i <= l.len(),
            m == store.files(),
            crate::ops::plan::lists_plans(m, project@, Ok::<Vec<(String, crate::model::Document<crate::model::Plan>)>, Error>(l)),
            np.len() == i,
            pairs.len() == i,
            forall|k: int| 0 <= k < i ==> #[trigger] normalized_ref(m, project@, l@[k].1@.frontmatter.implements, Ok::<ItemRef, Error>(np[k])),
            forall|k: int| 0 <= k < i ==> (#[trigger] pairs@[k]).0@ == l@[k].0@ && pairs@[k].1@ == np[k]@,
            normalizes(m, project@, target@),
        decreases l.len() - i,
    {
        let n = match normalize_item_ref(store, project, &l[i].1.frontmatter.implements) {
            Ok(x) => x,
            Err(e) => {
                assert(crate::ops::plan::lists_plans(m, project@, Ok::<Vec<(String, crate::model::Document<crate::model::Plan>)>, Error>(l)));
                assert(normalized_ref(m, project@, l@[i as int].1@.frontmatter.implements, Err::<ItemRef, Error>(e)));
                assert forall|k: int| 0 <= k < i implies normalizes(m, project@, (#[trigger] l@[k]).1@.frontmatter.implements) by {
                    assert(normalized_ref(m, project@, l@[k].1@.frontmatter.implements, Ok::<ItemRef, Error>(np[k])));
                }
                assert(l@[i as int] == l@[i as int]);
                return Err(e);
            },
        };
        proof {
            np = np.push(n);
        }
        pairs.push((l[i].0.clone(), n));
        i = i + 1;
    }
    assert forall|k: int| 0 <= k < l.len() implies normalizes(m, project@, (#[trigger] l@[k]).1@.frontmatter.implements) by {
        assert(normalized_ref(m, project@, l@[k].1@.frontmatter.implements, Ok::<ItemRef, Error>(np[k])));
    }
    assert(plans_normalize(m, project@));
    let mut triples: Vec<(String, ItemRef, ItemRef)> = Vec::new();
    let ghost mut nr: Seq<ItemRef> = Seq::empty();
    let mut j: usize = 0;
    while j < reviews.len()
        invariant
            j <= reviews.len(),
            m == store.files(),
            rsv == reviews@.map_values(|x: (String, ItemRef)| (x.0@, x.1@)),
            nr.len() == j,
            triples.len() == j,
            forall|k: int| 0 <= k < j ==> #[trigger] normalized_ref(m, project@, rsv[k].1, Ok::<ItemRef, Error>(nr[k])),
            forall|k: int| 0 <= k < j ==> (#[trigger] triples@[k]).0@ == rsv[k].0 && triples@[k].1@ == nr[k]@ && triples@[k].2@ == rsv[k].1,
            normalizes(m, project@, target@),
            plans_normalize(m, project@),
        decreases reviews.len() - j,
    {
        assert(rsv[j as int] == (reviews@[j as int].0@, reviews@[j as int].1@));
        let n = match normalize_item_ref(store, project, &reviews[j].1) {
            Ok(x) => x,
            Err(e) => {
                assert(normalized_ref(m, project@, rsv[j as int].1, Err::<ItemRef, Error>(e)));
                assert forall|k: int| 0 <= k < j implies normalizes(m, project@, (#[trigger] rsv[k]).1) by {
                    assert(normalized_ref(m, project@, rsv[k].1, Ok::<ItemRef, Error>(nr[k])));
                }
                return Err(e);
            },
        };
        proof {
            nr = nr.push(n);
        }
        triples.push((reviews[j].0.clone(), n, reviews[j].1.duplicate()));
        j = j + 1;
    }
    let out = structural_backlinks(&nt, &pairs, &triples);
    proof {
        assert(plan_refs(pairs@) =~= Seq::new(l.len() as nat, |k: int| (l@[k].0@, np[k]@)));
        assert(review_refs(triples@) =~= Seq::new(rsv.len(), |k: int| (rsv[k].0, nr[k]@, rsv[k].1)));
        assert(crate::ops::plan::lists_plans(m, project@, Ok::<Vec<(String, crate::model::Document<crate::model::Plan>)>, Error>(l)));
    }
    Ok(out)
}

/// The views of listed bodies.
pub open spec fn body_views(v: Seq<(DocRef, String, Option<String>)>) -> Seq<(DocRefView, Seq<char>, Option<Seq<char>>)> {
    v.map_values(|x: (DocRef, String, Option<String>)| (x.0@, x.1@, x.2.deep_view()))
}

/// The bodies of a roadmap's phases, in their listed order.
pub open spec fn phase_bodies(roadmap: Seq<char>, ps: Seq<(Seq<char>, crate::model::DocView<crate::model::PhaseView>)>) -> Seq<
    (DocRefView, Seq<char>, Option<Seq<char>>),
>
    decreases ps.len(),
{
    if ps.len() == 0 {
        Seq::empty()
    } else {
        let p = ps.last();
        phase_bodies(roadmap, ps.drop_last()).push((DocRefView::Phase { roadmap, stem: p.0 }, p.1.body, p.1.frontmatter.commit))
    }
}

/// The bodies of roadmaps, each followed by those of its phases `ps`.
pub open spec fn roadmap_bodies(
    rs: Seq<crate::model::DocView<crate::model::RoadmapView>>,
    ps: Seq<Seq<(Seq<char>, crate::model::DocView<crate::model::PhaseView>)>>,
) -> Seq<(DocRefView, Seq<char>, Option<Seq<char>>)>
    decreases rs.len(),
{
    if rs.len() == 0 {
        Seq::empty()
    } else {
        let r = rs.last();
        roadmap_bodies(rs.drop_last(), ps.drop_last()).push(
            (DocRefView::Roadmap { roadmap: r.frontmatter.roadmap }, r.body, None),
        ) + phase_bodies(r.frontmatter.roadmap, ps.last())
    }
}

/// The bodies of tasks, in order.
pub open spec fn task_bodies(ts: Seq<(Seq<char>, crate::model::DocView<crate::model::TaskView>)>) -> Seq<
    (DocRefView, Seq<char>, Option<Seq<char>>),
>
    decreases ts.len(),
{
    if ts.len() == 0 {
        Seq::empty()
    } else {
        let t = ts.last();
        task_bodies(ts.drop_last()).push((DocRefView::Task { slug: t.0 }, t.1.body, t.1.frontmatter.commit))
    }
}

/// The bodies of plans, in order.
pub open spec fn plan_bodies(ps: Seq<(Seq<char>, crate::model::DocView<crate::model::PlanView>)>) -> Seq<
    (DocRefView, Seq<char>, Option<Seq<char>>),
>
    decreases ps.len(),
{
    if ps.len() == 0 {
        Seq::empty()
    } else {
        let p = ps.last();
        plan_bodies(ps.drop_last()).push((DocRefView::Plan { slug: p.0 }, p.1.body, None))
    }
}

/// The bodies of a review's comments, in order.
pub open spec fn comment_bodies(id: Seq<char>, cs: Seq<crate::model::CommentView>) -> Seq<(DocRefView, Seq<char>, Option<Seq<char>>)>
    decreases cs.len(),
{
    if cs.len() == 0 {
        Seq::empty()
    } else {
        let c = cs.last();
        comment_bodies(id, cs.drop_last()).push((DocRefView::Review { id, comment: Some(c.id) }, c.body, None))
    }
}

/// The bodies of reviews, each followed by those of its comments.
pub open spec fn review_bodies(vs: Seq<(Seq<char>, crate::model::DocView<crate::model::ReviewView>)>) -> Seq<
    (DocRefView, Seq<char>, Option<Seq<char>>),
>
    decreases vs.len(),
{
    if vs.len() == 0 {
        Seq::empty()
    } else {
        let v = vs.last();
        review_bodies(vs.drop_last()).push((DocRefView::Review { id: v.0, comment: None }, v.1.body, None))
            + comment_bodies(v.0, v.1.frontmatter.comments)
    }
}

/// What [`project_bodies`] gives when it succeeds: every body of the
/// project, over its listings: each roadmap then its phases, the tasks, the
/// plans, then each review then its comments.
pub open spec fn bodies_found(m: Files, project: &str, v: Seq<(DocRefView, Seq<char>, Option<Seq<char>>)>) -> bool {
    exists|rl: Vec<crate::model::Document<crate::model::Roadmap>>, pl: Seq<Vec<(String, crate::model::Document<crate::model::Phase>)>>,
        tl: Vec<(String, crate::model::Document<crate::model::Task>)>, ql: Vec<(String, crate::model::Document<crate::model::Plan>)>,
        vl: Vec<(String, crate::model::Document<crate::model::Review>)>|
        #![trigger crate::ops::roadmap::list_roadmaps_post(m, project, None, None, Ok::<Vec<crate::model::Document<crate::model::Roadmap>>, Error>(rl)), pl.len(), crate::ops::task::lists_tasks(m, project@, Ok::<Vec<(String, crate::model::Document<crate::model::Task>)>, Error>(tl)), crate::ops::plan::lists_plans(m, project@, Ok::<Vec<(String, crate::model::Document<crate::model::Plan>)>, Error>(ql)), crate::ops::reviews::lists_reviews(m, project@, Ok::<Vec<(String, crate::model::Document<crate::model::Review>)>, Error>(vl))]
        crate::ops::roadmap::list_roadmaps_post(m, project, None, None, Ok::<Vec<crate::model::Document<crate::model::Roadmap>>, Error>(rl))
        && pl.len() == rl.len() && (forall|i: int| 0 <= i < rl.len() ==> #[trigger] crate::ops::phase::lists_phases(
            m, project@, rl@[i]@.frontmatter.roadmap, Ok::<Vec<(String, crate::model::Document<crate::model::Phase>)>, Error>(pl[i])))
        && crate::ops::task::lists_tasks(m, project@, Ok::<Vec<(String, crate::model::Document<crate::model::Task>)>, Error>(tl))
        && crate::ops::plan::lists_plans(m, project@, Ok::<Vec<(String, crate::model::Document<crate::model::Plan>)>, Error>(ql))
        && crate::ops::reviews::lists_reviews(m, project@, Ok::<Vec<(String, crate::model::Document<crate::model::Review>)>, Error>(vl))
        && v == roadmap_bodies(
            rl@.map_values(|d: crate::model::Document<crate::model::Roadmap>| d@),
            pl.map_values(|x: Vec<(String, crate::model::Document<crate::model::Phase>)>| crate::ops::phase::phase_views(x@)),
        ) + task_bodies(crate::ops::task::task_views(tl@)) + plan_bodies(crate::ops::plan::plan_views(ql@))
            + review_bodies(crate::ops::reviews::review_views(vl@))
}

fn doc_copy(d: &DocRef) -> (r: DocRef)
    ensures
        r@ == d@,
{
    match d {
        DocRef::Plan { slug } => DocRef::Plan { slug: slug.clone() },
        DocRef::Review { id, comment } => DocRef::Review { id: id.clone(), comment: *comment },
        DocRef::Roadmap { roadmap } => DocRef::Roadmap { roadmap: roadmap.clone() },
        DocRef::Phase { roadmap, stem } => DocRef::Phase { roadmap: roadmap.clone(), stem: stem.clone() },
        DocRef::Task { slug } => DocRef::Task { slug: slug.clone() },
    }
}

/// Whether `e` is the error of the first listing of [`project_bodies`] that
/// fails, in the order it makes them: the roadmaps, each listed roadmap's
/// phases in turn, the tasks, the plans and the reviews. Every listing
/// before the failing one succeeds.
pub open spec fn bodies_failure(m: Files, project: &str, e: Error) -> bool {
    ||| crate::ops::roadmap::list_roadmaps_post(m, project, None, None, Err::<Vec<crate::model::Document<crate::model::Roadmap>>, Error>(e))
    ||| exists|rl: Vec<crate::model::Document<crate::model::Roadmap>>, i: int|
        #![trigger crate::ops::roadmap::list_roadmaps_post(m, project, None, None, Ok::<Vec<crate::model::Document<crate::model::Roadmap>>, Error>(rl)), rl@[i]]
        crate::ops::roadmap::list_roadmaps_post(m, project, None, None, Ok::<Vec<crate::model::Document<crate::model::Roadmap>>, Error>(rl))
        && 0 <= i < rl.len()
        && (forall|k: int| 0 <= k < i ==> phases_listable(m, project@, (#[trigger] rl@[k])@.frontmatter.roadmap))
        && crate::ops::phase::lists_phases(m, project@, rl@[i]@.frontmatter.roadmap, Err::<Vec<(String, crate::model::Document<crate::model::Phase>)>, Error>(e))
    ||| roadmaps_listable(m, project) && crate::ops::task::lists_tasks(m, project@, Err::<Vec<(String, crate::model::Document<crate::model::Task>)>, Error>(e))
    ||| roadmaps_listable(m, project) && tasks_listable(m, project@)
        && crate::ops::plan::lists_plans(m, project@, Err::<Vec<(String, crate::model::Document<crate::model::Plan>)>, Error>(e))
    ||| roadmaps_listable(m, project) && tasks_listable(m, project@) && plans_listable(m, project@)
        && crate::ops::reviews::lists_reviews(m, project@, Err::<Vec<(String, crate::model::Document<crate::model::Review>)>, Error>(e))
}

/// Whether the phases of roadmap `name` can be listed.
pub open spec fn phases_listable(m: Files, project: Seq<char>, name: Seq<char>) -> bool {
    m.contains_key(crate::paths::roadmap_path_spec(project, name)) && crate::ops::phase::phases_ok(m, project, name)
}

/// Whether the roadmaps of `project`, and the phases of each, can be listed.
pub open spec fn roadmaps_listable(m: Files, project: &str) -> bool {
    exists|rl: Vec<crate::model::Document<crate::model::Roadmap>>|
        #[trigger] crate::ops::roadmap::list_roadmaps_post(m, project, None, None, Ok::<Vec<crate::model::Document<crate::model::Roadmap>>, Error>(rl))
        && forall|k: int| 0 <= k < rl.len() ==> phases_listable(m, project@, (#[trigger] rl@[k])@.frontmatter.roadmap)
}

/// Whether the tasks of `project` can be listed.
pub open spec fn tasks_listable(m: Files, project: Seq<char>) -> bool {
    exists|tl: Vec<(String, crate::model::Document<crate::model::Task>)>|
        #[trigger] crate::ops::task::lists_tasks(m, project, Ok::<Vec<(String, crate::model::Document<crate::model::Task>)>, Error>(tl))
}

/// Whether the plans of `project` can be listed.
pub open spec fn plans_listable(m: Files, project: Seq<char>) -> bool {
    exists|ql: Vec<(String, crate::model::Document<crate::model::Plan>)>|
        #[trigger] crate::ops::plan::lists_plans(m, project, Ok::<Vec<(String, crate::model::Document<crate::model::Plan>)>, Error>(ql))
}

/// Every body of `project` with where it is and the commit it records:
/// each roadmap followed by its phases, then the tasks, the plans, and each
/// review followed by its comments. A failure to list any of them is
/// passed on.
pub fn project_bodies(store: &MemoryStore, project: &str) -> (r: Result<Vec<(DocRef, String, Option<String>)>>)
    ensures
        r matches Ok(v) ==> bodies_found(store.files(), project, body_views(v@)),
        r matches Err(e) ==> bodies_failure(store.files(), project, e),
{
    let ghost m = store.files();
    let mut out: Vec<(DocRef, String, Option<String>)> = Vec::new();
    let rl = match crate::ops::roadmap::list_roadmaps(store, project, None, None) {
        Ok(x) => x,
        Err(e) => {
            return Err(e);
        },
    };
    assert(crate::ops::roadmap::list_roadmaps_post(m, project, None, None, Ok::<Vec<crate::model::Document<crate::model::Roadmap>>, Error>(rl)));
    let ghost rv = rl@.map_values(|d: crate::model::Document<crate::model::Roadmap>| d@);
    let ghost mut pl: Seq<Vec<(String, crate::model::Document<crate::model::Phase>)>> = Seq::empty();
    let mut i: usize = 0;
    while i < rl.len()
        invariant
            i <= rl.len(),
            m == store.files(),
            crate::ops::roadmap::list_roadmaps_post(m, project, None, None, Ok::<Vec<crate::model::Document<crate::model::Roadmap>>, Error>(rl)),
            rv == rl@.map_values(|d: crate::model::Document<crate::model::Roadmap>| d@),
            pl.len() == i,
            forall|k: int| 0 <= k < i ==> #[trigger] crate::ops::phase::lists_phases(
                m, project@, rl@[k]@.frontmatter.roadmap, Ok::<Vec<(String, crate::model::Document<crate::model::Phase>)>, Error>(pl[k])),
            body_views(out@) == roadmap_bodies(rv.subrange(0, i as int), pl.map_values(
                |x: Vec<(String, crate::model::Document<crate::model::Phase>)>| crate::ops::phase::phase_views(x@))),
        decreases rl.len() - i,
    {
        let rd = &rl[i];
        let name = rd.frontmatter.roadmap.as_str();
        let phases = match crate::ops::phase::list_phases(store, project, name) {
            Ok(x) => x,
            Err(e) => {
                assert(crate::ops::phase::lists_phases(m, project@, rl@[i as int]@.frontmatter.roadmap, Err::<Vec<(String, crate::model::Document<crate::model::Phase>)>, Error>(e)));
                assert forall|k: int| 0 <= k < i implies phases_listable(m, project@, (#[trigger] rl@[k])@.frontmatter.roadmap) by {
                    assert(crate::ops::phase::lists_phases(
                        m, project@, rl@[k]@.frontmatter.roadmap, Ok::<Vec<(String, crate::model::Document<crate::model::Phase>)>, Error>(pl[k])));
                }
                assert(rl@[i as int] == rl@[i as int]);
                return Err(e);
            },
        };
        let ghost b0 = body_views(out@);
        out.push((DocRef::Roadmap { roadmap: rd.frontmatter.roadmap.clone() }, rd.body.clone(), None));
        assert(body_views(out@) =~= b0.push((DocRefView::Roadmap { roadmap: rv[i as int].frontmatter.roadmap }, rv[i as int].body, None)));
        let ghost b1 = body_views(out@);
        let ghost phv = crate::ops::phase::phase_views(phases@);
        let mut j: usize = 0;
        assert(b1 + phase_bodies(name@, phv.subrange(0, 0)) =~= b1);
        while j < phases.len()
            invariant
                j <= phases.len(),
                phv == crate::ops::phase::phase_views(phases@),
                name@ == rd.frontmatter.roadmap@,
                body_views(out@) == b1 + phase_bodies(name@, phv.subrange(0, j as int)),
            decreases phases.len() - j,
        {
            let ghost c0 = body_views(out@);
            assert(phv.subrange(0, j + 1).drop_last() =~= phv.subrange(0, j as int));
            assert(phv[j as int] == (phases[j as int].0@, phases[j as int].1@));
            out.push((
                DocRef::Phase { roadmap: rd.frontmatter.roadmap.clone(), stem: phases[j].0.clone() },
                phases[j].1.body.clone(),
                crate::model::copy_opt_string(&phases[j].1.frontmatter.commit),
            ));
            assert(body_views(out@) =~= c0.push((DocRefView::Phase { roadmap: name@, stem: phv[j as int].0 }, phv[j as int].1.body, phv[j as int].1.frontmatter.commit)));
            j = j + 1;
        }
        assert(phv.subrange(0, phases.len() as int) =~= phv);
        let ghost pl0 = pl;
        proof {
            pl = pl.push(phases);
            let f = |x: Vec<(String, crate::model::Document<crate::model::Phase>)>| crate::ops::phase::phase_views(x@);
            assert(pl.map_values(f).drop_last() =~= pl0.map_values(f));
            assert(rv.subrange(0, i + 1).drop_last() =~= rv.subrange(0, i as int));
            assert forall|k: int| 0 <= k < i + 1 implies #[trigger] crate::ops::phase::lists_phases(
                m, project@, rl@[k]@.frontmatter.roadmap, Ok::<Vec<(String, crate::model::Document<crate::model::Phase>)>, Error>(pl[k])) by {
                if k < i {
                    assert(pl[k] == pl0[k]);
                }
            }
        }
        i = i + 1;
    }
    assert(rv.subrange(0, rl.len() as int) =~= rv);
    assert forall|k: int| 0 <= k < rl.len() implies phases_listable(m, project@, (#[trigger] rl@[k])@.frontmatter.roadmap) by {
        assert(crate::ops::phase::lists_phases(
            m, project@, rl@[k]@.frontmatter.roadmap, Ok::<Vec<(String, crate::model::Document<crate::model::Phase>)>, Error>(pl[k])));
    }
    assert(roadmaps_listable(m, project));
    let ghost after_r = body_views(out@);
    let tl = match crate::ops::task::list_tasks(store, project) {
        Ok(x) => x,
        Err(e) => {
            return Err(e);
        },
    };
    assert(tasks_listable(m, project@));
    let ghost tv = crate::ops::task::task_views(tl@);
    let mut a: usize = 0;
    assert(after_r + task_bodies(tv.subrange(0, 0)) =~= after_r);
    while a < tl.len()
        invariant
            a <= tl.len(),
            tv == crate::ops::task::task_views(tl@),
            body_views(out@) == after_r + task_bodies(tv.subrange(0, a as int)),
            roadmaps_listable(m, project),
            tasks_listable(m, project@),
        decreases tl.len() - a,
    {
        let ghost c0 = body_views(out@);
        assert(tv.subrange(0, a + 1).drop_last() =~= tv.subrange(0, a as int));
        assert(tv[a as int] == (tl[a as int].0@, tl[a as int].1@));
        out.push((DocRef::Task { slug: tl[a].0.clone() }, tl[a].1.body.clone(), crate::model::copy_opt_string(&tl[a].1.frontmatter.commit)));
        assert(body_views(out@) =~= c0.push((DocRefView::Task { slug: tv[a as int].0 }, tv[a as int].1.body, tv[a as int].1.frontmatter.commit)));
        a = a + 1;
    }
    assert(tv.subrange(0, tl.len() as int) =~= tv);
    let ghost after_t = body_views(out@);
    let ql = match crate::ops::plan::list_plans(store, project) {
        Ok(x) => x,
        Err(e) => {
            return Err(e);
        },
    };
    assert(plans_listable(m, project@));
    let ghost qv = crate::ops::plan::plan_views(ql@);
    let mut b: usize = 0;
    assert(after_t + plan_bodies(qv.subrange(0, 0)) =~= after_t);
    while b < ql.len()
        invariant
            b <= ql.len(),
            qv == crate::ops::plan::plan_views(ql@),
            body_views(out@) == after_t + plan_bodies(qv.subrange(0, b as int)),
            roadmaps_listable(m, project),
            tasks_listable(m, project@),
            plans_listable(m, project@),
        decreases ql.len() - b,
    {
        let ghost c0 = body_views(out@);
        assert(qv.subrange(0, b + 1).drop_last() =~= qv.subrange(0, b as int));
        assert(qv[b as int] == (ql[b as int].0@, ql[b as int].1@));
        out.push((DocRef::Plan { slug: ql[b].0.clone() }, ql[b].1.body.clone(), None));
        assert(body_views(out@) =~= c0.push((DocRefView::Plan { slug: qv[b as int].0 }, qv[b as int].1.body, None)));
        b = b + 1;
    }
    assert(qv.subrange(0, ql.len() as int) =~= qv);
    let ghost after_q = body_views(out@);
    let vl = match crate::ops::reviews::list_reviews(store, project) {
        Ok(x) => x,
        Err(e) => {
            return Err(e);
        },
    };
    let ghost vv = crate::ops::reviews::review_views(vl@);
    let mut c: usize = 0;
    assert(after_q + review_bodies(vv.subrange(0, 0)) =~= after_q);
    while c < vl.len()
        invariant
            c <= vl.len(),
            vv == crate::ops::reviews::review_views(vl@),
            body_views(out@) == after_q + review_bodies(vv.subrange(0, c as int)),
        decreases vl.len() - c,
    {
        let ghost c0 = body_views(out@);
        assert(vv.subrange(0, c + 1).drop_last() =~= vv.subrange(0, c as int));
        assert(vv[c as int] == (vl[c as int].0@, vl[c as int].1@));
        out.push((DocRef::Review { id: vl[c].0.clone(), comment: None }, vl[c].1.body.clone(), None));
        let ghost c1 = body_views(out@);
        assert(c1 =~= c0.push((DocRefView::Review { id: vv[c as int].0, comment: None }, vv[c as int].1.body, None)));
        let comments = &vl[c].1.frontmatter.comments;
        let ghost cv = vv[c as int].1.frontmatter.comments;
        assert(cv == crate::model::comment_views(comments@));
        let mut e: usize = 0;
        assert(c1 + comment_bodies(vv[c as int].0, cv.subrange(0, 0)) =~= c1);
        while e < comments.len()
            invariant
                e <= comments.len(),
                cv == crate::model::comment_views(comments@),
                body_views(out@) == c1 + comment_bodies(vv[c as int].0, cv.subrange(0, e as int)),
                c < vl.len(),
                vv == crate::ops::reviews::review_views(vl@),
                comments == &vl@[c as int].1.frontmatter.comments,
            decreases comments.len() - e,
        {
            let ghost d0 = body_views(out@);
            assert(cv.subrange(0, e + 1).drop_last() =~= cv.subrange(0, e as int));
            assert(cv[e as int] == comments[e as int]@);
            out.push((DocRef::Review { id: vl[c].0.clone(), comment: Some(comments[e].id) }, comments[e].body.clone(), None));
            assert(body_views(out@) =~= d0.push((DocRefView::Review { id: vv[c as int].0, comment: Some(cv[e as int].id) }, cv[e as int].body, None)));
            e = e + 1;
        }
        assert(cv.subrange(0, comments.len() as int) =~= cv);
        c = c + 1;
    }
    assert(vv.subrange(0, vl.len() as int) =~= vv);
    assert(crate::ops::roadmap::list_roadmaps_post(m, project, None, None, Ok::<Vec<crate::model::Document<crate::model::Roadmap>>, Error>(rl)));
    Ok(out)
}

/// What loading the body of phase `stem` (a stem or a number) of
/// `roadmap` gives: the number resolved to its stem first, then the phase
/// file read.
pub open spec fn phase_body_loaded(m: Files, project: Seq<char>, roadmap: Seq<char>, stem: Seq<char>, r: Result<(DocRef, String, Option<String>)>) -> bool {
exists|rs: Result<String>|
            #[trigger] resolves_stem(m, project, roadmap, stem, rs) && match rs {
                Err(e) => r == Err::<(DocRef, String, Option<String>), Error>(e),
                Ok(s) => {
                    let p = phase_path_spec(project, roadmap, s@);
                    if !m.contains_key(p) {
                        r matches Err(e) && e is Io
                    } else {
                        match crate::io::phase_at(m, p) {
                            None => r matches Err(e) && e is FrontmatterParse,
                            Some(d) => r matches Ok(x) && x.0@ == DocRefView::Phase { roadmap, stem: s@ } && x.1@ == d.body
                                && x.2.deep_view() == d.frontmatter.commit,
                        }
                    }
                },
            }
}

/// What [`load_document_body`] gives for `target`: where the document is,
/// its body and the commit it records (a phase's or a task's; none for a
/// roadmap or a plan), a phase named by number resolved to its stem first;
/// a missing or unreadable document, or a failed resolution, is refused.
pub open spec fn body_loaded(m: Files, project: Seq<char>, target: ItemRefView, r: Result<(DocRef, String, Option<String>)>) -> bool {
    match target {
        ItemRefView::Roadmap { roadmap } => {
            let p = roadmap_path_spec(project, roadmap);
            if !m.contains_key(p) {
                r matches Err(Error::RoadmapNotFound(n)) && n@ == roadmap
            } else {
                match crate::io::roadmap_at(m, p) {
                    None => r matches Err(e) && e is FrontmatterParse,
                    Some(d) => r matches Ok(x) && x.0@ == DocRefView::Roadmap { roadmap } && x.1@ == d.body && x.2 is None,
                }
            }
        },
        ItemRefView::Phase { roadmap, stem } => phase_body_loaded(m, project, roadmap, stem, r),
        ItemRefView::Task { slug } => {
            let p = task_path_spec(project, slug);
            if !m.contains_key(p) {
                r matches Err(Error::TaskNotFound(n)) && n@ == slug
            } else {
                match crate::io::task_at(m, p) {
                    None => r matches Err(e) && e is FrontmatterParse,
                    Some(d) => r matches Ok(x) && x.0@ == DocRefView::Task { slug } && x.1@ == d.body
                        && x.2.deep_view() == d.frontmatter.commit,
                }
            }
        },
        ItemRefView::Plan { slug } => {
            let p = plan_path_spec(project, slug);
            if !m.contains_key(p) {
                r matches Err(Error::PlanNotFound(n)) && n@ == slug
            } else {
                match crate::io::plan_at(m, p) {
                    None => r matches Err(e) && e is FrontmatterParse,
                    Some(d) => r matches Ok(x) && x.0@ == DocRefView::Plan { slug } && x.1@ == d.body && x.2 is None,
                }
            }
        },
        ItemRefView::Change { .. } => r matches Err(Error::ChangeTargetHasNoDocument(l)) && l@ == crate::link::label_spec(target),
    }
}

fn load_phase_body(store: &MemoryStore, project: &str, roadmap: &String, stem: &String) -> (r: Result<(DocRef, String, Option<String>)>)
    ensures
        phase_body_loaded(store.files(), project@, roadmap@, stem@, r),
{
    let rs = resolve_phase_stem(store, project, roadmap.as_str(), stem.as_str());
    let ghost rsv = rs;
    assert(resolves_stem(store.files(), project@, roadmap@, stem@, rsv));
    let resolved = match rs {
        Ok(x) => x,
        Err(e) => {
            assert(rsv == Err::<String, Error>(e));
            return Err(e);
        },
    };
    assert(rsv == Ok::<String, Error>(resolved));
    let doc = match crate::io::load_phase(store, project, roadmap.as_str(), resolved.as_str()) {
        Ok(d) => d,
        Err(e) => {
            assert(resolves_stem(store.files(), project@, roadmap@, stem@, rsv));
            return Err(e);
        },
    };
    let commit = crate::model::copy_opt_string(&doc.frontmatter.commit);
    let out = (DocRef::Phase { roadmap: roadmap.clone(), stem: resolved }, doc.body, commit);
    assert(resolves_stem(store.files(), project@, roadmap@, stem@, rsv));
    Ok(out)
}

/// Loads the body of the document `target` names, with where it is and the
/// commit it records; see [`body_loaded`].
pub fn load_document_body(store: &MemoryStore, project: &str, target: &ItemRef) -> (r: Result<(DocRef, String, Option<String>)>)
    ensures
        body_loaded(store.files(), project@, target@, r),
{
    match target {
        ItemRef::Roadmap { roadmap } => {
            let doc = crate::io::load_roadmap(store, project, roadmap.as_str())?;
            Ok((DocRef::Roadmap { roadmap: roadmap.clone() }, doc.body, None))
        },
        ItemRef::Phase { roadmap, stem } => load_phase_body(store, project, roadmap, stem),
        ItemRef::Task { slug } => {
            let doc = crate::io::load_task(store, project, slug.as_str())?;
            let commit = crate::model::copy_opt_string(&doc.frontmatter.commit);
            Ok((DocRef::Task { slug: slug.clone() }, doc.body, commit))
        },
        ItemRef::Plan { slug } => {
            let doc = crate::io::load_plan(store, project, slug.as_str())?;
            Ok((DocRef::Plan { slug: slug.clone() }, doc.body, None))
        },
        ItemRef::Change { .. } => Err(Error::ChangeTargetHasNoDocument(target.label())),
    }
}

} // verus!
