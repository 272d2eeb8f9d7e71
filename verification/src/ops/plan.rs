//! Implementation plans: creating one for a phase or a task, listing and
//! filtering a project's plans, updating them, setting their status and
//! deleting them. A plan is created as a draft; a superseded plan stays
//! superseded.
use vstd::prelude::*;

use crate::error::{Error, Result};
use crate::io::{load_plan, plan_at, write_plan};
use crate::link::{label_spec, ItemRef, ItemRefView};
use crate::model::{opt_ref_view, Date, DocView, Document, Plan, PlanStatus, PlanView};
use crate::ops::links::{normalize_item_ref, normalized_ref};
use crate::ops::phase::{md_ext, md_trim, md_trimmed};
use crate::ops::update::{BodyUpdate, TitleUpdate};
use crate::paths::{
    phase_path, phase_path_spec, plan_path, plan_path_spec, plans_dir, plans_dir_spec, project_md_path, project_md_spec,
    task_path, task_path_spec,
};
use crate::store::{listed, DirEntryKind, EntryView, Files, MemoryStore};
use crate::text::{ends_with, is_suffix, lemma_seq_lt_asym, lemma_seq_lt_trans, owned, seq_lt, str_eq, str_lt};

verus! {

/// A request to create an implementation plan.
#[derive(Debug, Clone)]
pub struct CreatePlan<'a> {
    /// The project.
    pub project: &'a str,
    /// The plan's slug; it must be free.
    pub slug: &'a str,
    /// The plan's title.
    pub title: &'a str,
    /// The phase or task the plan implements; it must exist.
    pub implements: ItemRef,
    /// The plan this one replaces, which is then superseded; it must be
    /// another existing plan.
    pub supersedes: Option<ItemRef>,
    /// The plan's body, empty when `None`.
    pub body: Option<&'a str>,
}

/// Which plans a listing keeps; each criterion that is set must hold.
#[derive(Debug, Clone, Default)]
pub struct PlanFilter {
    /// Only plans implementing this item, the two ways of naming a phase
    /// taken as one.
    pub implements: Option<ItemRef>,
    /// Only plans with this status.
    pub status: Option<PlanStatus>,
}

/// Whether the file `name` in a project's plan directory is a plan: a
/// markdown file.
pub open spec fn is_plan_file(m: Files, project: Seq<char>, name: Seq<char>) -> bool {
    listed(m, plans_dir_spec(project), name, DirEntryKind::File) && is_suffix(md_ext(), name)
}

/// The slug and document of the plan file `name`.
pub open spec fn plan_item(m: Files, project: Seq<char>, name: Seq<char>) -> (
    Seq<char>,
    DocView<PlanView>,
) {
    (
        md_trimmed(name),
        plan_at(m, plan_path_spec(project, md_trimmed(name))).unwrap(),
    )
}

/// Whether every plan file holds a plan document.
pub open spec fn all_plan_docs(
    m: Files,
    project: Seq<char>,
    names: Seq<Seq<char>>,
) -> bool {
    forall|i: int|
        0 <= i < names.len() ==> (#[trigger] plan_at(
            m,
            plan_path_spec(project, md_trimmed(names[i])),
        )) is Some
}

/// Whether `names` lists the plan files of a project, each once.
pub open spec fn plan_files(
    m: Files,
    project: Seq<char>,
    names: Seq<Seq<char>>,
) -> bool {
    names.no_duplicates() && forall|x: Seq<char>|
        names.contains(x) <==> is_plan_file(m, project, x)
}

/// The slugs and documents of a list of plans.
pub open spec fn plan_views(v: Seq<(String, Document<Plan>)>) -> Seq<(Seq<char>, DocView<PlanView>)> {
    v.map_values(|x: (String, Document<Plan>)| (x.0@, x.1@))
}

/// Whether plans are in order of their slugs.
pub open spec fn plans_by_slug(v: Seq<(Seq<char>, DocView<PlanView>)>) -> bool {
    forall|i: int, j: int| 0 <= i < j < v.len() ==> !seq_lt((#[trigger] v[j]).0, (#[trigger] v[i]).0)
}

/// Whether every plan file of a project holds a plan document.
pub open spec fn plans_ok(m: Files, project: Seq<char>) -> bool {
    forall|name: Seq<char>|
        is_plan_file(m, project, name) ==> (#[trigger] plan_at(
            m,
            plan_path_spec(project, md_trimmed(name)),
        )) is Some
}

/// Whether `x` is the slug and document of one of a project's plan files.
pub open spec fn is_plan_item(
    m: Files,
    project: Seq<char>,
    x: (Seq<char>, DocView<PlanView>),
) -> bool {
    exists|name: Seq<char>|
        is_plan_file(m, project, name) && #[trigger] plan_item(m, project, name)
            == x
}

/// What a listing of a project's plans gives on a store: its plans ordered
/// by slug, each with its slug, each plan file once.
pub open spec fn lists_plans(
    m: Files,
    project: Seq<char>,
    r: Result<Vec<(String, Document<Plan>)>>,
) -> bool {
    &&& !m.contains_key(project_md_spec(project)) ==> (r matches Err(
        Error::ProjectNotFound(n),
    ) && n@ == project)
    &&& m.contains_key(project_md_spec(project)) && !plans_ok(m, project) ==> (
    r matches Err(e) && (e is PlanNotFound || e is FrontmatterParse))
    &&& m.contains_key(project_md_spec(project)) && plans_ok(m, project) ==> (
    r matches Ok(v) && plans_by_slug(plan_views(v@)) && exists|names: Seq<Seq<char>>|
        plan_files(m, project, names) && plan_views(v@).to_multiset() == names.map_values(
            |n: Seq<char>| plan_item(m, project, n),
        ).to_multiset())
}

/// The plans a listing returns are exactly the project's plan items.
pub proof fn lemma_listed_plans(
    m: Files,
    project: Seq<char>,
    v: Seq<(Seq<char>, DocView<PlanView>)>,
    names: Seq<Seq<char>>,
)
    requires
        plan_files(m, project, names),
        v.to_multiset() == names.map_values(|n: Seq<char>| plan_item(m, project, n)).to_multiset(),
    ensures
        forall|x: (Seq<char>, DocView<PlanView>)| v.contains(x) <==> is_plan_item(m, project, x),
{
    let f = |n: Seq<char>| plan_item(m, project, n);
    let w = names.map_values(f);
    assert forall|x: (Seq<char>, DocView<PlanView>)| v.contains(x) <==> is_plan_item(m, project, x) by {
        vstd::seq_lib::to_multiset_contains(v, x);
        vstd::seq_lib::to_multiset_contains(w, x);
        if w.contains(x) {
            let k = choose|k: int| 0 <= k < w.len() && w[k] == x;
            assert(names.contains(names[k]));
            assert(plan_item(m, project, names[k]) == x);
        }
        if is_plan_item(m, project, x) {
            let name = choose|name: Seq<char>| is_plan_file(m, project, name) && #[trigger] plan_item(m, project, name) == x;
            assert(names.contains(name));
            let k = choose|k: int| 0 <= k < names.len() && names[k] == name;
            assert(w[k] == x);
        }
    }
}

fn insert_plan_by_slug(out: &mut Vec<(String, Document<Plan>)>, x: (String, Document<Plan>))
    requires
        plans_by_slug(plan_views(old(out)@)),
    ensures
        plans_by_slug(plan_views(final(out)@)),
        plan_views(final(out)@).to_multiset() == plan_views(old(out)@).to_multiset().insert(
            (x.0@, x.1@),
        ),
{
    let ghost o = plan_views(out@);
    let ghost xv = (x.0@, x.1@);
    let mut p: usize = 0;
    let mut done = false;
    while p < out.len() && !done
        invariant
            p <= out.len(),
            o == plan_views(out@),
            xv.0 == x.0@,
            forall|k: int| 0 <= k < p ==> !seq_lt(xv.0, (#[trigger] o[k]).0),
            done ==> p < out.len() && seq_lt(xv.0, o[p as int].0),
        decreases out.len() - p, if done { 0int } else { 1int },
    {
        assert(o[p as int] == (out[p as int].0@, out[p as int].1@));
        if str_lt(x.0.as_str(), out[p].0.as_str()) {
            done = true;
        } else {
            p = p + 1;
        }
    }
    out.insert(p, x);
    let ghost n = plan_views(out@);
    assert(n =~= o.insert(p as int, xv));
    proof {
        vstd::seq_lib::to_multiset_insert(o, p as int, xv);
        assert forall|i: int, j: int| 0 <= i < j < n.len() implies !seq_lt((#[trigger] n[j]).0, (#[trigger] n[i]).0) by {
            if j < p {
                assert(n[i] == o[i] && n[j] == o[j]);
            } else if j == p {
                assert(n[i] == o[i]);
            } else if i == p {
                assert(n[j] == o[j - 1]);
                if seq_lt(o[j - 1].0, xv.0) {
                    if j - 1 > p {
                        assert(!seq_lt(o[j - 1].0, o[p as int].0));
                        lemma_seq_lt_trans(o[j - 1].0, xv.0, o[p as int].0);
                    } else {
                        lemma_seq_lt_asym(xv.0, o[p as int].0);
                    }
                }
            } else if i < p {
                assert(n[i] == o[i] && n[j] == o[j - 1]);
            } else {
                assert(n[i] == o[i - 1] && n[j] == o[j - 1]);
            }
        }
    }
}

/// The plans of a project ordered by slug, each with its slug; none when the
/// project has no plans directory yet.
pub fn list_plans(store: &MemoryStore, project: &str) -> (r: Result<
    Vec<(String, Document<Plan>)>,
>)
    ensures
        lists_plans(store.files(), project@, r),
{
    if !store.file_exists(&project_md_path(project)) {
        return Err(Error::ProjectNotFound(owned(project)));
    }
    let dir = plans_dir(project);
    let entries = store.list(&dir);
    let ghost m = store.files();
    let ghost item = |n: Seq<char>| plan_item(m, project@, n);
    let ghost mut names: Seq<Seq<char>> = Seq::empty();
    let mut out: Vec<(String, Document<Plan>)> = Vec::new();
    let mut i: usize = 0;
    proof {
        reveal_strlit(".md");
        assert(".md"@ =~= md_ext());
    }
    assert(plan_views(out@) =~= names.map_values(item));
    while i < entries.len()
        invariant
            i <= entries.len(),
            m == store.files(),
            m.contains_key(project_md_spec(project@)),
            item == (|n: Seq<char>| plan_item(m, project@, n)),
            ".md"@ == md_ext(),
            forall|a: int| 0 <= a < entries.len() ==> listed(m, plans_dir_spec(project@), #[trigger] entries[a].name@, entries[a].kind),
            forall|a: int, b: int| 0 <= a < b < entries.len() ==> !(entries[a].name@ == entries[b].name@ && entries[a].kind == entries[b].kind),
            forall|n: Seq<char>, k: DirEntryKind| listed(m, plans_dir_spec(project@), n, k) ==> exists|a: int| 0 <= a < entries.len() && entries[a].name@ == n && entries[a].kind == k,
            names.no_duplicates(),
            forall|k: int| 0 <= k < names.len() ==> is_plan_file(m, project@, #[trigger] names[k]),
            forall|k: int| 0 <= k < names.len() ==> exists|a: int| 0 <= a < i && entries[a].name@ == #[trigger] names[k] && entries[a].kind == DirEntryKind::File,
            forall|a: int| 0 <= a < i && is_plan_file(m, project@, #[trigger] entries[a].name@) && entries[a].kind == DirEntryKind::File ==> names.contains(entries[a].name@),
            all_plan_docs(m, project@, names),
            plans_by_slug(plan_views(out@)),
            plan_views(out@).to_multiset() == names.map_values(item).to_multiset(),
        decreases entries.len() - i,
    {
        let name = entries[i].name.as_str();
        if entries[i].kind == DirEntryKind::File && ends_with(name, ".md") {
            let stem = md_trim(name);
            let ghost nm = entries[i as int].name@;
            assert(is_plan_file(m, project@, nm));
            proof {
                if names.contains(nm) {
                    let k = choose|k: int| 0 <= k < names.len() && names[k] == nm;
                    let a = choose|a: int| 0 <= a < i && entries[a].name@ == names[k] && entries[a].kind == DirEntryKind::File;
                    assert(false);
                }
            }
            match load_plan(store, project, stem) {
                Ok(doc) => {
                    let ghost old_names = names;
                    let ghost ov = plan_views(out@);
                    proof {
                        names = names.push(nm);
                        assert(names.map_values(item) =~= old_names.map_values(item).push(item(nm)));
                        vstd::seq_lib::to_multiset_build(old_names.map_values(item), item(nm));
                        assert(item(nm) == (stem@, doc@));
                        assert forall|k: int| 0 <= k < names.len() implies (#[trigger] plan_at(m, plan_path_spec(project@, md_trimmed(names[k])))) is Some by {
                            if k < old_names.len() {
                                assert(names[k] == old_names[k]);
                            }
                        }
                        assert forall|a: int, b: int| 0 <= a < b < names.len() implies names[a] != names[b] by {
                            if b == names.len() - 1 {
                                assert(names[a] == old_names[a]);
                                assert(old_names.contains(old_names[a]));
                            } else {
                                assert(names[a] == old_names[a] && names[b] == old_names[b]);
                            }
                        }
                        assert forall|k: int| 0 <= k < names.len() implies exists|a: int| 0 <= a < i + 1 && entries[a].name@ == #[trigger] names[k] && entries[a].kind == DirEntryKind::File by {
                            if k < old_names.len() {
                                assert(names[k] == old_names[k]);
                            } else {
                                assert(entries[i as int].name@ == names[k]);
                            }
                        }
                        assert forall|a: int| 0 <= a < i + 1 && is_plan_file(m, project@, #[trigger] entries[a].name@) && entries[a].kind == DirEntryKind::File implies names.contains(entries[a].name@) by {
                            if a < i {
                                let k = choose|k: int| 0 <= k < old_names.len() && old_names[k] == entries[a].name@;
                                assert(names[k] == entries[a].name@);
                            } else {
                                assert(names[old_names.len() as int] == nm);
                            }
                        }
                    }
                    insert_plan_by_slug(&mut out, (owned(stem), doc));
                },
                Err(e) => {
                    assert(plan_at(m, plan_path_spec(project@, md_trimmed(nm))) is None);
                    return Err(e);
                },
            }
        } else {
            proof {
                if entries[i as int].kind == DirEntryKind::File {
                    assert(!is_plan_file(m, project@, entries[i as int].name@));
                }
            }
        }
        i = i + 1;
    }
    proof {
        assert forall|x: Seq<char>| names.contains(x) <==> is_plan_file(m, project@, x) by {
            if is_plan_file(m, project@, x) {
                let a = choose|a: int| 0 <= a < entries.len() && entries[a].name@ == x && entries[a].kind == DirEntryKind::File;
                assert(names.contains(entries[a].name@));
            }
            if names.contains(x) {
                let k = choose|k: int| 0 <= k < names.len() && names[k] == x;
                assert(is_plan_file(m, project@, names[k]));
            }
        }
        assert(plan_files(m, project@, names));
        assert forall|name: Seq<char>| is_plan_file(m, project@, name) implies (#[trigger] plan_at(
            m,
            plan_path_spec(project@, md_trimmed(name)),
        )) is Some by {
            assert(names.contains(name));
            let k = choose|k: int| 0 <= k < names.len() && names[k] == name;
            assert(plan_at(m, plan_path_spec(project@, md_trimmed(names[k]))) is Some);
        }
    }
    Ok(out)
}

/// The file of a phase or task reference.
pub open spec fn implemented_file(project: Seq<char>, t: ItemRefView) -> Seq<char> {
    match t {
        ItemRefView::Phase { roadmap, stem } => phase_path_spec(project, roadmap, stem),
        ItemRefView::Task { slug } => task_path_spec(project, slug),
        _ => Seq::empty(),
    }
}

/// Whether a reference names a phase or a task.
pub open spec fn phase_or_task(t: ItemRefView) -> bool {
    t is Phase || t is Task
}

/// What the normalized reference `n` of what a plan implements gives: the
/// reference when its file exists.
pub open spec fn implemented_exists(m: Files, project: Seq<char>, n: Result<ItemRef>, r: Result<ItemRef>) -> bool {
    match n {
        Err(e) => r == Err::<ItemRef, Error>(e),
        Ok(x) => if m.contains_key(implemented_file(project, x@)) {
            r matches Ok(y) && y@ == x@
        } else {
            r matches Err(Error::PlanImplementsMissing(l)) && l@ == label_spec(x@)
        },
    }
}

/// What checking what a plan implements gives: a phase or task reference,
/// normalized, whose file exists.
pub open spec fn implements_checked(m: Files, project: Seq<char>, t: ItemRefView, r: Result<ItemRef>) -> bool {
    if phase_or_task(t) {
        exists|n: Result<ItemRef>| #[trigger] normalized_ref(m, project, t, n) && implemented_exists(m, project, n, r)
    } else {
        r matches Err(Error::PlanImplementsInvalidKind(l)) && l@ == label_spec(t)
    }
}

fn check_implements(store: &MemoryStore, project: &str, implements: &ItemRef) -> (r: Result<ItemRef>)
    ensures
        implements_checked(store.files(), project@, implements@, r),
{
    match implements {
        ItemRef::Phase { .. } | ItemRef::Task { .. } => {},
        _ => {
            return Err(Error::PlanImplementsInvalidKind(implements.label()));
        },
    }
    let n = normalize_item_ref(store, project, implements);
    let ghost nv = n;
    assert(normalized_ref(store.files(), project@, implements@, nv));
    let x = match n {
        Ok(x) => x,
        Err(e) => {
            assert(implemented_exists(store.files(), project@, nv, Err::<ItemRef, Error>(e)));
            return Err(e);
        },
    };
    let path = match &x {
        ItemRef::Phase { roadmap, stem } => phase_path(project, roadmap.as_str(), stem.as_str()),
        ItemRef::Task { slug } => task_path(project, slug.as_str()),
        _ => {
            assert(false);
            return Err(Error::PlanImplementsInvalidKind(x.label()));
        },
    };
    if !store.file_exists(&path) {
        let r = Err(Error::PlanImplementsMissing(x.label()));
        assert(implemented_exists(store.files(), project@, nv, r));
        return r;
    }
    assert(implemented_exists(store.files(), project@, nv, Ok::<ItemRef, Error>(x)));
    Ok(x)
}

/// What checking the plan a new plan `slug` replaces gives: its slug, when
/// it is a plan reference to another plan that exists.
pub open spec fn supersedes_checked(m: Files, project: Seq<char>, slug: Seq<char>, s: Option<ItemRefView>, r: Result<Option<String>>) -> bool {
    match s {
        None => r matches Ok(None),
        Some(t) => match t {
            ItemRefView::Plan { slug: pred } => if pred == slug {
                r matches Err(Error::PlanSupersedesSelf(n)) && n@ == slug
            } else if !m.contains_key(plan_path_spec(project, pred)) {
                r matches Err(Error::PlanSupersedesMissing(n)) && n@ == pred
            } else {
                r matches Ok(Some(p)) && p@ == pred
            },
            _ => r matches Err(Error::PlanSupersedesInvalidKind(l)) && l@ == label_spec(t),
        },
    }
}

fn check_supersedes(store: &MemoryStore, project: &str, slug: &str, supersedes: &Option<ItemRef>) -> (r: Result<Option<String>>)
    ensures
        supersedes_checked(store.files(), project@, slug@, opt_ref_view(*supersedes), r),
{
    match supersedes {
        None => Ok(None),
        Some(t) => match t {
            ItemRef::Plan { slug: pred } => {
                if str_eq(pred.as_str(), slug) {
                    Err(Error::PlanSupersedesSelf(owned(slug)))
                } else if !store.file_exists(&plan_path(project, pred.as_str())) {
                    Err(Error::PlanSupersedesMissing(pred.clone()))
                } else {
                    Ok(Some(pred.clone()))
                }
            },
            _ => Err(Error::PlanSupersedesInvalidKind(t.label())),
        },
    }
}

/// A plan with a new status, updated on `today`.
pub open spec fn status_set(d: DocView<PlanView>, status: PlanStatus, today: Date) -> DocView<PlanView> {
    DocView { frontmatter: PlanView { status, updated: today, ..d.frontmatter }, ..d }
}

/// What [`set_plan_status`] gives and leaves.
pub open spec fn set_plan_status_post(m: Files, project: Seq<char>, slug: Seq<char>, status: PlanStatus, r: Result<Document<Plan>>, m2: Files) -> bool {
    let path = plan_path_spec(project, slug);
    &&& r is Err ==> m2 == m
    &&& !m.contains_key(path) ==> (r matches Err(Error::PlanNotFound(n)) && n@ == slug)
    &&& m.contains_key(path) ==> match plan_at(m, path) {
        None => r matches Err(e) && e is FrontmatterParse,
        Some(d) => if d.frontmatter.status == PlanStatus::Superseded && status != PlanStatus::Superseded {
            r matches Ok(doc) && doc@ == d && m2 == m
        } else {
            exists|today: Date|
                r matches Ok(doc) && crate::ops::backlog::calendar_date(today) && doc@ == #[trigger] status_set(d, status, today) && m2 == m.insert(
                    path,
                    EntryView::Plan(doc@),
                )
        },
    }
}

/// Sets a plan's status, dated today; a superseded plan stays superseded
/// (and is left as it is), and setting the status it has rewrites it.
pub fn set_plan_status(store: &mut MemoryStore, project: &str, slug: &str, status: PlanStatus) -> (r: Result<
    Document<Plan>,
>)
    ensures
        set_plan_status_post(old(store).files(), project@, slug@, status, r, final(store).files()),
{
    let mut doc = load_plan(store, project, slug)?;
    if doc.frontmatter.status == PlanStatus::Superseded && status != PlanStatus::Superseded {
        return Ok(doc);
    }
    let ghost d = doc@;
    let today = crate::clock::today();
    doc.frontmatter.status = status;
    doc.frontmatter.updated = today;
    assert(doc@ == status_set(d, status, today));
    write_plan(store, project, slug, &doc);
    Ok(doc)
}

/// A new plan's document: a draft, created and updated on `today`.
pub open spec fn new_plan_doc(req: CreatePlan, implements: ItemRefView, today: Date) -> DocView<PlanView> {
    DocView {
        frontmatter: PlanView {
            project: req.project@,
            plan: req.slug@,
            title: req.title@,
            implements,
            supersedes: opt_ref_view(req.supersedes),
            status: PlanStatus::Draft,
            created: today,
            updated: today,
        },
        body: match req.body {
            Some(b) => b@,
            None => Seq::empty(),
        },
    }
}

/// The new plan written over files `m1`, dated some day.
pub open spec fn plan_created(m1: Files, req: CreatePlan, x: ItemRefView, r: Result<Document<Plan>>, m2: Files) -> bool {
    exists|today: Date|
        r matches Ok(doc) && crate::ops::backlog::calendar_date(today) && doc@ == #[trigger] new_plan_doc(req, x, today) && m2 == m1.insert(
            plan_path_spec(req.project@, req.slug@),
            EntryView::Plan(doc@),
        )
}

/// The predecessor `pred`, stored as `d`, superseded on some day, then the
/// new plan written.
pub open spec fn superseded_then(m: Files, req: CreatePlan, x: ItemRefView, pred: Seq<char>, d: DocView<PlanView>, r: Result<Document<Plan>>, m2: Files) -> bool {
    exists|t1: Date|
        plan_created(
            m.insert(plan_path_spec(req.project@, pred), EntryView::Plan(#[trigger] status_set(d, PlanStatus::Superseded, t1))),
            req,
            x,
            r,
            m2,
        )
}

/// What follows the check of the plan replaced, `sr`.
pub open spec fn supersedes_next(m: Files, req: CreatePlan, x: ItemRefView, sr: Result<Option<String>>, r: Result<Document<Plan>>, m2: Files) -> bool {
    match sr {
        Err(e) => r == Err::<Document<Plan>, Error>(e),
        Ok(None) => plan_created(m, req, x, r, m2),
        Ok(Some(pred)) => match plan_at(m, plan_path_spec(req.project@, pred@)) {
            None => r matches Err(e) && e is FrontmatterParse,
            Some(d) => superseded_then(m, req, x, pred@, d, r, m2),
        },
    }
}

/// What follows the check of what the plan implements, `ir`.
pub open spec fn implements_next(m: Files, req: CreatePlan, ir: Result<ItemRef>, r: Result<Document<Plan>>, m2: Files) -> bool {
    match ir {
        Err(e) => r == Err::<Document<Plan>, Error>(e),
        Ok(x) => exists|sr: Result<Option<String>>|
            #[trigger] supersedes_checked(m, req.project@, req.slug@, opt_ref_view(req.supersedes), sr)
                && supersedes_next(m, req, x@, sr, r, m2),
    }
}

/// What [`create_plan`] gives and leaves. The checks come in a fixed order:
/// the project, a free slug, what the plan implements, what it replaces.
pub open spec fn create_plan_post(m: Files, req: CreatePlan, r: Result<Document<Plan>>, m2: Files) -> bool {
    let project = req.project@;
    let path = plan_path_spec(project, req.slug@);
    &&& r is Err ==> m2 == m
    &&& !m.contains_key(project_md_spec(project)) ==> (r matches Err(Error::ProjectNotFound(n)) && n@ == project)
    &&& m.contains_key(project_md_spec(project)) && m.contains_key(path) ==> (r matches Err(Error::PlanExists(n))
        && n@ == req.slug@)
    &&& m.contains_key(project_md_spec(project)) && !m.contains_key(path) ==> exists|ir: Result<ItemRef>|
        #[trigger] implements_checked(m, project, req.implements@, ir) && implements_next(m, req, ir, r, m2)
}

/// Creates a draft plan, dated today, implementing an existing phase or
/// task (a phase named by number is stored with its stem). A plan it
/// replaces is superseded first, so that a refused request writes nothing.
pub fn create_plan(store: &mut MemoryStore, req: CreatePlan) -> (r: Result<Document<Plan>>)
    ensures
        create_plan_post(old(store).files(), req, r, final(store).files()),
{
    let ghost m = store.files();
    let ghost req0 = req;
    let CreatePlan { project, slug, title, implements, supersedes, body } = req;
    if !store.file_exists(&project_md_path(project)) {
        return Err(Error::ProjectNotFound(owned(project)));
    }
    if store.file_exists(&plan_path(project, slug)) {
        return Err(Error::PlanExists(owned(slug)));
    }
    let ir = check_implements(store, project, &implements);
    let ghost irv = ir;
    assert(implements_checked(m, project@, implements@, irv));
    let x = match ir {
        Ok(x) => x,
        Err(e) => {
            assert(implements_next(m, req0, irv, Err::<Document<Plan>, Error>(e), m));
            return Err(e);
        },
    };
    let sr = check_supersedes(store, project, slug, &supersedes);
    let ghost srv = sr;
    assert(supersedes_checked(m, project@, slug@, opt_ref_view(supersedes), srv));
    let pred = match sr {
        Ok(p) => p,
        Err(e) => {
            assert(supersedes_next(m, req0, x@, srv, Err::<Document<Plan>, Error>(e), m));
            assert(implements_next(m, req0, irv, Err::<Document<Plan>, Error>(e), m));
            return Err(e);
        },
    };
    let ghost m1 = store.files();
    match &pred {
        Some(p) => {
            let st = set_plan_status(store, project, p.as_str(), PlanStatus::Superseded);
            match st {
                Ok(_) => {},
                Err(e) => {
                    assert(supersedes_next(m, req0, x@, srv, Err::<Document<Plan>, Error>(e), m));
                    assert(implements_next(m, req0, irv, Err::<Document<Plan>, Error>(e), m));
                    return Err(e);
                },
            }
        },
        None => {},
    }
    let ghost m2 = store.files();
    let today = crate::clock::today();
    let doc = Document {
        frontmatter: Plan {
            project: owned(project),
            plan: owned(slug),
            title: owned(title),
            implements: x,
            supersedes,
            status: PlanStatus::Draft,
            created: today,
            updated: today,
        },
        body: match body {
            Some(b) => owned(b),
            None => String::new(),
        },
    };
    assert(doc@ == new_plan_doc(req0, doc.frontmatter.implements@, today));
    write_plan(store, project, slug, &doc);
    proof {
        let r = Ok::<Document<Plan>, Error>(doc);
        assert(plan_created(m2, req0, doc.frontmatter.implements@, r, store.files()));
        assert(supersedes_next(m, req0, doc.frontmatter.implements@, srv, r, store.files()));
        assert(implements_next(m, req0, irv, r, store.files()));
    }
    Ok(doc)
}

/// A plan with a new title and body, updated on `today`.
pub open spec fn plan_updated(d: DocView<PlanView>, title: TitleUpdate, body: BodyUpdate, today: Date) -> DocView<PlanView> {
    DocView {
        frontmatter: PlanView {
            title: match title {
                TitleUpdate::Keep => d.frontmatter.title,
                TitleUpdate::SetTo(t) => t@,
            },
            updated: today,
            ..d.frontmatter
        },
        body: match body {
            BodyUpdate::Keep => d.body,
            BodyUpdate::Clear => Seq::empty(),
            BodyUpdate::SetTo(b) => b@,
        },
    }
}

/// What [`update_plan`] gives and leaves.
pub open spec fn update_plan_post(m: Files, project: Seq<char>, slug: Seq<char>, title: TitleUpdate, body: BodyUpdate, r: Result<Document<Plan>>, m2: Files) -> bool {
    let path = plan_path_spec(project, slug);
    &&& r is Err ==> m2 == m
    &&& !m.contains_key(path) ==> (r matches Err(Error::PlanNotFound(n)) && n@ == slug)
    &&& m.contains_key(path) ==> match plan_at(m, path) {
        None => r matches Err(e) && e is FrontmatterParse,
        Some(d) => if title matches TitleUpdate::SetTo(t) && crate::text::is_blank(t@) {
            r matches Err(Error::EmptyTitle)
        } else if body matches BodyUpdate::SetTo(b) && b@.len() == 0 && d.body.len() > 0 {
            r matches Err(Error::BodyClobberRefused)
        } else {
            exists|today: Date|
                r matches Ok(doc) && crate::ops::backlog::calendar_date(today) && doc@ == #[trigger] plan_updated(d, title, body, today) && m2 == m.insert(
                    path,
                    EntryView::Plan(doc@),
                )
        },
    }
}

/// Changes a plan's title and body, dated today; its status is not set
/// here.
pub fn update_plan(store: &mut MemoryStore, project: &str, slug: &str, title: TitleUpdate, body: BodyUpdate) -> (r:
    Result<Document<Plan>>)
    ensures
        update_plan_post(old(store).files(), project@, slug@, title, body, r, final(store).files()),
{
    let mut doc = load_plan(store, project, slug)?;
    let ghost d = doc@;
    let ghost tu = title;
    let ghost bu = body;
    title.apply(&mut doc.frontmatter.title)?;
    body.apply(&mut doc.body)?;
    let today = crate::clock::today();
    doc.frontmatter.updated = today;
    assert(doc@ == plan_updated(d, tu, bu, today));
    write_plan(store, project, slug, &doc);
    Ok(doc)
}

/// What [`delete_plan`] gives and leaves.
pub open spec fn delete_plan_post(m: Files, project: Seq<char>, slug: Seq<char>, r: Result<()>, m2: Files) -> bool {
    let path = plan_path_spec(project, slug);
    &&& !m.contains_key(path) ==> (r matches Err(Error::PlanNotFound(n)) && n@ == slug) && m2 == m
    &&& m.contains_key(path) ==> r is Ok && m2 == m.remove(path)
}

/// Deletes a plan's file; reviews of it are left as they are.
pub fn delete_plan(store: &mut MemoryStore, project: &str, slug: &str) -> (r: Result<()>)
    ensures
        delete_plan_post(old(store).files(), project@, slug@, r, final(store).files()),
{
    let path = plan_path(project, slug);
    if !store.file_exists(&path) {
        return Err(Error::PlanNotFound(owned(slug)));
    }
    store.delete(&path)
}

/// Whether the normalized wanted reference `w` equals plan reference `a`
/// once that is normalized too.
pub open spec fn actual_matched(m: Files, project: Seq<char>, w: ItemRefView, a: ItemRefView, r: Result<bool>) -> bool {
    exists|x: Result<ItemRef>|
        #[trigger] normalized_ref(m, project, a, x) && match x {
            Err(e) => r == Err::<bool, Error>(e),
            Ok(xv) => r == Ok::<bool, Error>(w == xv@),
        }
}

/// Whether plan reference `a` names the item `t` names, both normalized.
pub open spec fn implements_matched(m: Files, project: Seq<char>, t: ItemRefView, a: ItemRefView, r: Result<bool>) -> bool {
    exists|w: Result<ItemRef>|
        #[trigger] normalized_ref(m, project, t, w) && match w {
            Err(e) => r == Err::<bool, Error>(e),
            Ok(wv) => actual_matched(m, project, wv@, a, r),
        }
}

/// What [`plan_matches`] gives: the status first, then what the plan
/// implements, with the two ways of naming a phase taken as one.
pub open spec fn plan_matched(m: Files, project: Seq<char>, plan: PlanView, f: PlanFilter, r: Result<bool>) -> bool {
    if f.status matches Some(s) && plan.status != s {
        r == Ok::<bool, Error>(false)
    } else {
        match f.implements {
            None => r == Ok::<bool, Error>(true),
            Some(t) => implements_matched(m, project, t@, plan.implements, r),
        }
    }
}

/// Whether `plan` passes `filter`; see [`plan_matched`]. Only a store
/// failure while resolving a phase number is an error.
pub fn plan_matches(store: &MemoryStore, project: &str, plan: &Plan, filter: &PlanFilter) -> (r: Result<bool>)
    ensures
        plan_matched(store.files(), project@, plan@, *filter, r),
{
    let status_ok = match filter.status {
        Some(s) => plan.status == s,
        None => true,
    };
    if !status_ok {
        return Ok(false);
    }
    match &filter.implements {
        None => Ok(true),
        Some(target) => {
            let w = normalize_item_ref(store, project, target);
            let ghost wv = w;
            assert(normalized_ref(store.files(), project@, target@, wv));
            let wanted = match w {
                Ok(x) => x,
                Err(e) => {
                    assert(implements_matched(store.files(), project@, target@, plan.implements@, Err::<bool, Error>(e)));
                    return Err(e);
                },
            };
            let a = normalize_item_ref(store, project, &plan.implements);
            let ghost av = a;
            assert(normalized_ref(store.files(), project@, plan.implements@, av));
            let actual = match a {
                Ok(x) => x,
                Err(e) => {
                    assert(actual_matched(store.files(), project@, wanted@, plan.implements@, Err::<bool, Error>(e)));
                    assert(implements_matched(store.files(), project@, target@, plan.implements@, Err::<bool, Error>(e)));
                    return Err(e);
                },
            };
            let same = wanted.same(&actual);
            assert(actual_matched(store.files(), project@, wanted@, plan.implements@, Ok::<bool, Error>(same)));
            assert(implements_matched(store.files(), project@, target@, plan.implements@, Ok::<bool, Error>(same)));
            Ok(same)
        },
    }
}

/// Whether `outs` are the outcomes of matching plans `v` in order: one per
/// plan, up to the first error, where matching stops.
pub open spec fn match_outcomes(m: Files, project: Seq<char>, v: Seq<(Seq<char>, DocView<PlanView>)>, f: PlanFilter, outs: Seq<Result<bool>>) -> bool {
    &&& outs.len() <= v.len()
    &&& forall|i: int| 0 <= i < outs.len() ==> #[trigger] plan_matched(m, project, v[i].1.frontmatter, f, outs[i])
    &&& outs.len() < v.len() ==> outs.len() > 0 && outs.last() is Err
}

/// The plans of `v` that outcomes `outs` keep, in order, or their first
/// error.
pub open spec fn kept_plans(v: Seq<(Seq<char>, DocView<PlanView>)>, outs: Seq<Result<bool>>) -> Result<Seq<(Seq<char>, DocView<PlanView>)>>
    decreases outs.len(),
{
    if outs.len() == 0 {
        Ok(Seq::empty())
    } else {
        match kept_plans(v, outs.drop_last()) {
            Err(e) => Err(e),
            Ok(k) => match outs.last() {
                Err(e) => Err(e),
                Ok(keep) => Ok(
                    if keep {
                        k.push(v[outs.len() - 1])
                    } else {
                        k
                    },
                ),
            },
        }
    }
}

/// What [`filter_plans`] gives: the plans that pass, in order, or the first
/// error met.
pub open spec fn plans_filtered(m: Files, project: Seq<char>, v: Seq<(Seq<char>, DocView<PlanView>)>, f: PlanFilter, r: Result<Vec<(String, Document<Plan>)>>) -> bool {
    exists|outs: Seq<Result<bool>>|
        #[trigger] match_outcomes(m, project, v, f, outs) && match kept_plans(v, outs) {
            Err(e) => r == Err::<Vec<(String, Document<Plan>)>, Error>(e),
            Ok(k) => r matches Ok(w) && plan_views(w@) == k,
        }
}

/// The plans that pass `filter`, in their order; see [`plans_filtered`].
pub fn filter_plans(store: &MemoryStore, project: &str, plans: Vec<(String, Document<Plan>)>, filter: &PlanFilter) -> (r:
    Result<Vec<(String, Document<Plan>)>>)
    ensures
        plans_filtered(store.files(), project@, plan_views(plans@), *filter, r),
{
    let ghost m = store.files();
    let ghost v = plan_views(plans@);
    let ghost mut outs: Seq<Result<bool>> = Seq::empty();
    let mut kept: Vec<(String, Document<Plan>)> = Vec::new();
    let mut i: usize = 0;
    assert(plan_views(kept@) =~= Seq::<(Seq<char>, DocView<PlanView>)>::empty());
    while i < plans.len()
        invariant
            i <= plans.len(),
            m == store.files(),
            v == plan_views(plans@),
            outs.len() == i,
            forall|k: int| 0 <= k < i ==> #[trigger] plan_matched(m, project@, v[k].1.frontmatter, *filter, outs[k]),
            kept_plans(v, outs) == Ok::<Seq<(Seq<char>, DocView<PlanView>)>, Error>(plan_views(kept@)),
        decreases plans.len() - i,
    {
        assert(v[i as int] == (plans[i as int].0@, plans[i as int].1@));
        let res = plan_matches(store, project, &plans[i].1.frontmatter, filter);
        let ghost o0 = outs;
        proof {
            outs = outs.push(res);
            assert(outs.drop_last() =~= o0);
            assert forall|k: int| 0 <= k < i + 1 implies #[trigger] plan_matched(m, project@, v[k].1.frontmatter, *filter, outs[k]) by {
                if k < i {
                    assert(outs[k] == o0[k]);
                }
            }
        }
        match res {
            Ok(keep) => {
                if keep {
                    let ghost k0 = plan_views(kept@);
                    kept.push((plans[i].0.clone(), plans[i].1.duplicate()));
                    assert(plan_views(kept@) =~= k0.push(v[i as int]));
                }
            },
            Err(e) => {
                assert(match_outcomes(m, project@, v, *filter, outs));
                return Err(e);
            },
        }
        i = i + 1;
    }
    assert(match_outcomes(m, project@, v, *filter, outs));
    Ok(kept)
}

/// What [`plans_implementing`] gives: the listing's plans that implement
/// `target`, or the first error met.
pub open spec fn implementing_post(m: Files, project: Seq<char>, target: ItemRef, r: Result<Vec<(String, Document<Plan>)>>) -> bool {
    exists|l: Result<Vec<(String, Document<Plan>)>>|
        #[trigger] lists_plans(m, project, l) && match l {
            Err(e) => r == Err::<Vec<(String, Document<Plan>)>, Error>(e),
            Ok(v) => plans_filtered(m, project, plan_views(v@), PlanFilter { implements: Some(target), status: None }, r),
        }
}

/// The plans implementing `target`, by slug, the two ways of naming a
/// phase taken as one.
pub fn plans_implementing(store: &MemoryStore, project: &str, target: &ItemRef) -> (r: Result<Vec<(String, Document<Plan>)>>)
    ensures
        exists|t: ItemRef| #[trigger] implementing_post(store.files(), project@, t, r) && t@ == target@,
{
    let l = list_plans(store, project);
    let ghost lv = l;
    assert(lists_plans(store.files(), project@, lv));
    match l {
        Ok(v) => {
            let filter = PlanFilter { implements: Some(target.duplicate()), status: None };
            let ghost t = filter.implements.unwrap();
            let r = filter_plans(store, project, v, &filter);
            assert(filter == PlanFilter { implements: Some(t), status: None });
            assert(implementing_post(store.files(), project@, t, r) && t@ == target@);
            r
        },
        Err(e) => {
            assert(implementing_post(store.files(), project@, *target, Err::<Vec<(String, Document<Plan>)>, Error>(e)));
            Err(e)
        },
    }
}

} // verus!
