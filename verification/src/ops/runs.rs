//! Run records: recording a run, starting and ending its units, closing
//! it, and listing a project's runs. Every operation takes the moment it
//! records as an argument; none reads the clock.
//!
//! A run is `open` until it is closed or abandoned; while it is open, units
//! are started and ended one at a time.
use vstd::prelude::*;

use crate::error::{Error, Result};
use crate::io::{is_single_component, load_run, run_at, single_component, write_run};
use crate::model::{
    DocView, Document, Run, RunDriver, RunStatus, RunTarget, RunTargetView, RunUnit, RunUnitView,
    RunView, Timestamp, unit_views,
};
use crate::ops::phase::{md_ext, md_trim, md_trimmed, resolve_phase_stem, resolves_stem};
use crate::ops::reviews::{candidate_ids, generate_review_id, hex4, hex_digit, review_id_spec, MAX_ID_ATTEMPTS};
use crate::paths::{
    phase_path, phase_path_spec, project_md_path, project_md_spec, roadmap_path, roadmap_path_spec,
    run_path, run_path_spec, runs_dir, runs_dir_spec, task_path, task_path_spec,
};
use crate::store::{listed, DirEntryKind, EntryView, Files, MemoryStore};
use crate::text::{
    blank, decimal, digit_char, ends_with, has_char, is_blank, is_suffix, lemma_seq_lt_asym,
    lemma_seq_lt_trans, owned, seq_lt, str_eq, str_lt,
};

verus! {

/// A request to record a run.
#[derive(Debug, Clone)]
pub struct CreateRun<'a> {
    /// The project the run belongs to.
    pub project: &'a str,
    /// The lane driver that opens the run.
    pub driver: RunDriver,
    /// The roadmap or task the run drives; it must exist.
    pub target: RunTarget,
    /// The session the run ran in; an empty one counts as none.
    pub session_uuid: Option<&'a str>,
    /// The driver's invocation arguments; empty ones count as none.
    pub args: Option<&'a str>,
    /// When the run starts; its id is minted from this moment.
    pub now: Timestamp,
}

/// An optional text, an empty one taken as absent.
pub open spec fn non_empty(s: Option<&str>) -> Option<Seq<char>> {
    match s {
        Some(v) => if v@.len() > 0 {
            Some(v@)
        } else {
            None
        },
        None => None,
    }
}

fn non_empty_text(s: Option<&str>) -> (r: Option<String>)
    ensures
        r.deep_view() == non_empty(s),
{
    match s {
        Some(v) => if v.unicode_len() > 0 {
            Some(owned(v))
        } else {
            None
        },
        None => None,
    }
}

/// The file of what a run drives.
pub open spec fn run_target_path(project: Seq<char>, t: RunTargetView) -> Seq<char> {
    match t {
        RunTargetView::Roadmap(s) => roadmap_path_spec(project, s),
        RunTargetView::Task(s) => task_path_spec(project, s),
    }
}

/// The error for a run target that does not exist.
pub open spec fn target_missing(t: RunTargetView, e: Error) -> bool {
    match t {
        RunTargetView::Roadmap(s) => e matches Error::RoadmapNotFound(n) && n@ == s,
        RunTargetView::Task(s) => e matches Error::TaskNotFound(n) && n@ == s,
    }
}

/// Whether `c` is neither `/` nor `\\`.
pub open spec fn plain_char(c: char) -> bool {
    c != '/' && c != '\\'
}

/// Whether no character of `s` is `/` or `\\`.
pub open spec fn plain(s: Seq<char>) -> bool {
    forall|i: int| 0 <= i < s.len() ==> plain_char(#[trigger] s[i])
}

proof fn lemma_plain_concat(a: Seq<char>, b: Seq<char>)
    requires
        plain(a),
        plain(b),
    ensures
        plain(a + b),
{
    assert forall|i: int| 0 <= i < (a + b).len() implies plain_char(#[trigger] (a + b)[i]) by {
        if i < a.len() {
            assert((a + b)[i] == a[i]);
        } else {
            assert((a + b)[i] == b[i - a.len()]);
        }
    }
}

proof fn lemma_decimal_plain(n: nat)
    ensures
        plain(decimal(n)),
    decreases n,
{
    if n >= 10 {
        lemma_decimal_plain(n / 10);
        assert(plain(seq![digit_char(n % 10)]));
        lemma_plain_concat(decimal(n / 10), seq![digit_char(n % 10)]);
    } else {
        assert(plain(seq![digit_char(n)]));
    }
}

proof fn lemma_padded_plain(n: nat, width: nat)
    ensures
        plain(crate::model::padded(n, width)),
    decreases width,
{
    lemma_decimal_plain(n);
    if !(decimal(n).len() >= width || width == 0) {
        lemma_padded_plain(n, (width - 1) as nat);
        assert(plain(seq!['0']));
        lemma_plain_concat(seq!['0'], crate::model::padded(n, (width - 1) as nat));
    }
}

/// A run id minted from a moment and a suffix is a single path component.
pub proof fn lemma_minted_id_single(now: Timestamp, suffix: u16)
    ensures
        single_component(review_id_spec(now, suffix)),
{
    let d = now.date;
    lemma_padded_plain(d.year as nat, 4);
    lemma_padded_plain(d.month as nat, 2);
    lemma_padded_plain(d.day as nat, 2);
    lemma_padded_plain(now.hour as nat, 2);
    lemma_padded_plain(now.minute as nat, 2);
    let dash = "-"@;
    reveal_strlit("-");
    reveal_strlit(".");
    reveal_strlit("..");
    assert(plain(dash));
    let h = hex4(suffix);
    assert forall|i: int| 0 <= i < h.len() implies plain_char(#[trigger] h[i]) by {
        let ds = seq![(suffix / 4096) as nat, ((suffix / 256) % 16) as nat, ((suffix / 16) % 16) as nat, (suffix % 16) as nat];
        assert(h[i] == hex_digit(ds[i]));
        assert(ds[i] < 16);
    }
    let p = crate::model::padded(d.year as nat, 4) + dash + crate::model::padded(d.month as nat, 2);
    lemma_plain_concat(crate::model::padded(d.year as nat, 4), dash);
    lemma_plain_concat(crate::model::padded(d.year as nat, 4) + dash, crate::model::padded(d.month as nat, 2));
    lemma_plain_concat(p, dash);
    lemma_plain_concat(p + dash, crate::model::padded(d.day as nat, 2));
    let iso = d.iso_spec();
    assert(iso == p + dash + crate::model::padded(d.day as nat, 2));
    lemma_plain_concat(iso, dash);
    lemma_plain_concat(iso + dash, crate::model::padded(now.hour as nat, 2));
    lemma_plain_concat(iso + dash + crate::model::padded(now.hour as nat, 2), crate::model::padded(now.minute as nat, 2));
    let q = iso + dash + crate::model::padded(now.hour as nat, 2) + crate::model::padded(now.minute as nat, 2);
    lemma_plain_concat(q, dash);
    lemma_plain_concat(q + dash, h);
    let id = review_id_spec(now, suffix);
    assert(id == q + dash + h);
    assert(id.len() >= 5);
    assert(id != "."@);
    assert(id != ".."@);
    assert(!has_char(id, '/'));
    assert(!has_char(id, '\\'));
}

/// The first of at most [`MAX_ID_ATTEMPTS`] candidates with no run file.
pub open spec fn first_free_run_id(m: Files, project: Seq<char>, cands: Seq<Seq<char>>, i: int) -> bool {
    &&& 0 <= i < cands.len()
    &&& i < MAX_ID_ATTEMPTS
    &&& !m.contains_key(run_path_spec(project, cands[i]))
    &&& forall|k: int| 0 <= k < i ==> m.contains_key(run_path_spec(project, #[trigger] cands[k]))
}

/// What [`next_available_run_id`] gives: the first free candidate among the
/// first [`MAX_ID_ATTEMPTS`], or [`Error::RunIdExhausted`].
pub open spec fn next_run_id_post(m: Files, project: Seq<char>, cands: Seq<Seq<char>>, r: Result<String>) -> bool {
    &&& (exists|i: int| first_free_run_id(m, project, cands, i)) ==> exists|i: int|
        first_free_run_id(m, project, cands, i) && (r matches Ok(id) && id@ == cands[i])
    &&& (forall|k: int| 0 <= k < cands.len() && k < MAX_ID_ATTEMPTS ==> m.contains_key(
        run_path_spec(project, #[trigger] cands[k]),
    )) ==> (r matches Err(Error::RunIdExhausted))
    &&& r matches Ok(id) ==> exists|i: int| first_free_run_id(m, project, cands, i) && id@ == cands[i]
    &&& r matches Err(e) ==> e is RunIdExhausted
}

/// The first candidate id, of at most [`MAX_ID_ATTEMPTS`], that no run file
/// holds yet.
pub fn next_available_run_id(store: &MemoryStore, project: &str, candidates: &Vec<String>) -> (r:
    Result<String>)
    ensures
        next_run_id_post(store.files(), project@, candidates.deep_view(), r),
{
    let ghost cv = candidates.deep_view();
    let mut i: usize = 0;
    while i < candidates.len() && i < MAX_ID_ATTEMPTS
        invariant
            i <= candidates.len(),
            i <= MAX_ID_ATTEMPTS,
            cv == candidates.deep_view(),
            forall|k: int| 0 <= k < i ==> store.files().contains_key(run_path_spec(project@, #[trigger] cv[k])),
        decreases candidates.len() - i,
    {
        assert(cv[i as int] == candidates[i as int]@);
        if !store.file_exists(&run_path(project, candidates[i].as_str())) {
            proof {
                assert(first_free_run_id(store.files(), project@, cv, i as int));
                assert forall|j: int| first_free_run_id(store.files(), project@, cv, j) implies j == i by {
                    if j < i {
                        assert(store.files().contains_key(run_path_spec(project@, cv[j])));
                    } else if j > i {
                        assert(store.files().contains_key(run_path_spec(project@, cv[i as int])));
                    }
                }
            }
            return Ok(candidates[i].clone());
        }
        i = i + 1;
    }
    proof {
        assert forall|j: int| !first_free_run_id(store.files(), project@, cv, j) by {
            if 0 <= j < cv.len() && j < MAX_ID_ATTEMPTS {
                assert(store.files().contains_key(run_path_spec(project@, cv[j])));
            }
        }
    }
    Err(Error::RunIdExhausted)
}

/// A new run's document: open, started at the request's moment, no units.
pub open spec fn new_run_doc(id: Seq<char>, req: CreateRun) -> DocView<RunView> {
    DocView {
        frontmatter: RunView {
            id,
            project: req.project@,
            driver: req.driver,
            target: req.target@,
            session_uuid: non_empty(req.session_uuid),
            args: non_empty(req.args),
            status: RunStatus::Open,
            started: req.now,
            ended: None,
            stop_reason: None,
            units: Seq::empty(),
        },
        body: Seq::empty(),
    }
}

/// What [`create_run`] gives and leaves.
pub open spec fn create_run_post(m: Files, req: CreateRun, suffixes: Seq<u16>, r: Result<Document<Run>>, m2: Files) -> bool {
    let project = req.project@;
    let cands = candidate_ids(req.now, suffixes);
    &&& r is Err ==> m2 == m
    &&& !m.contains_key(project_md_spec(project)) ==> (r matches Err(Error::ProjectNotFound(n))
        && n@ == project)
    &&& m.contains_key(project_md_spec(project)) && !m.contains_key(run_target_path(project, req.target@))
        ==> (r matches Err(e) && target_missing(req.target@, e))
    &&& m.contains_key(project_md_spec(project)) && m.contains_key(run_target_path(project, req.target@))
        ==> {
        &&& (forall|k: int| 0 <= k < cands.len() && k < MAX_ID_ATTEMPTS ==> m.contains_key(
            run_path_spec(project, #[trigger] cands[k]),
        )) ==> (r matches Err(Error::RunIdExhausted))
        &&& (exists|i: int| first_free_run_id(m, project, cands, i)) ==> exists|i: int|
            first_free_run_id(m, project, cands, i) && (r matches Ok(d) && d@ == new_run_doc(cands[i], req)
                && m2 == m.insert(run_path_spec(project, cands[i]), EntryView::Run(d@)))
    }
}

/// Whether what a run drives exists; the matching not-found error if not.
fn check_target(store: &MemoryStore, project: &str, target: &RunTarget) -> (r: Result<()>)
    ensures
        store.files().contains_key(run_target_path(project@, target@)) ==> r is Ok,
        !store.files().contains_key(run_target_path(project@, target@)) ==> (r matches Err(e) && target_missing(target@, e)),
{
    match target {
        RunTarget::Roadmap(slug) => {
            if !store.file_exists(&roadmap_path(project, slug.as_str())) {
                return Err(Error::RoadmapNotFound(slug.clone()));
            }
        },
        RunTarget::Task(slug) => {
            if !store.file_exists(&task_path(project, slug.as_str())) {
                return Err(Error::TaskNotFound(slug.clone()));
            }
        },
    }
    Ok(())
}

/// Records a new open run with no units. Its id is the first free one among
/// the ids minted from the request's moment with each of `suffixes` in turn.
#[verifier::rlimit(30)]
pub fn create_run(store: &mut MemoryStore, req: CreateRun, suffixes: &Vec<u16>) -> (r: Result<Document<Run>>)
    ensures
        create_run_post(old(store).files(), req, suffixes@, r, final(store).files()),
{
    let ghost req0 = req;
    let CreateRun { project, driver, target, session_uuid, args, now } = req;
    if !store.file_exists(&project_md_path(project)) {
        return Err(Error::ProjectNotFound(owned(project)));
    }
    check_target(store, project, &target)?;
    let mut cands: Vec<String> = Vec::new();
    let mut i: usize = 0;
    while i < suffixes.len()
        invariant
            i <= suffixes.len(),
            cands.deep_view() == candidate_ids(now, suffixes@).take(i as int),
        decreases suffixes.len() - i,
    {
        let ghost c0 = cands.deep_view();
        let id = generate_review_id(now, suffixes[i]);
        cands.push(id);
        assert(cands.deep_view() =~= c0.push(review_id_spec(now, suffixes[i as int])));
        assert(candidate_ids(now, suffixes@).take(i + 1) =~= candidate_ids(now, suffixes@).take(i as int).push(review_id_spec(now, suffixes[i as int])));
        i = i + 1;
    }
    assert(candidate_ids(now, suffixes@).take(suffixes.len() as int) =~= candidate_ids(now, suffixes@));
    let ghost m = store.files();
    let ghost cv = cands.deep_view();
    let id = next_available_run_id(store, project, &cands)?;
    proof {
        assert(exists|k: int| first_free_run_id(m, project@, cv, k));
        let k = choose|k: int| first_free_run_id(m, project@, cv, k) && id@ == cv[k];
        assert(cv[k] == review_id_spec(now, suffixes@[k]));
        lemma_minted_id_single(now, suffixes@[k]);
        assert(single_component(id@));
    }
    let doc = Document {
        frontmatter: Run {
            id: id.clone(),
            project: owned(project),
            driver,
            target,
            session_uuid: non_empty_text(session_uuid),
            args: non_empty_text(args),
            status: RunStatus::Open,
            started: now,
            ended: None,
            stop_reason: None,
            units: Vec::new(),
        },
        body: String::new(),
    };
    assert(unit_views(doc.frontmatter.units@) =~= Seq::<RunUnitView>::empty());
    assert(doc@ == new_run_doc(id@, req0));
    let w = write_run(store, project, id.as_str(), &doc);
    assert(w is Ok);
    Ok(doc)
}

/// One run by id.
pub fn get_run(store: &MemoryStore, project: &str, run_id: &str) -> (r: Result<Document<Run>>)
    ensures
        !single_component(run_id@) || !store.files().contains_key(run_path_spec(project@, run_id@)) ==> (r matches Err(
            Error::RunNotFound(n),
        ) && n@ == run_id@),
        single_component(run_id@) && store.files().contains_key(run_path_spec(project@, run_id@)) ==> match run_at(
            store.files(),
            run_path_spec(project@, run_id@),
        ) {
            Some(d) => (r matches Ok(doc) && doc@ == d),
            None => (r matches Err(e) && e is FrontmatterParse),
        },
{
    load_run(store, project, run_id)
}

/// Whether the file `name` in a project's run directory is a run: a
/// markdown file.
pub open spec fn is_run_file(m: Files, project: Seq<char>, name: Seq<char>) -> bool {
    listed(m, runs_dir_spec(project), name, DirEntryKind::File) && is_suffix(md_ext(), name)
}

/// The id and document of the run file `name`.
pub open spec fn run_item(m: Files, project: Seq<char>, name: Seq<char>) -> (
    Seq<char>,
    DocView<RunView>,
) {
    (
        md_trimmed(name),
        run_at(m, run_path_spec(project, md_trimmed(name))).unwrap(),
    )
}

/// Whether every run file is named by a single-component id and holds a run
/// document.
pub open spec fn all_run_docs(
    m: Files,
    project: Seq<char>,
    names: Seq<Seq<char>>,
) -> bool {
    forall|i: int|
        0 <= i < names.len() ==> single_component(md_trimmed(names[i])) && (#[trigger] run_at(
            m,
            run_path_spec(project, md_trimmed(names[i])),
        )) is Some
}

/// Whether `names` lists the run files of a project, each once.
pub open spec fn run_files(
    m: Files,
    project: Seq<char>,
    names: Seq<Seq<char>>,
) -> bool {
    names.no_duplicates() && forall|x: Seq<char>|
        names.contains(x) <==> is_run_file(m, project, x)
}

/// The ids and documents of a list of runs.
pub open spec fn run_views(v: Seq<(String, Document<Run>)>) -> Seq<(Seq<char>, DocView<RunView>)> {
    v.map_values(|x: (String, Document<Run>)| (x.0@, x.1@))
}

/// Whether runs are in order of their ids.
pub open spec fn runs_by_id(v: Seq<(Seq<char>, DocView<RunView>)>) -> bool {
    forall|i: int, j: int| 0 <= i < j < v.len() ==> !seq_lt((#[trigger] v[j]).0, (#[trigger] v[i]).0)
}

/// Whether every run file of a project is named by a single-component id and
/// holds a run document.
pub open spec fn runs_ok(m: Files, project: Seq<char>) -> bool {
    forall|name: Seq<char>|
        is_run_file(m, project, name) ==> single_component(md_trimmed(name)) && (#[trigger] run_at(
            m,
            run_path_spec(project, md_trimmed(name)),
        )) is Some
}

/// Whether `x` is the slug and document of one of a project's run files.
pub open spec fn is_run_item(
    m: Files,
    project: Seq<char>,
    x: (Seq<char>, DocView<RunView>),
) -> bool {
    exists|name: Seq<char>|
        is_run_file(m, project, name) && #[trigger] run_item(m, project, name)
            == x
}

/// What a listing of a project's runs gives on a store: its runs ordered
/// by id, each with its id, each run file once.
pub open spec fn lists_runs(
    m: Files,
    project: Seq<char>,
    r: Result<Vec<(String, Document<Run>)>>,
) -> bool {
    &&& !m.contains_key(project_md_spec(project)) ==> (r matches Err(
        Error::ProjectNotFound(n),
    ) && n@ == project)
    &&& m.contains_key(project_md_spec(project)) && !runs_ok(m, project) ==> (
    r matches Err(e) && (e is RunNotFound || e is FrontmatterParse))
    &&& m.contains_key(project_md_spec(project)) && runs_ok(m, project) ==> (
    r matches Ok(v) && runs_by_id(run_views(v@)) && exists|names: Seq<Seq<char>>|
        run_files(m, project, names) && run_views(v@).to_multiset() == names.map_values(
            |n: Seq<char>| run_item(m, project, n),
        ).to_multiset())
}

/// The runs a listing returns are exactly the project's run items.
pub proof fn lemma_listed_runs(
    m: Files,
    project: Seq<char>,
    v: Seq<(Seq<char>, DocView<RunView>)>,
    names: Seq<Seq<char>>,
)
    requires
        run_files(m, project, names),
        v.to_multiset() == names.map_values(|n: Seq<char>| run_item(m, project, n)).to_multiset(),
    ensures
        forall|x: (Seq<char>, DocView<RunView>)| v.contains(x) <==> is_run_item(m, project, x),
{
    let f = |n: Seq<char>| run_item(m, project, n);
    let w = names.map_values(f);
    assert forall|x: (Seq<char>, DocView<RunView>)| v.contains(x) <==> is_run_item(m, project, x) by {
        vstd::seq_lib::to_multiset_contains(v, x);
        vstd::seq_lib::to_multiset_contains(w, x);
        if w.contains(x) {
            let k = choose|k: int| 0 <= k < w.len() && w[k] == x;
            assert(names.contains(names[k]));
            assert(run_item(m, project, names[k]) == x);
        }
        if is_run_item(m, project, x) {
            let name = choose|name: Seq<char>| is_run_file(m, project, name) && #[trigger] run_item(m, project, name) == x;
            assert(names.contains(name));
            let k = choose|k: int| 0 <= k < names.len() && names[k] == name;
            assert(w[k] == x);
        }
    }
}

fn insert_run_by_id(out: &mut Vec<(String, Document<Run>)>, x: (String, Document<Run>))
    requires
        runs_by_id(run_views(old(out)@)),
    ensures
        runs_by_id(run_views(final(out)@)),
        run_views(final(out)@).to_multiset() == run_views(old(out)@).to_multiset().insert(
            (x.0@, x.1@),
        ),
{
    let ghost o = run_views(out@);
    let ghost xv = (x.0@, x.1@);
    let mut p: usize = 0;
    let mut done = false;
    while p < out.len() && !done
        invariant
            p <= out.len(),
            o == run_views(out@),
            xv.0 == x.0@,
            forall|k: int| 0 <= k < p ==> !seq_lt(xv.0, (#[trigger] o[k]).0),
            done ==> p < out.len() && seq_lt(xv.0, o[p as int].0),
        decreases out.len() - p, if done { 0int } else { 1int },
    {
        assert(o[p as int] == (out[p as int].0@, out[p as int].1@));
        if str_lt(x.0.as_str(), out[p].0.as_str()) {
            done = true;
        } else {
            p = p + 1;
        }
    }
    out.insert(p, x);
    let ghost n = run_views(out@);
    assert(n =~= o.insert(p as int, xv));
    proof {
        vstd::seq_lib::to_multiset_insert(o, p as int, xv);
        assert forall|i: int, j: int| 0 <= i < j < n.len() implies !seq_lt((#[trigger] n[j]).0, (#[trigger] n[i]).0) by {
            if j < p {
                assert(n[i] == o[i] && n[j] == o[j]);
            } else if j == p {
                assert(n[i] == o[i]);
            } else if i == p {
                assert(n[j] == o[j - 1]);
                if seq_lt(o[j - 1].0, xv.0) {
                    if j - 1 > p {
                        assert(!seq_lt(o[j - 1].0, o[p as int].0));
                        lemma_seq_lt_trans(o[j - 1].0, xv.0, o[p as int].0);
                    } else {
                        lemma_seq_lt_asym(xv.0, o[p as int].0);
                    }
                }
            } else if i < p {
                assert(n[i] == o[i] && n[j] == o[j - 1]);
            } else {
                assert(n[i] == o[i - 1] && n[j] == o[j - 1]);
            }
        }
    }
}

/// The runs of a project ordered by id, each with its id.
pub fn list_runs(store: &MemoryStore, project: &str) -> (r: Result<
    Vec<(String, Document<Run>)>,
>)
    ensures
        lists_runs(store.files(), project@, r),
{
    if !store.file_exists(&project_md_path(project)) {
        return Err(Error::ProjectNotFound(owned(project)));
    }
    let dir = runs_dir(project);
    let entries = store.list(&dir);
    let ghost m = store.files();
    let ghost item = |n: Seq<char>| run_item(m, project@, n);
    let ghost mut names: Seq<Seq<char>> = Seq::empty();
    let mut out: Vec<(String, Document<Run>)> = Vec::new();
    let mut i: usize = 0;
    proof {
        reveal_strlit(".md");
        assert(".md"@ =~= md_ext());
    }
    assert(run_views(out@) =~= names.map_values(item));
    while i < entries.len()
        invariant
            i <= entries.len(),
            m == store.files(),
            m.contains_key(project_md_spec(project@)),
            item == (|n: Seq<char>| run_item(m, project@, n)),
            ".md"@ == md_ext(),
            forall|a: int| 0 <= a < entries.len() ==> listed(m, runs_dir_spec(project@), #[trigger] entries[a].name@, entries[a].kind),
            forall|a: int, b: int| 0 <= a < b < entries.len() ==> !(entries[a].name@ == entries[b].name@ && entries[a].kind == entries[b].kind),
            forall|n: Seq<char>, k: DirEntryKind| listed(m, runs_dir_spec(project@), n, k) ==> exists|a: int| 0 <= a < entries.len() && entries[a].name@ == n && entries[a].kind == k,
            names.no_duplicates(),
            forall|k: int| 0 <= k < names.len() ==> is_run_file(m, project@, #[trigger] names[k]),
            forall|k: int| 0 <= k < names.len() ==> exists|a: int| 0 <= a < i && entries[a].name@ == #[trigger] names[k] && entries[a].kind == DirEntryKind::File,
            forall|a: int| 0 <= a < i && is_run_file(m, project@, #[trigger] entries[a].name@) && entries[a].kind == DirEntryKind::File ==> names.contains(entries[a].name@),
            all_run_docs(m, project@, names),
            runs_by_id(run_views(out@)),
            run_views(out@).to_multiset() == names.map_values(item).to_multiset(),
        decreases entries.len() - i,
    {
        let name = entries[i].name.as_str();
        if entries[i].kind == DirEntryKind::File && ends_with(name, ".md") {
            let stem = md_trim(name);
            let ghost nm = entries[i as int].name@;
            assert(is_run_file(m, project@, nm));
            proof {
                if names.contains(nm) {
                    let k = choose|k: int| 0 <= k < names.len() && names[k] == nm;
                    let a = choose|a: int| 0 <= a < i && entries[a].name@ == names[k] && entries[a].kind == DirEntryKind::File;
                    assert(false);
                }
            }
            match load_run(store, project, stem) {
                Ok(doc) => {
                    let ghost old_names = names;
                    let ghost ov = run_views(out@);
                    proof {
                        names = names.push(nm);
                        assert(names.map_values(item) =~= old_names.map_values(item).push(item(nm)));
                        vstd::seq_lib::to_multiset_build(old_names.map_values(item), item(nm));
                        assert(item(nm) == (stem@, doc@));
                        assert forall|k: int| 0 <= k < names.len() implies single_component(md_trimmed(names[k])) && (#[trigger] run_at(m, run_path_spec(project@, md_trimmed(names[k])))) is Some by {
                            if k < old_names.len() {
                                assert(names[k] == old_names[k]);
                            }
                        }
                        assert forall|a: int, b: int| 0 <= a < b < names.len() implies names[a] != names[b] by {
                            if b == names.len() - 1 {
                                assert(names[a] == old_names[a]);
                                assert(old_names.contains(old_names[a]));
                            } else {
                                assert(names[a] == old_names[a] && names[b] == old_names[b]);
                            }
                        }
                        assert forall|k: int| 0 <= k < names.len() implies exists|a: int| 0 <= a < i + 1 && entries[a].name@ == #[trigger] names[k] && entries[a].kind == DirEntryKind::File by {
                            if k < old_names.len() {
                                assert(names[k] == old_names[k]);
                            } else {
                                assert(entries[i as int].name@ == names[k]);
                            }
                        }
                        assert forall|a: int| 0 <= a < i + 1 && is_run_file(m, project@, #[trigger] entries[a].name@) && entries[a].kind == DirEntryKind::File implies names.contains(entries[a].name@) by {
                            if a < i {
                                let k = choose|k: int| 0 <= k < old_names.len() && old_names[k] == entries[a].name@;
                                assert(names[k] == entries[a].name@);
                            } else {
                                assert(names[old_names.len() as int] == nm);
                            }
                        }
                    }
                    insert_run_by_id(&mut out, (owned(stem), doc));
                },
                Err(e) => {
                    assert(!single_component(md_trimmed(nm)) || run_at(m, run_path_spec(project@, md_trimmed(nm))) is None);
                    return Err(e);
                },
            }
        } else {
            proof {
                if entries[i as int].kind == DirEntryKind::File {
                    assert(!is_run_file(m, project@, entries[i as int].name@));
                }
            }
        }
        i = i + 1;
    }
    proof {
        assert forall|x: Seq<char>| names.contains(x) <==> is_run_file(m, project@, x) by {
            if is_run_file(m, project@, x) {
                let a = choose|a: int| 0 <= a < entries.len() && entries[a].name@ == x && entries[a].kind == DirEntryKind::File;
                assert(names.contains(entries[a].name@));
            }
            if names.contains(x) {
                let k = choose|k: int| 0 <= k < names.len() && names[k] == x;
                assert(is_run_file(m, project@, names[k]));
            }
        }
        assert(run_files(m, project@, names));
        assert forall|name: Seq<char>| is_run_file(m, project@, name) implies single_component(md_trimmed(name)) && (#[trigger] run_at(
            m,
            run_path_spec(project@, md_trimmed(name)),
        )) is Some by {
            assert(names.contains(name));
            let k = choose|k: int| 0 <= k < names.len() && names[k] == name;
            assert(single_component(md_trimmed(names[k])) && run_at(m, run_path_spec(project@, md_trimmed(names[k]))) is Some);
        }
    }
    Ok(out)
}

/// Which runs a listing keeps; each criterion that is set must hold.
#[derive(Debug, Clone, Default)]
pub struct RunFilter {
    /// Only runs driving exactly this roadmap.
    pub roadmap: Option<String>,
    /// Only runs driving exactly the task with this slug.
    pub task: Option<String>,
}

/// Whether run `r` passes filter `f`; runs are matched by the slug they
/// recorded, whether or not that item still exists.
pub open spec fn run_matches_spec(r: RunView, f: RunFilter) -> bool {
    &&& (f.roadmap matches Some(x) ==> r.target == RunTargetView::Roadmap(x@))
    &&& (f.task matches Some(t) ==> r.target == RunTargetView::Task(t@))
}

/// Whether `run` passes `filter`; see [`run_matches_spec`].
pub fn run_matches(run: &Run, filter: &RunFilter) -> (r: bool)
    ensures
        r == run_matches_spec(run@, *filter),
{
    let roadmap_ok = match &filter.roadmap {
        Some(x) => match run.target.roadmap() {
            Some(y) => str_eq(x.as_str(), y),
            None => false,
        },
        None => true,
    };
    let task_ok = match &filter.task {
        Some(t) => match run.target.task() {
            Some(y) => str_eq(t.as_str(), y),
            None => false,
        },
        None => true,
    };
    roadmap_ok && task_ok
}

/// The runs of `v` that pass `f`, in order.
pub open spec fn kept_runs(v: Seq<(Seq<char>, DocView<RunView>)>, f: RunFilter) -> Seq<(Seq<char>, DocView<RunView>)>
    decreases v.len(),
{
    if v.len() == 0 {
        Seq::empty()
    } else {
        let rest = kept_runs(v.drop_last(), f);
        if run_matches_spec(v.last().1.frontmatter, f) {
            rest.push(v.last())
        } else {
            rest
        }
    }
}

/// The runs that pass `filter`, in their order.
pub fn filter_runs(runs: Vec<(String, Document<Run>)>, filter: &RunFilter) -> (r: Vec<(String, Document<Run>)>)
    ensures
        run_views(r@) == kept_runs(run_views(runs@), *filter),
{
    let ghost all = run_views(runs@);
    let mut out: Vec<(String, Document<Run>)> = Vec::new();
    let mut i: usize = 0;
    while i < runs.len()
        invariant
            i <= runs.len(),
            all == run_views(runs@),
            run_views(out@) == kept_runs(all.take(i as int), *filter),
        decreases runs.len() - i,
    {
        assert(all.take(i + 1).drop_last() =~= all.take(i as int));
        assert(all.take(i + 1).last() == all[i as int]);
        assert(all[i as int] == (runs[i as int].0@, runs[i as int].1@));
        if run_matches(&runs[i].1.frontmatter, filter) {
            let ghost o = run_views(out@);
            let x = (runs[i].0.clone(), runs[i].1.duplicate());
            out.push(x);
            assert(run_views(out@) =~= o.push(all[i as int]));
        }
        i = i + 1;
    }
    assert(all.take(runs.len() as int) =~= all);
    out
}

/// Whether `i` is the first unit of `units` that has not ended.
pub open spec fn first_open_unit(units: Seq<RunUnitView>, i: int) -> bool {
    &&& 0 <= i < units.len()
    &&& units[i].ended is None
    &&& forall|k: int| 0 <= k < i ==> (#[trigger] units[k]).ended is Some
}

/// How many of `units` are for `unit`.
pub open spec fn attempts_of(units: Seq<RunUnitView>, unit: Seq<char>) -> nat
    decreases units.len(),
{
    if units.len() == 0 {
        0
    } else {
        attempts_of(units.drop_last(), unit) + if units.last().unit == unit {
            1nat
        } else {
            0nat
        }
    }
}

/// The attempt number of a unit with `prior` earlier entries: one more,
/// capped at the largest `u32`.
pub open spec fn next_attempt(prior: nat) -> u32 {
    if prior >= u32::MAX {
        u32::MAX
    } else {
        (prior + 1) as u32
    }
}

/// The run after unit `unit` starts at `now`: a new open entry at the end.
pub open spec fn unit_started(d: DocView<RunView>, unit: Seq<char>, now: Timestamp) -> DocView<RunView> {
    DocView {
        frontmatter: RunView {
            units: d.frontmatter.units.push(
                RunUnitView {
                    unit,
                    attempt: next_attempt(attempts_of(d.frontmatter.units, unit)),
                    started: now,
                    ended: None,
                    outcome: None,
                },
            ),
            ..d.frontmatter
        },
        ..d
    }
}

/// The run after its unit `i` ends at `now` with `outcome`.
pub open spec fn unit_ended(d: DocView<RunView>, i: int, outcome: Seq<char>, now: Timestamp) -> DocView<RunView> {
    DocView {
        frontmatter: RunView {
            units: d.frontmatter.units.update(
                i,
                RunUnitView { ended: Some(now), outcome: Some(outcome), ..d.frontmatter.units[i] },
            ),
            ..d.frontmatter
        },
        ..d
    }
}

/// The run after it ends at `now` with `status` and `reason`; its units are
/// left as they are.
pub open spec fn run_ended(d: DocView<RunView>, status: RunStatus, reason: Seq<char>, now: Timestamp) -> DocView<RunView> {
    DocView {
        frontmatter: RunView { status, ended: Some(now), stop_reason: Some(reason), ..d.frontmatter },
        ..d
    }
}

/// The open run stored under `id`, if there is one.
pub open spec fn open_run(m: Files, project: Seq<char>, id: Seq<char>) -> Option<DocView<RunView>> {
    if single_component(id) {
        match run_at(m, run_path_spec(project, id)) {
            Some(d) => if d.frontmatter.status.is_terminal_spec() {
                None
            } else {
                Some(d)
            },
            None => None,
        }
    } else {
        None
    }
}

/// How an operation on run `id` fails when there is no open run to work
/// on: no such run, no run document, or a run that has ended.
pub open spec fn open_run_failed<T>(m: Files, project: Seq<char>, id: Seq<char>, r: Result<T>) -> bool {
    let path = run_path_spec(project, id);
    &&& (!single_component(id) || !m.contains_key(path)) ==> (r matches Err(Error::RunNotFound(n)) && n@
        == id)
    &&& single_component(id) && m.contains_key(path) && run_at(m, path) is None ==> (r matches Err(e)
        && e is FrontmatterParse)
    &&& single_component(id) ==> match run_at(m, path) {
        Some(d) => d.frontmatter.status.is_terminal_spec() ==> (r matches Err(
            Error::RunNotOpen { run_id, status },
        ) && run_id@ == id && status == d.frontmatter.status),
        None => true,
    }
}

/// Whether run `id` was written as `d2` and `r` holds it.
pub open spec fn run_written(m: Files, project: Seq<char>, id: Seq<char>, d2: DocView<RunView>, r: Result<Document<Run>>, m2: Files) -> bool {
    r matches Ok(doc) && doc@ == d2 && m2 == m.insert(run_path_spec(project, id), EntryView::Run(d2))
}

fn load_open_run(store: &MemoryStore, project: &str, run_id: &str) -> (r: Result<Document<Run>>)
    ensures
        open_run_failed(store.files(), project@, run_id@, r),
        open_run(store.files(), project@, run_id@) matches Some(d) ==> (r matches Ok(doc) && doc@ == d),
{
    let doc = load_run(store, project, run_id)?;
    if doc.frontmatter.status.is_terminal() {
        return Err(Error::RunNotOpen { run_id: owned(run_id), status: doc.frontmatter.status });
    }
    Ok(doc)
}

/// The first unit that has not ended, if any.
fn find_open_unit(units: &Vec<RunUnit>) -> (r: Option<usize>)
    ensures
        r matches Some(i) ==> first_open_unit(unit_views(units@), i as int),
        r is None ==> forall|k: int| 0 <= k < units.len() ==> (#[trigger] unit_views(units@)[k]).ended is Some,
{
    let mut i: usize = 0;
    while i < units.len()
        invariant
            i <= units.len(),
            forall|k: int| 0 <= k < i ==> (#[trigger] unit_views(units@)[k]).ended is Some,
        decreases units.len() - i,
    {
        assert(unit_views(units@)[i as int] == units@[i as int]@);
        if !units[i].is_complete() {
            return Some(i);
        }
        i = i + 1;
    }
    None
}

/// How many of `units` are for `unit`.
fn count_attempts(units: &Vec<RunUnit>, unit: &str) -> (n: usize)
    ensures
        n == attempts_of(unit_views(units@), unit@),
{
    let ghost uv = unit_views(units@);
    let mut n: usize = 0;
    let mut i: usize = 0;
    while i < units.len()
        invariant
            i <= units.len(),
            uv == unit_views(units@),
            n == attempts_of(uv.take(i as int), unit@),
            n <= i,
        decreases units.len() - i,
    {
        assert(uv.take(i + 1).drop_last() =~= uv.take(i as int));
        assert(uv[i as int] == units@[i as int]@);
        if str_eq(units[i].unit.as_str(), unit) {
            n = n + 1;
        }
        i = i + 1;
    }
    assert(uv.take(units.len() as int) =~= uv);
    n
}

/// What resolving unit `unit` of run `id` against what it drives gives: on
/// a task run, the task's slug when `unit` is it; on a roadmap run, the stem
/// that `unit` resolves to, as everywhere else, when that phase exists.
pub open spec fn unit_resolved(m: Files, project: Seq<char>, id: Seq<char>, t: RunTargetView, unit: Seq<char>, res: Result<String>) -> bool {
    match t {
        RunTargetView::Task(tk) => if unit != tk {
            res matches Err(Error::RunUnitMismatch { run_id, unit: u, expected }) && run_id@ == id && u@ == unit
                && expected@ == tk
        } else {
            res matches Ok(x) && x@ == tk
        },
        RunTargetView::Roadmap(rm) => phase_unit_resolved(m, project, rm, unit, res),
    }
}

/// What resolving unit `unit` of a run on roadmap `rm` gives: the stem
/// that `unit` resolves to, as everywhere else, when that phase exists.
pub open spec fn phase_unit_resolved(m: Files, project: Seq<char>, rm: Seq<char>, unit: Seq<char>, res: Result<String>) -> bool {
    exists|rs: Result<String>|
        #[trigger] resolves_stem(m, project, rm, unit, rs) && match rs {
            Err(e) => res == Err::<String, Error>(e),
            Ok(stem) => if single_component(stem@) && m.contains_key(phase_path_spec(project, rm, stem@)) {
                res matches Ok(x) && x@ == stem@
            } else {
                res matches Err(Error::PhaseNotFound(n)) && n@ == unit
            },
        }
}

fn resolve_unit(store: &MemoryStore, project: &str, run_id: &str, target: &RunTarget, unit: &str) -> (r: Result<String>)
    ensures
        unit_resolved(store.files(), project@, run_id@, target@, unit@, r),
{
    match target {
        RunTarget::Roadmap(roadmap) => {
            let rs = resolve_phase_stem(store, project, roadmap.as_str(), unit);
            let ghost rsv = rs;
            assert(resolves_stem(store.files(), project@, roadmap@, unit@, rsv));
            let stem = match rs {
                Ok(s) => s,
                Err(e) => {
                    assert(phase_unit_resolved(store.files(), project@, roadmap@, unit@, Err::<String, Error>(e)));
                    return Err(e);
                },
            };
            if !is_single_component(stem.as_str()) || !store.file_exists(
                &phase_path(project, roadmap.as_str(), stem.as_str()),
            ) {
                return Err(Error::PhaseNotFound(owned(unit)));
            }
            Ok(stem)
        },
        RunTarget::Task(task) => {
            if !str_eq(unit, task.as_str()) {
                return Err(
                    Error::RunUnitMismatch { run_id: owned(run_id), unit: owned(unit), expected: task.clone() },
                );
            }
            Ok(task.clone())
        },
    }
}

/// What [`start_unit`] gives and leaves.
pub open spec fn start_unit_post(
    m: Files,
    project: Seq<char>,
    id: Seq<char>,
    unit: Seq<char>,
    now: Timestamp,
    r: Result<Document<Run>>,
    m2: Files,
) -> bool {
    &&& r is Err ==> m2 == m
    &&& open_run_failed(m, project, id, r)
    &&& open_run(m, project, id) matches Some(d) ==> {
        let units = d.frontmatter.units;
        if exists|i: int| first_open_unit(units, i) {
            exists|i: int|
                first_open_unit(units, i) && (r matches Err(
                    Error::RunUnitAlreadyOpen { run_id, unit: u, attempt },
                ) && run_id@ == id && u@ == units[i].unit && attempt == units[i].attempt)
        } else {
            exists|res: Result<String>|
                #[trigger] unit_resolved(m, project, id, d.frontmatter.target, unit, res) && match res {
                    Err(e) => r == Err::<Document<Run>, Error>(e),
                    Ok(s) => run_written(m, project, id, unit_started(d, s@, now), r, m2),
                }
        }
    }
}

/// Starts unit `unit` of an open run at `now`. On a roadmap run the unit is
/// a phase stem or number, resolved as everywhere else, and the phase must
/// exist; on a task run it must be the task's slug. The entry's attempt is
/// one more than the run's entries for that unit so far. Refused while
/// another unit is open.
pub fn start_unit(store: &mut MemoryStore, project: &str, run_id: &str, unit: &str, now: Timestamp) -> (r:
    Result<Document<Run>>)
    ensures
        start_unit_post(old(store).files(), project@, run_id@, unit@, now, r, final(store).files()),
{
    let ghost m = store.files();
    let mut doc = load_open_run(store, project, run_id)?;
    let ghost d = doc@;
    match find_open_unit(&doc.frontmatter.units) {
        Some(i) => {
            assert(unit_views(doc.frontmatter.units@)[i as int] == doc.frontmatter.units@[i as int]@);
            return Err(
                Error::RunUnitAlreadyOpen {
                    run_id: owned(run_id),
                    unit: doc.frontmatter.units[i].unit.clone(),
                    attempt: doc.frontmatter.units[i].attempt,
                },
            );
        },
        None => {},
    }
    assert(!exists|i: int| first_open_unit(d.frontmatter.units, i));
    let res = resolve_unit(store, project, run_id, &doc.frontmatter.target, unit);
    let ghost resv = res;
    assert(unit_resolved(m, project@, run_id@, d.frontmatter.target, unit@, resv));
    let resolved = match res {
        Ok(s) => s,
        Err(e) => {
            return Err(e);
        },
    };
    let prior = count_attempts(&doc.frontmatter.units, resolved.as_str());
    let attempt: u32 = if prior >= 4294967295 {
        4294967295
    } else {
        prior as u32 + 1
    };
    let ghost u0 = unit_views(doc.frontmatter.units@);
    let ghost rv = resolved@;
    doc.frontmatter.units.push(RunUnit { unit: resolved, attempt, started: now, ended: None, outcome: None });
    assert(unit_views(doc.frontmatter.units@) =~= u0.push(
        RunUnitView { unit: rv, attempt, started: now, ended: None, outcome: None },
    ));
    assert(doc@ == unit_started(d, rv, now));
    let w = write_run(store, project, run_id, &doc);
    assert(w is Ok);
    Ok(doc)
}

/// What [`end_unit`] gives and leaves.
pub open spec fn end_unit_post(
    m: Files,
    project: Seq<char>,
    id: Seq<char>,
    outcome: Seq<char>,
    now: Timestamp,
    r: Result<Document<Run>>,
    m2: Files,
) -> bool {
    &&& r is Err ==> m2 == m
    &&& open_run_failed(m, project, id, r)
    &&& open_run(m, project, id) matches Some(d) ==> {
        let units = d.frontmatter.units;
        if is_blank(outcome) {
            r matches Err(Error::RunOutcomeEmpty)
        } else if exists|i: int| first_open_unit(units, i) {
            exists|i: int|
                first_open_unit(units, i) && run_written(m, project, id, unit_ended(d, i, outcome, now), r, m2)
        } else {
            r matches Err(Error::RunNoOpenUnit(n)) && n@ == id
        }
    }
}

/// Ends the open unit of an open run at `now` with `outcome`, which must not
/// be blank.
pub fn end_unit(store: &mut MemoryStore, project: &str, run_id: &str, outcome: &str, now: Timestamp) -> (r:
    Result<Document<Run>>)
    ensures
        end_unit_post(old(store).files(), project@, run_id@, outcome@, now, r, final(store).files()),
{
    let mut doc = load_open_run(store, project, run_id)?;
    let ghost d = doc@;
    if blank(outcome) {
        return Err(Error::RunOutcomeEmpty);
    }
    let i = match find_open_unit(&doc.frontmatter.units) {
        Some(i) => i,
        None => {
            assert(!exists|i: int| first_open_unit(d.frontmatter.units, i));
            return Err(Error::RunNoOpenUnit(owned(run_id)));
        },
    };
    let ghost u0 = unit_views(doc.frontmatter.units@);
    let mut u = doc.frontmatter.units[i].duplicate();
    u.ended = Some(now);
    u.outcome = Some(owned(outcome));
    let ghost uv = u@;
    doc.frontmatter.units.set(i, u);
    assert(unit_views(doc.frontmatter.units@) =~= u0.update(i as int, uv));
    assert(doc@ == unit_ended(d, i as int, outcome@, now));
    let w = write_run(store, project, run_id, &doc);
    assert(w is Ok);
    Ok(doc)
}

/// How a run ends: closed by its driver, or abandoned.
#[derive(Debug, Clone, Copy, PartialEq, Eq, Structural)]
pub enum RunEnd {
    Closed,
    Abandoned,
}

/// The status a run ends with.
pub open spec fn end_status(end: RunEnd) -> RunStatus {
    match end {
        RunEnd::Closed => RunStatus::Closed,
        RunEnd::Abandoned => RunStatus::Abandoned,
    }
}

impl From<RunEnd> for RunStatus {
    fn from(end: RunEnd) -> (r: RunStatus) {
        match end {
            RunEnd::Closed => RunStatus::Closed,
            RunEnd::Abandoned => RunStatus::Abandoned,
        }
    }
}

impl vstd::std_specs::convert::FromSpecImpl<RunEnd> for RunStatus {
    open spec fn obeys_from_spec() -> bool {
        true
    }

    open spec fn from_spec(v: RunEnd) -> RunStatus {
        end_status(v)
    }
}

/// What [`close_run`] gives and leaves.
pub open spec fn close_run_post(
    m: Files,
    project: Seq<char>,
    id: Seq<char>,
    end: RunEnd,
    reason: Seq<char>,
    now: Timestamp,
    r: Result<Document<Run>>,
    m2: Files,
) -> bool {
    &&& r is Err ==> m2 == m
    &&& open_run_failed(m, project, id, r)
    &&& open_run(m, project, id) matches Some(d) ==> if is_blank(reason) {
        r matches Err(Error::RunStopReasonEmpty)
    } else {
        run_written(m, project, id, run_ended(d, end_status(end), reason, now), r, m2)
    }
}

/// Closes or abandons an open run at `now` with a stop reason, which must
/// not be blank. A unit still open is left as it is.
pub fn close_run(
    store: &mut MemoryStore,
    project: &str,
    run_id: &str,
    end: RunEnd,
    stop_reason: &str,
    now: Timestamp,
) -> (r: Result<Document<Run>>)
    ensures
        close_run_post(old(store).files(), project@, run_id@, end, stop_reason@, now, r, final(store).files()),
{
    let mut doc = load_open_run(store, project, run_id)?;
    let ghost d = doc@;
    if blank(stop_reason) {
        return Err(Error::RunStopReasonEmpty);
    }
    doc.frontmatter.status = RunStatus::from(end);
    doc.frontmatter.ended = Some(now);
    doc.frontmatter.stop_reason = Some(owned(stop_reason));
    assert(doc@ == run_ended(d, end_status(end), stop_reason@, now));
    let w = write_run(store, project, run_id, &doc);
    assert(w is Ok);
    Ok(doc)
}

/// Whether at most one unit of `units` is open.
pub open spec fn at_most_one_open(units: Seq<RunUnitView>) -> bool {
    forall|i: int, j: int|
        0 <= i < j < units.len() ==> (#[trigger] units[i]).ended is Some || (#[trigger] units[j]).ended is Some
}

/// A run never has two units open at once: a new run has no unit; a unit
/// is started only when none is open, and leaves just itself open; ending
/// the open unit of a run with at most one open leaves none open; closing
/// leaves the units as they are.
pub proof fn lemma_one_open_unit(
    d: DocView<RunView>,
    unit: Seq<char>,
    now: Timestamp,
    i: int,
    outcome: Seq<char>,
    status: RunStatus,
    reason: Seq<char>,
)
    ensures
        (forall|k: int| 0 <= k < d.frontmatter.units.len() ==> (#[trigger] d.frontmatter.units[k]).ended is Some)
            ==> at_most_one_open(unit_started(d, unit, now).frontmatter.units),
        at_most_one_open(d.frontmatter.units) && first_open_unit(d.frontmatter.units, i) ==> forall|k: int|
            0 <= k < d.frontmatter.units.len() ==> (#[trigger] unit_ended(d, i, outcome, now).frontmatter.units[k]).ended is Some,
        run_ended(d, status, reason, now).frontmatter.units == d.frontmatter.units,
{
    let u = d.frontmatter.units;
    let s = unit_started(d, unit, now).frontmatter.units;
    if forall|k: int| 0 <= k < u.len() ==> (#[trigger] u[k]).ended is Some {
        assert forall|a: int, b: int| 0 <= a < b < s.len() implies (#[trigger] s[a]).ended is Some || (#[trigger] s[b]).ended is Some by {
            assert(s[a] == u[a]);
        }
    }
    if at_most_one_open(u) && first_open_unit(u, i) {
        let e = unit_ended(d, i, outcome, now).frontmatter.units;
        assert forall|k: int| 0 <= k < u.len() implies (#[trigger] e[k]).ended is Some by {
            if k != i {
                assert(e[k] == u[k]);
                if k > i {
                    assert(u[i].ended is Some || u[k].ended is Some);
                }
            }
        }
    }
}

} // verus!
