//! The next phase to work on within one roadmap.
//!
//! Dependencies gate first: a dependency roadmap is met when it exists, has
//! phases, and every phase is done or won't be done. With every dependency
//! met, the first phase in number order that is not started or in progress
//! is the next one.
use vstd::prelude::*;

use crate::error::{Error, Result};
use crate::io::{load_roadmap, roadmap_at};
use crate::model::{DocView, Difficulty, ModelTier, Phase, PhaseStatus, PhaseView, Document, RoadmapView};
use crate::ops::phase::{list_phases, lists_phases, phase_views};
use crate::paths::roadmap_path_spec;
use crate::store::{Files, MemoryStore};
use crate::text::owned;

verus! {

/// A phase selected as the next one of a roadmap.
#[derive(Debug, Clone, PartialEq, Eq)]
pub struct NextPhase {
    /// The roadmap's slug.
    pub roadmap: String,
    /// The phase's number.
    pub number: u32,
    /// The phase's file stem.
    pub stem: String,
    /// Its status: not started or in progress.
    pub status: PhaseStatus,
    /// Its estimated difficulty, if assessed.
    pub difficulty: Option<Difficulty>,
    /// The model tier that should run it, if assigned.
    pub model: Option<ModelTier>,
}

/// Spec view of a [`NextPhase`].
pub struct NextPhaseView {
    pub roadmap: Seq<char>,
    pub number: u32,
    pub stem: Seq<char>,
    pub status: PhaseStatus,
    pub difficulty: Option<Difficulty>,
    pub model: Option<ModelTier>,
}

impl View for NextPhase {
    type V = NextPhaseView;

    open spec fn view(&self) -> NextPhaseView {
        NextPhaseView {
            roadmap: self.roadmap@,
            number: self.number,
            stem: self.stem@,
            status: self.status,
            difficulty: self.difficulty,
            model: self.model,
        }
    }
}

/// What the selection found.
#[derive(Debug, Clone, PartialEq, Eq)]
pub enum NextActionable {
    /// The next phase to work on.
    Phase(NextPhase),
    /// These dependency roadmaps, in declaration order, are not complete.
    BlockedOnDependencies { unmet: Vec<String> },
    /// Dependencies are met, but no phase is actionable.
    Nothing,
}

/// Whether a phase with this status can be worked on.
pub open spec fn actionable(s: PhaseStatus) -> bool {
    s == PhaseStatus::NotStarted || s == PhaseStatus::InProgress
}

/// Whether a listed roadmap is complete: it has phases and all of them are
/// terminal.
pub open spec fn complete(ps: Seq<(Seq<char>, DocView<PhaseView>)>) -> bool {
    ps.len() > 0 && forall|i: int| 0 <= i < ps.len() ==> (#[trigger] ps[i]).1.frontmatter.status.is_terminal_spec()
}

/// What checking dependency `dep` gives: a missing roadmap is unmet, a
/// listed one is met when complete, and a listing's error is passed on.
pub open spec fn dep_check(m: Files, project: Seq<char>, dep: Seq<char>, r: Result<bool>) -> bool {
    &&& !m.contains_key(roadmap_path_spec(project, dep)) ==> r == Ok::<bool, Error>(false)
    &&& m.contains_key(roadmap_path_spec(project, dep)) ==> exists|l: Result<Vec<(String, Document<Phase>)>>|
        #[trigger] lists_phases(m, project, dep, l) && match l {
            Ok(ps) => r == Ok::<bool, Error>(complete(phase_views(ps@))),
            Err(e) => r == Err::<bool, Error>(e),
        }
}

/// Whether `outs` are the outcomes of checking dependencies `deps` in order:
/// one per dependency, up to the first error, where checking stops.
pub open spec fn dep_outcomes(m: Files, project: Seq<char>, deps: Seq<Seq<char>>, outs: Seq<Result<bool>>) -> bool {
    &&& outs.len() <= deps.len()
    &&& forall|i: int| 0 <= i < outs.len() ==> #[trigger] dep_check(m, project, deps[i], outs[i])
    &&& outs.len() < deps.len() ==> outs.len() > 0 && outs.last() is Err
}

/// The unmet dependencies in order, as outcomes `outs` of checking `deps`
/// show them, or the first error among the outcomes.
pub open spec fn unmet_of(deps: Seq<Seq<char>>, outs: Seq<Result<bool>>) -> Result<Seq<Seq<char>>>
    decreases outs.len(),
{
    if outs.len() == 0 {
        Ok(Seq::empty())
    } else {
        match unmet_of(deps, outs.drop_last()) {
            Err(e) => Err(e),
            Ok(u) => match outs.last() {
                Err(e) => Err(e),
                Ok(met) => Ok(
                    if met {
                        u
                    } else {
                        u.push(deps[outs.len() - 1])
                    },
                ),
            },
        }
    }
}

/// The index of the first actionable phase of a listing, if any.
pub open spec fn first_actionable(ps: Seq<(Seq<char>, DocView<PhaseView>)>, i: int) -> bool {
    &&& 0 <= i < ps.len()
    &&& actionable(ps[i].1.frontmatter.status)
    &&& forall|k: int| 0 <= k < i ==> !actionable((#[trigger] ps[k]).1.frontmatter.status)
}

/// What the selection gives over roadmap `roadmap`'s listed phases `ps`.
pub open spec fn next_in(roadmap: Seq<char>, ps: Seq<(Seq<char>, DocView<PhaseView>)>, r: Result<NextActionable>) -> bool {
    &&& (exists|i: int| first_actionable(ps, i)) ==> exists|i: int|
        first_actionable(ps, i) && (r matches Ok(NextActionable::Phase(np)) && np@ == NextPhaseView {
            roadmap,
            number: ps[i].1.frontmatter.phase,
            stem: ps[i].0,
            status: ps[i].1.frontmatter.status,
            difficulty: ps[i].1.frontmatter.difficulty,
            model: ps[i].1.frontmatter.model,
        })
    &&& (forall|i: int| 0 <= i < ps.len() ==> !actionable((#[trigger] ps[i]).1.frontmatter.status))
        ==> r matches Ok(NextActionable::Nothing)
}

/// The dependencies a roadmap declares, in order.
pub open spec fn declared_deps(r: RoadmapView) -> Seq<Seq<char>> {
    match r.dependencies {
        Some(d) => d,
        None => Seq::empty(),
    }
}

/// What [`next_actionable`] gives on files `m`.
pub open spec fn next_actionable_post(m: Files, project: &str, roadmap: &str, r: Result<NextActionable>) -> bool {
    let rp = roadmap_path_spec(project@, roadmap@);
    &&& !m.contains_key(rp) ==> (r matches Err(Error::RoadmapNotFound(n)) && n@ == roadmap@)
    &&& m.contains_key(rp) && roadmap_at(m, rp) is None ==> (r matches Err(e) && e is FrontmatterParse)
    &&& m.contains_key(rp) && roadmap_at(m, rp) is Some ==> {
        let deps = declared_deps(roadmap_at(m, rp).unwrap().frontmatter);
        exists|outs: Seq<Result<bool>>|
            #[trigger] dep_outcomes(m, project@, deps, outs) && match unmet_of(deps, outs) {
                Err(e) => r == Err::<NextActionable, Error>(e),
                Ok(u) => if u.len() > 0 {
                    r matches Ok(NextActionable::BlockedOnDependencies { unmet }) && unmet.deep_view() == u
                } else {
                    exists|l: Result<Vec<(String, Document<Phase>)>>|
                        #[trigger] lists_phases(m, project@, roadmap@, l) && match l {
                            Err(e) => r == Err::<NextActionable, Error>(e),
                            Ok(ps) => next_in(roadmap@, phase_views(ps@), r),
                        }
                },
            }
    }
}

/// Whether every listed phase is terminal, and there is at least one.
pub(crate) fn is_complete(ps: &Vec<(String, Document<Phase>)>) -> (r: bool)
    ensures
        r == complete(phase_views(ps@)),
{
    let ghost pv = phase_views(ps@);
    if ps.len() == 0 {
        return false;
    }
    let mut i: usize = 0;
    while i < ps.len()
        invariant
            i <= ps.len(),
            pv == phase_views(ps@),
            forall|k: int| 0 <= k < i ==> (#[trigger] pv[k]).1.frontmatter.status.is_terminal_spec(),
        decreases ps.len() - i,
    {
        assert(pv[i as int] == (ps[i as int].0@, ps[i as int].1@));
        if !ps[i].1.frontmatter.status.is_terminal() {
            return false;
        }
        i = i + 1;
    }
    true
}

/// Whether dependency roadmap `dep` is complete; a missing one is not.
fn dependency_met(store: &MemoryStore, project: &str, dep: &str) -> (r: Result<bool>)
    ensures
        dep_check(store.files(), project@, dep@, r),
{
    let l = list_phases(store, project, dep);
    match l {
        Ok(ps) => {
            let c = is_complete(&ps);
            assert(lists_phases(store.files(), project@, dep@, Ok(ps)));
            Ok(c)
        },
        Err(Error::RoadmapNotFound(n)) => {
            assert(!store.files().contains_key(roadmap_path_spec(project@, dep@)));
            Ok(false)
        },
        Err(e) => {
            assert(lists_phases(store.files(), project@, dep@, Err(e)));
            Err(e)
        },
    }
}

/// The next phase to work on in `roadmap`, or the dependencies that block
/// it, or nothing. [`Error::RoadmapNotFound`] when the roadmap does not
/// exist; a missing dependency roadmap is never an error.
pub fn next_actionable(store: &MemoryStore, project: &str, roadmap: &str) -> (r: Result<NextActionable>)
    ensures
        next_actionable_post(store.files(), project, roadmap, r),
{
    let ghost m = store.files();
    let doc = load_roadmap(store, project, roadmap)?;
    let ghost deps = declared_deps(doc@.frontmatter);
    let mut unmet: Vec<String> = Vec::new();
    let ghost mut outs: Seq<Result<bool>> = Seq::empty();
    match &doc.frontmatter.dependencies {
        Some(ds) => {
            assert(ds.deep_view() == deps);
            assert(unmet.deep_view() =~= Seq::<Seq<char>>::empty());
            let mut i: usize = 0;
            while i < ds.len()
                invariant
                    i <= ds.len(),
                    m == store.files(),
                    m.contains_key(roadmap_path_spec(project@, roadmap@)),
                    roadmap_at(m, roadmap_path_spec(project@, roadmap@)) == Some(doc@),
                    deps == declared_deps(doc@.frontmatter),
                    ds.deep_view() == deps,
                    outs.len() == i,
                    forall|k: int| 0 <= k < i ==> #[trigger] dep_check(m, project@, deps[k], outs[k]),
                    unmet_of(deps, outs) == Ok::<Seq<Seq<char>>, Error>(unmet.deep_view()),
                decreases ds.len() - i,
            {
                let ghost u0 = unmet.deep_view();
                let met = dependency_met(store, project, ds[i].as_str());
                assert(deps[i as int] == ds[i as int]@);
                let ghost o0 = outs;
                proof {
                    outs = outs.push(met);
                    assert(outs.drop_last() =~= o0);
                }
                match met {
                    Ok(true) => {},
                    Ok(false) => {
                        unmet.push(ds[i].clone());
                        assert(unmet.deep_view() =~= u0.push(ds[i as int]@));
                    },
                    Err(e) => {
                        assert(dep_outcomes(m, project@, deps, outs));
                        assert(unmet_of(deps, outs) == Err::<Seq<Seq<char>>, Error>(e));
                        return Err(e);
                    },
                }
                i = i + 1;
            }
            assert(dep_outcomes(m, project@, deps, outs));
        },
        None => {
            assert(unmet.deep_view() =~= Seq::<Seq<char>>::empty());
            assert(dep_outcomes(m, project@, deps, outs));
        },
    }
    let ghost uv = unmet.deep_view();
    assert(dep_outcomes(m, project@, deps, outs) && unmet_of(deps, outs) == Ok::<Seq<Seq<char>>, Error>(uv));
    if unmet.len() > 0 {
        return Ok(NextActionable::BlockedOnDependencies { unmet });
    }
    assert(uv =~= Seq::<Seq<char>>::empty());
    let phases = match list_phases(store, project, roadmap) {
        Ok(p) => p,
        Err(e) => {
            assert(lists_phases(m, project@, roadmap@, Err(e)));
            return Err(e);
        },
    };
    assert(lists_phases(m, project@, roadmap@, Ok(phases)));
    let ghost pv = phase_views(phases@);
    let mut j: usize = 0;
    while j < phases.len()
        invariant
            j <= phases.len(),
            pv == phase_views(phases@),
            forall|k: int| 0 <= k < j ==> !actionable((#[trigger] pv[k]).1.frontmatter.status),
            m == store.files(),
            m.contains_key(roadmap_path_spec(project@, roadmap@)),
            roadmap_at(m, roadmap_path_spec(project@, roadmap@)) == Some(doc@),
            deps == declared_deps(doc@.frontmatter),
            dep_outcomes(m, project@, deps, outs),
            unmet_of(deps, outs) == Ok::<Seq<Seq<char>>, Error>(Seq::empty()),
            lists_phases(m, project@, roadmap@, Ok(phases)),
        decreases phases.len() - j,
    {
        assert(pv[j as int] == (phases[j as int].0@, phases[j as int].1@));
        let status = phases[j].1.frontmatter.status;
        if status == PhaseStatus::NotStarted || status == PhaseStatus::InProgress {
            let np = NextPhase {
                roadmap: owned(roadmap),
                number: phases[j].1.frontmatter.phase,
                stem: phases[j].0.clone(),
                status,
                difficulty: phases[j].1.frontmatter.difficulty,
                model: phases[j].1.frontmatter.model,
            };
            let r = Ok(NextActionable::Phase(np));
            proof {
                assert(first_actionable(pv, j as int));
                assert forall|i: int| first_actionable(pv, i) implies i == j by {
                    if i < j {
                        assert(!actionable(pv[i].1.frontmatter.status));
                    } else if i > j {
                        assert(!actionable(pv[j as int].1.frontmatter.status));
                    }
                }
                assert(next_in(roadmap@, pv, r));
            }
            return r;
        }
        j = j + 1;
    }
    Ok(NextActionable::Nothing)
}

/// Outcomes that leave no dependency unmet are all successes, each one met.
proof fn lemma_unmet_none(deps: Seq<Seq<char>>, outs: Seq<Result<bool>>)
    requires
        unmet_of(deps, outs) matches Ok(u) && u.len() == 0,
    ensures
        forall|i: int| 0 <= i < outs.len() ==> #[trigger] outs[i] == Ok::<bool, Error>(true),
    decreases outs.len(),
{
    if outs.len() > 0 {
        let p = outs.drop_last();
        match unmet_of(deps, p) {
            Ok(u0) => {
                if u0.len() == 0 {
                    lemma_unmet_none(deps, p);
                }
                assert forall|i: int| 0 <= i < outs.len() implies #[trigger] outs[i] == Ok::<bool, Error>(true) by {
                    if i < outs.len() - 1 {
                        assert(outs[i] == p[i]);
                    }
                }
            },
            Err(_) => {},
        }
    }
}

/// What [`next_actionable`] picks, stated over the files: a phase it names
/// is one of the roadmap's listed phases, not started or in progress, and
/// every phase listed before it is neither, so an in-progress phase is never
/// passed over; it names a phase, or says there is nothing to do, only when
/// every dependency the roadmap declares exists and has phases that are all
/// done or won't be done; and it says there is nothing to do only when no
/// listed phase is not started or in progress.
pub proof fn lemma_next_is_first_open_phase(m: Files, project: &str, roadmap: &str, r: Result<NextActionable>)
    requires
        next_actionable_post(m, project, roadmap, r),
    ensures
        r matches Ok(NextActionable::Phase(np)) ==> exists|v: Vec<(String, Document<Phase>)>, i: int|
            #![trigger lists_phases(m, project@, roadmap@, Ok::<Vec<(String, Document<Phase>)>, Error>(v)), v@[i]]
            lists_phases(m, project@, roadmap@, Ok::<Vec<(String, Document<Phase>)>, Error>(v)) && 0 <= i < v.len()
                && np.roadmap@ == roadmap@ && np.stem@ == v@[i].0@ && np.number == v@[i].1.frontmatter.phase
                && np.status == v@[i].1.frontmatter.status && np.difficulty == v@[i].1.frontmatter.difficulty
                && np.model == v@[i].1.frontmatter.model
                && (np.status == PhaseStatus::NotStarted || np.status == PhaseStatus::InProgress)
                && forall|k: int| 0 <= k < i ==> (#[trigger] v@[k]).1.frontmatter.status != PhaseStatus::NotStarted
                    && v@[k].1.frontmatter.status != PhaseStatus::InProgress,
        r matches Ok(NextActionable::Nothing) ==> exists|v: Vec<(String, Document<Phase>)>|
            #[trigger] lists_phases(m, project@, roadmap@, Ok::<Vec<(String, Document<Phase>)>, Error>(v))
                && forall|k: int| 0 <= k < v.len() ==> (#[trigger] v@[k]).1.frontmatter.status != PhaseStatus::NotStarted
                    && v@[k].1.frontmatter.status != PhaseStatus::InProgress,
        (r matches Ok(NextActionable::Phase(_)) || r matches Ok(NextActionable::Nothing)) ==> (roadmap_at(
            m,
            roadmap_path_spec(project@, roadmap@),
        ) matches Some(d) && forall|j: int| 0 <= j < declared_deps(d.frontmatter).len() ==> {
            let dep = #[trigger] declared_deps(d.frontmatter)[j];
            &&& m.contains_key(roadmap_path_spec(project@, dep))
            &&& exists|w: Vec<(String, Document<Phase>)>|
                #[trigger] lists_phases(m, project@, dep, Ok::<Vec<(String, Document<Phase>)>, Error>(w)) && w.len() > 0
                    && forall|q: int| 0 <= q < w.len() ==> ((#[trigger] w@[q]).1.frontmatter.status == PhaseStatus::Done
                        || w@[q].1.frontmatter.status == PhaseStatus::WontFix)
        }),
{
    let rp = roadmap_path_spec(project@, roadmap@);
    if r is Ok && m.contains_key(rp) && roadmap_at(m, rp) is Some {
        let d = roadmap_at(m, rp).unwrap();
        let deps = declared_deps(d.frontmatter);
        let outs = choose|outs: Seq<Result<bool>>| #[trigger] dep_outcomes(m, project@, deps, outs) && match unmet_of(deps, outs) {
            Err(e) => r == Err::<NextActionable, Error>(e),
            Ok(u) => if u.len() > 0 {
                r matches Ok(NextActionable::BlockedOnDependencies { unmet }) && unmet.deep_view() == u
            } else {
                exists|l: Result<Vec<(String, Document<Phase>)>>|
                    #[trigger] lists_phases(m, project@, roadmap@, l) && match l {
                        Err(e) => r == Err::<NextActionable, Error>(e),
                        Ok(ps) => next_in(roadmap@, phase_views(ps@), r),
                    }
            },
        };
        if unmet_of(deps, outs) matches Ok(u) && u.len() == 0 {
            lemma_unmet_none(deps, outs);
            if outs.len() < deps.len() {
                assert(outs.last() == outs[outs.len() - 1]);
            }
            assert forall|j: int| 0 <= j < deps.len() implies {
                let dep = #[trigger] deps[j];
                &&& m.contains_key(roadmap_path_spec(project@, dep))
                &&& exists|w: Vec<(String, Document<Phase>)>|
                    #[trigger] lists_phases(m, project@, dep, Ok::<Vec<(String, Document<Phase>)>, Error>(w)) && w.len() > 0
                        && forall|q: int| 0 <= q < w.len() ==> ((#[trigger] w@[q]).1.frontmatter.status == PhaseStatus::Done
                            || w@[q].1.frontmatter.status == PhaseStatus::WontFix)
            } by {
                assert(outs[j] == Ok::<bool, Error>(true));
                assert(dep_check(m, project@, deps[j], outs[j]));
                let l = choose|l: Result<Vec<(String, Document<Phase>)>>|
                    #[trigger] lists_phases(m, project@, deps[j], l) && match l {
                        Ok(ps) => outs[j] == Ok::<bool, Error>(complete(phase_views(ps@))),
                        Err(e) => outs[j] == Err::<bool, Error>(e),
                    };
                let w = l->Ok_0;
                let pv = phase_views(w@);
                assert forall|q: int| 0 <= q < w.len() implies ((#[trigger] w@[q]).1.frontmatter.status == PhaseStatus::Done
                    || w@[q].1.frontmatter.status == PhaseStatus::WontFix) by {
                    assert(pv[q].1.frontmatter.status.is_terminal_spec());
                }
            }
            let l = choose|l: Result<Vec<(String, Document<Phase>)>>|
                #[trigger] lists_phases(m, project@, roadmap@, l) && match l {
                    Err(e) => r == Err::<NextActionable, Error>(e),
                    Ok(ps) => next_in(roadmap@, phase_views(ps@), r),
                };
            if let Ok(v) = l {
                let pv = phase_views(v@);
                if exists|i: int| first_actionable(pv, i) {
                    let i = choose|i: int| first_actionable(pv, i) && (r matches Ok(NextActionable::Phase(np)) && np@ == NextPhaseView {
                        roadmap: roadmap@,
                        number: pv[i].1.frontmatter.phase,
                        stem: pv[i].0,
                        status: pv[i].1.frontmatter.status,
                        difficulty: pv[i].1.frontmatter.difficulty,
                        model: pv[i].1.frontmatter.model,
                    });
                    assert forall|k: int| 0 <= k < i implies (#[trigger] v@[k]).1.frontmatter.status != PhaseStatus::NotStarted
                        && v@[k].1.frontmatter.status != PhaseStatus::InProgress by {
                        assert(!actionable(pv[k].1.frontmatter.status));
                    }
                    assert(v@[i] == v@[i]);
                } else {
                    assert forall|k: int| 0 <= k < v.len() implies (#[trigger] v@[k]).1.frontmatter.status != PhaseStatus::NotStarted
                        && v@[k].1.frontmatter.status != PhaseStatus::InProgress by {
                        if actionable(pv[k].1.frontmatter.status) {
                            lemma_first_actionable_exists(pv, k);
                        }
                    }
                }
            }
        }
    }
}

/// A listing with an actionable phase has a first one.
proof fn lemma_first_actionable_exists(pv: Seq<(Seq<char>, DocView<PhaseView>)>, k: int)
    requires
        0 <= k < pv.len(),
        actionable(pv[k].1.frontmatter.status),
    ensures
        exists|i: int| first_actionable(pv, i),
    decreases k,
{
    if exists|j: int| 0 <= j < k && actionable((#[trigger] pv[j]).1.frontmatter.status) {
        let j = choose|j: int| 0 <= j < k && actionable((#[trigger] pv[j]).1.frontmatter.status);
        lemma_first_actionable_exists(pv, j);
    } else {
        assert(first_actionable(pv, k));
    }
}

/// What a successful reading of the outcomes holds: every outcome is a
/// success, and the unmet dependencies are those checked as not met.
proof fn lemma_unmet_members(deps: Seq<Seq<char>>, outs: Seq<Result<bool>>)
    requires
        outs.len() <= deps.len(),
        unmet_of(deps, outs) is Ok,
    ensures
        forall|i: int| 0 <= i < outs.len() ==> (#[trigger] outs[i]) is Ok,
        forall|x: Seq<char>| unmet_of(deps, outs)->Ok_0.contains(x) <==> exists|j: int|
            0 <= j < outs.len() && #[trigger] deps[j] == x && outs[j] == Ok::<bool, Error>(false),
    decreases outs.len(),
{
    if outs.len() > 0 {
        let p = outs.drop_last();
        lemma_unmet_members(deps, p);
        let u0 = unmet_of(deps, p)->Ok_0;
        let u = unmet_of(deps, outs)->Ok_0;
        let last = outs.len() - 1;
        assert(outs.last() == outs[last]);
        assert forall|i: int| 0 <= i < outs.len() implies (#[trigger] outs[i]) is Ok by {
            if i < last {
                assert(outs[i] == p[i]);
            }
        }
        assert forall|x: Seq<char>| u.contains(x) <==> exists|j: int|
            0 <= j < outs.len() && #[trigger] deps[j] == x && outs[j] == Ok::<bool, Error>(false) by {
            if u.contains(x) {
                let q = choose|q: int| 0 <= q < u.len() && u[q] == x;
                if q < u0.len() && (outs[last] == Ok::<bool, Error>(true) || q < u.len() - 1) {
                    assert(u0[q] == x);
                    assert(u0.contains(x));
                    let j = choose|j: int| 0 <= j < p.len() && #[trigger] deps[j] == x && p[j] == Ok::<bool, Error>(false);
                    assert(outs[j] == p[j]);
                } else {
                    assert(deps[last] == x);
                }
            }
            if exists|j: int| 0 <= j < outs.len() && #[trigger] deps[j] == x && outs[j] == Ok::<bool, Error>(false) {
                let j = choose|j: int| 0 <= j < outs.len() && #[trigger] deps[j] == x && outs[j] == Ok::<bool, Error>(false);
                if j < last {
                    assert(p[j] == outs[j]);
                    assert(u0.contains(x));
                    let q = choose|q: int| 0 <= q < u0.len() && u0[q] == x;
                    assert(u[q] == x);
                } else {
                    assert(u[u.len() - 1] == x);
                }
            }
        }
    }
}

/// Two listings of one roadmap's phases agree on whether it is complete.
proof fn lemma_complete_agrees(
    m: Files,
    project: Seq<char>,
    dep: Seq<char>,
    w1: Vec<(String, Document<Phase>)>,
    w2: Vec<(String, Document<Phase>)>,
)
    requires
        lists_phases(m, project, dep, Ok::<Vec<(String, Document<Phase>)>, Error>(w1)),
        lists_phases(m, project, dep, Ok::<Vec<(String, Document<Phase>)>, Error>(w2)),
    ensures
        complete(phase_views(w1@)) == complete(phase_views(w2@)),
{
    let a = phase_views(w1@);
    let b = phase_views(w2@);
    let n1 = choose|names: Seq<Seq<char>>| crate::ops::phase::phase_files(m, project, dep, names) && a.to_multiset()
        == names.map_values(|n: Seq<char>| crate::ops::phase::phase_item(m, project, dep, n)).to_multiset();
    let n2 = choose|names: Seq<Seq<char>>| crate::ops::phase::phase_files(m, project, dep, names) && b.to_multiset()
        == names.map_values(|n: Seq<char>| crate::ops::phase::phase_item(m, project, dep, n)).to_multiset();
    crate::ops::phase::lemma_listed_phases(m, project, dep, a, n1);
    crate::ops::phase::lemma_listed_phases(m, project, dep, b, n2);
    assert forall|x: (Seq<char>, DocView<PhaseView>)| a.contains(x) <==> b.contains(x) by {}
    if complete(a) {
        assert(a.contains(a[0]));
        assert(b.contains(a[0]));
        assert forall|i: int| 0 <= i < b.len() implies (#[trigger] b[i]).1.frontmatter.status.is_terminal_spec() by {
            assert(b.contains(b[i]));
            let k = choose|k: int| 0 <= k < a.len() && a[k] == b[i];
        }
    }
    if complete(b) {
        assert(b.contains(b[0]));
        assert(a.contains(b[0]));
        assert forall|i: int| 0 <= i < a.len() implies (#[trigger] a[i]).1.frontmatter.status.is_terminal_spec() by {
            assert(a.contains(a[i]));
            let k = choose|k: int| 0 <= k < b.len() && b[k] == a[i];
        }
    }
}

/// When [`next_actionable`] reports the roadmap blocked, it names at least
/// one dependency, and it names a declared dependency exactly when that
/// roadmap is missing or is not complete: it has no phases, or one of its
/// phases is neither done nor won't be done.
pub proof fn lemma_blocked_names_the_unmet_dependencies(m: Files, project: &str, roadmap: &str, r: Result<NextActionable>)
    requires
        next_actionable_post(m, project, roadmap, r),
    ensures
        r matches Ok(NextActionable::BlockedOnDependencies { unmet }) ==> unmet.len() > 0,
        roadmap_at(m, roadmap_path_spec(project@, roadmap@)) matches Some(d) ==> (r matches Ok(
            NextActionable::BlockedOnDependencies { unmet },
        ) ==> forall|x: Seq<char>|
            unmet.deep_view().contains(x) <==> (declared_deps(d.frontmatter).contains(x) && !(m.contains_key(
                roadmap_path_spec(project@, x),
            ) && exists|w: Vec<(String, Document<Phase>)>|
                #[trigger] lists_phases(m, project@, x, Ok::<Vec<(String, Document<Phase>)>, Error>(w)) && w.len() > 0
                    && forall|q: int| 0 <= q < w.len() ==> ((#[trigger] w@[q]).1.frontmatter.status == PhaseStatus::Done
                        || w@[q].1.frontmatter.status == PhaseStatus::WontFix)))),
{
    let rp = roadmap_path_spec(project@, roadmap@);
    if r matches Ok(NextActionable::BlockedOnDependencies { unmet }) {
        let unmet = r->Ok_0->unmet;
        let d = roadmap_at(m, rp).unwrap();
        let deps = declared_deps(d.frontmatter);
        let outs = choose|outs: Seq<Result<bool>>| #[trigger] dep_outcomes(m, project@, deps, outs) && match unmet_of(deps, outs) {
            Err(e) => r == Err::<NextActionable, Error>(e),
            Ok(u) => if u.len() > 0 {
                r matches Ok(NextActionable::BlockedOnDependencies { unmet }) && unmet.deep_view() == u
            } else {
                exists|l: Result<Vec<(String, Document<Phase>)>>|
                    #[trigger] lists_phases(m, project@, roadmap@, l) && match l {
                        Err(e) => r == Err::<NextActionable, Error>(e),
                        Ok(ps) => next_in(roadmap@, phase_views(ps@), r),
                    }
            },
        };
        lemma_unmet_members(deps, outs);
        if outs.len() < deps.len() {
            assert(outs.last() == outs[outs.len() - 1]);
        }
        let u = unmet_of(deps, outs)->Ok_0;
        if u.len() == 0 {
            let l = choose|l: Result<Vec<(String, Document<Phase>)>>|
                #[trigger] lists_phases(m, project@, roadmap@, l) && match l {
                    Err(e) => r == Err::<NextActionable, Error>(e),
                    Ok(ps) => next_in(roadmap@, phase_views(ps@), r),
                };
            if let Ok(ps) = l {
                let pv = phase_views(ps@);
                if !(exists|i: int| first_actionable(pv, i)) {
                    assert forall|i: int| 0 <= i < pv.len() implies !actionable((#[trigger] pv[i]).1.frontmatter.status) by {
                        if actionable(pv[i].1.frontmatter.status) {
                            lemma_first_actionable_exists(pv, i);
                        }
                    }
                }
            }
            assert(false);
        }
        assert(unmet.deep_view() == u);
        assert forall|x: Seq<char>| unmet.deep_view().contains(x) <==> (deps.contains(x) && !(m.contains_key(
            roadmap_path_spec(project@, x),
        ) && exists|w: Vec<(String, Document<Phase>)>|
            #[trigger] lists_phases(m, project@, x, Ok::<Vec<(String, Document<Phase>)>, Error>(w)) && w.len() > 0
                && forall|q: int| 0 <= q < w.len() ==> ((#[trigger] w@[q]).1.frontmatter.status == PhaseStatus::Done
                    || w@[q].1.frontmatter.status == PhaseStatus::WontFix))) by {
            if deps.contains(x) {
                let j = choose|j: int| 0 <= j < deps.len() && deps[j] == x;
                assert(dep_check(m, project@, deps[j], outs[j]));
                let met = m.contains_key(roadmap_path_spec(project@, x)) && exists|w: Vec<(String, Document<Phase>)>|
                    #[trigger] lists_phases(m, project@, x, Ok::<Vec<(String, Document<Phase>)>, Error>(w)) && w.len() > 0
                        && forall|q: int| 0 <= q < w.len() ==> ((#[trigger] w@[q]).1.frontmatter.status == PhaseStatus::Done
                            || w@[q].1.frontmatter.status == PhaseStatus::WontFix);
                if m.contains_key(roadmap_path_spec(project@, x)) {
                    let l = choose|l: Result<Vec<(String, Document<Phase>)>>|
                        #[trigger] lists_phases(m, project@, deps[j], l) && match l {
                            Ok(ps) => outs[j] == Ok::<bool, Error>(complete(phase_views(ps@))),
                            Err(e) => outs[j] == Err::<bool, Error>(e),
                        };
                    let w0 = l->Ok_0;
                    if met {
                        let w = choose|w: Vec<(String, Document<Phase>)>|
                            #[trigger] lists_phases(m, project@, x, Ok::<Vec<(String, Document<Phase>)>, Error>(w)) && w.len() > 0
                                && forall|q: int| 0 <= q < w.len() ==> ((#[trigger] w@[q]).1.frontmatter.status == PhaseStatus::Done
                                    || w@[q].1.frontmatter.status == PhaseStatus::WontFix);
                        lemma_complete_agrees(m, project@, x, w, w0);
                        assert forall|i: int| 0 <= i < phase_views(w@).len() implies (#[trigger] phase_views(w@)[i]).1.frontmatter.status.is_terminal_spec() by {
                            assert(phase_views(w@)[i].1 == w@[i].1@);
                        }
                        assert(complete(phase_views(w@)));
                        assert(outs[j] == Ok::<bool, Error>(true));
                        assert forall|k: int| 0 <= k < outs.len() && #[trigger] deps[k] == x implies outs[k] != Ok::<bool, Error>(false) by {
                            assert(dep_check(m, project@, deps[k], outs[k]));
                            let lk = choose|lk: Result<Vec<(String, Document<Phase>)>>|
                                #[trigger] lists_phases(m, project@, deps[k], lk) && match lk {
                                    Ok(ps) => outs[k] == Ok::<bool, Error>(complete(phase_views(ps@))),
                                    Err(e) => outs[k] == Err::<bool, Error>(e),
                                };
                            lemma_complete_agrees(m, project@, x, w, lk->Ok_0);
                        }
                    } else {
                        assert(outs[j] is Ok);
                        if outs[j] == Ok::<bool, Error>(true) {
                            assert(complete(phase_views(w0@)));
                            assert forall|q: int| 0 <= q < w0.len() implies ((#[trigger] w0@[q]).1.frontmatter.status == PhaseStatus::Done
                                || w0@[q].1.frontmatter.status == PhaseStatus::WontFix) by {
                                assert(phase_views(w0@)[q].1 == w0@[q].1@);
                                assert(phase_views(w0@)[q].1.frontmatter.status.is_terminal_spec());
                            }
                            assert(phase_views(w0@).len() == w0.len());
                        }
                    }
                } else {
                    assert(outs[j] == Ok::<bool, Error>(false));
                }
            }
            if unmet.deep_view().contains(x) {
                let j = choose|j: int| 0 <= j < outs.len() && #[trigger] deps[j] == x && outs[j] == Ok::<bool, Error>(false);
                assert(outs.len() <= deps.len());
                assert(deps.contains(deps[j]));
                if m.contains_key(roadmap_path_spec(project@, x)) {
                    assert(dep_check(m, project@, deps[j], outs[j]));
                    let l = choose|l: Result<Vec<(String, Document<Phase>)>>|
                        #[trigger] lists_phases(m, project@, deps[j], l) && match l {
                            Ok(ps) => outs[j] == Ok::<bool, Error>(complete(phase_views(ps@))),
                            Err(e) => outs[j] == Err::<bool, Error>(e),
                        };
                    let w0 = l->Ok_0;
                    if exists|w: Vec<(String, Document<Phase>)>|
                        #[trigger] lists_phases(m, project@, x, Ok::<Vec<(String, Document<Phase>)>, Error>(w)) && w.len() > 0
                            && forall|q: int| 0 <= q < w.len() ==> ((#[trigger] w@[q]).1.frontmatter.status == PhaseStatus::Done
                                || w@[q].1.frontmatter.status == PhaseStatus::WontFix) {
                        let w = choose|w: Vec<(String, Document<Phase>)>|
                            #[trigger] lists_phases(m, project@, x, Ok::<Vec<(String, Document<Phase>)>, Error>(w)) && w.len() > 0
                                && forall|q: int| 0 <= q < w.len() ==> ((#[trigger] w@[q]).1.frontmatter.status == PhaseStatus::Done
                                    || w@[q].1.frontmatter.status == PhaseStatus::WontFix);
                        lemma_complete_agrees(m, project@, x, w, w0);
                        assert forall|i: int| 0 <= i < phase_views(w@).len() implies (#[trigger] phase_views(w@)[i]).1.frontmatter.status.is_terminal_spec() by {
                            assert(phase_views(w@)[i].1 == w@[i].1@);
                        }
                    }
                }
            }
        }
    }
}

} // verus!
