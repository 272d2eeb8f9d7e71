//! The guard on the write that marks an item `reviewed`: its configuration
//! and the decisions it reaches.
//!
//! A disabled gate never applies; an enforcing one may carry an operator's
//! bypass of its record preconditions, with a reason and an actor.
use vstd::prelude::*;

use crate::error::{message_spec, Error, Result};
use crate::link::ItemRef;
use crate::model::{copy_opt_string, copy_strings, Date, Document, PlanStatus};
use crate::ops::plan::{filter_plans, list_plans, lists_plans, plan_views, plans_filtered, PlanFilter};
use crate::store::{Files, MemoryStore};
use crate::text::{is_blank, owned};

verus! {

/// An operator's request to bypass the guard's record preconditions.
#[derive(Debug, Clone, Copy)]
pub struct GateOverrideRequest<'a> {
    /// Why the guard is bypassed.
    pub reason: &'a str,
    /// Who bypasses it.
    pub actor: &'a str,
}

/// A bypass as it is recorded on the item.
#[derive(Debug, Clone, PartialEq, Eq)]
pub struct GateOverride {
    /// Why the guard was bypassed.
    pub reason: String,
    /// Who bypassed it.
    pub actor: String,
    /// When.
    pub at: Date,
}

/// The guard configuration one status write is checked against.
#[derive(Debug)]
pub struct ReviewedGate<'a> {
    enabled: bool,
    over: Option<GateOverrideRequest<'a>>,
}

impl<'a> ReviewedGate<'a> {
    /// Whether the guard enforces its preconditions.
    pub closed spec fn enabled_spec(self) -> bool {
        self.enabled
    }

    /// The operator's bypass, if one was attached: its reason and actor.
    pub closed spec fn override_spec(self) -> Option<(Seq<char>, Seq<char>)> {
        match self.over {
            Some(o) => Some((o.reason@, o.actor@)),
            None => None,
        }
    }

    /// A gate that never fires.
    pub fn disabled() -> (r: ReviewedGate<'a>)
        ensures
            !r.enabled_spec(),
            r.override_spec() is None,
    {
        ReviewedGate { enabled: false, over: None }
    }

    /// A gate that enforces its preconditions.
    pub fn enforcing() -> (r: ReviewedGate<'a>)
        ensures
            r.enabled_spec(),
            r.override_spec() is None,
    {
        ReviewedGate { enabled: true, over: None }
    }

    /// The same gate with an operator bypass attached.
    pub fn with_override(self, reason: &'a str, actor: &'a str) -> (r: ReviewedGate<'a>)
        ensures
            r.enabled_spec() == self.enabled_spec(),
            r.override_spec() == Some((reason@, actor@)),
    {
        let mut g = self;
        g.over = Some(GateOverrideRequest { reason, actor });
        g
    }

    /// Whether an operator bypass was requested.
    pub fn has_override(&self) -> (r: bool)
        ensures
            r == self.override_spec() is Some,
    {
        self.over.is_some()
    }

    /// Whether the guard is enforcing at all.
    pub fn is_enabled(&self) -> (r: bool)
        ensures
            r == self.enabled_spec(),
    {
        self.enabled
    }
}

/// What the guard concluded about one `reviewed` write.
#[derive(Debug, Clone, PartialEq, Eq)]
pub enum GateDecision {
    /// The guard did not apply: it is disabled, or the write is not a
    /// transition to `reviewed`.
    NotApplicable,
    /// Every precondition held, through this approved plan and approving
    /// change review.
    Satisfied { plan: String, review_id: String },
    /// An operator bypassed the record preconditions.
    Overridden(GateOverride),
}

/// A worktree as the probe observed it.
#[derive(Debug, Clone)]
pub struct WorktreeCheck {
    /// Where the worktree is.
    pub path: String,
    /// The commit checked out there, when it could be read.
    pub head: Option<String>,
    /// The paths with uncommitted changes.
    pub dirty: Vec<String>,
    /// Whether `dirty` was cut short.
    pub truncated: bool,
    /// Whether its status could be read at all.
    pub observable: bool,
}

impl WorktreeCheck {
    /// Whether the worktree could be read and has no uncommitted change.
    pub open spec fn is_clean_spec(&self) -> bool {
        self.observable && self.dirty@.len() == 0
    }

    /// Whether the worktree could be read and has no uncommitted change.
    pub fn is_clean(&self) -> (r: bool)
        ensures
            r == self.is_clean_spec(),
    {
        self.observable && self.dirty.len() == 0
    }
}

/// An optional string as plain text.
pub open spec fn opt_text(o: Option<String>) -> Option<Seq<char>> {
    match o {
        Some(x) => Some(x@),
        None => None,
    }
}

/// The head of the checkout that was observed: `None` when nothing was
/// observed (no probe, a probe error, or no worktree for the item).
pub open spec fn observed_head(o: Option<Result<Option<WorktreeCheck>>>) -> Option<Option<Seq<char>>> {
    match o {
        Some(Ok(Some(c))) => Some(opt_text(c.head)),
        _ => None,
    }
}

/// Whether a review recorded at `head` (none for a review that is not of a
/// change) is accepted against what was observed: always when nothing was
/// observed, and otherwise when it was recorded at the observed head.
pub open spec fn review_accepted(obs: Option<Option<Seq<char>>>, head: Option<Seq<char>>) -> bool {
    match obs {
        None => true,
        Some(h) => head matches Some(x) && h == Some(x),
    }
}

/// Whether a change review is refused only for being recorded at another
/// head than the observed one.
pub open spec fn review_stale(obs: Option<Option<Seq<char>>>, head: Option<Seq<char>>) -> bool {
    obs matches Some(h) && head matches Some(x) && h != Some(x)
}

/// The candidate records as plain text: plan, review id, recorded head.
pub open spec fn cand_views(v: Seq<(String, String, Option<String>)>) -> Seq<(Seq<char>, Seq<char>, Option<Seq<char>>)> {
    v.map_values(|c: (String, String, Option<String>)| (c.0@, c.1@, opt_text(c.2)))
}

/// Whether the observed worktree passes the cleanliness precondition: it
/// does when nothing was probed or no worktree is known, and fails on a
/// probe error.
pub open spec fn worktree_clean(o: Option<Result<Option<WorktreeCheck>>>) -> bool {
    match o {
        None => true,
        Some(Ok(None)) => true,
        Some(Ok(Some(c))) => c.is_clean_spec(),
        Some(Err(_)) => false,
    }
}

/// Whether `r` is the refusal the cleanliness precondition gives on `o`.
pub open spec fn worktree_refusal(o: Option<Result<Option<WorktreeCheck>>>, label: Seq<char>, r: Result<GateDecision>) -> bool {
    match o {
        Some(Ok(Some(c))) => if !c.observable {
            r matches Err(Error::GateWorktreeUnobservable { item, cause }) && item@ == label
                && cause@ == "unreadable `git status --porcelain` output for "@ + c.path@
        } else {
            r matches Err(Error::GateWorktreeDirty { path, paths, truncated }) && path@ == c.path@
                && paths.deep_view() == c.dirty.deep_view() && truncated == c.truncated
        },
        Some(Err(e)) => r matches Err(Error::GateWorktreeUnobservable { item, cause }) && item@ == label
            && cause@ == message_spec(e),
        _ => true,
    }
}

/// What the guard decides, checking in a fixed order: an override on a
/// guard that is not enforcing is refused, and an override without a reason
/// too; then, unless overridden, (a) some approved plan implements the item,
/// (b) some approving change review of those plans (the candidates, plan by
/// plan) is accepted against the observed checkout, the first one winning,
/// and a refusal naming the first review recorded at another head when
/// none is; then (c) the worktree is clean, which no override waives.
pub open spec fn gate_result(
    enabled: bool,
    over: Option<(Seq<char>, Seq<char>)>,
    label: Seq<char>,
    approved: Seq<Seq<char>>,
    cands: Seq<(Seq<char>, Seq<char>, Option<Seq<char>>)>,
    observed: Option<Result<Option<WorktreeCheck>>>,
    today: Date,
    r: Result<GateDecision>,
) -> bool {
    let h = observed_head(observed);
    if !enabled {
        if over is Some {
            r matches Err(Error::GateOverrideGateDisabled)
        } else {
            r matches Ok(GateDecision::NotApplicable)
        }
    } else if over matches Some(o) && is_blank(o.0) {
        r matches Err(Error::GateOverrideEmptyReason)
    } else if over is None && approved.len() == 0 {
        r matches Err(Error::GateNoApprovedPlan(n)) && n@ == label
    } else if over is None && !(exists|i: int| 0 <= i < cands.len() && #[trigger] review_accepted(h, cands[i].2)) {
        if exists|i: int| 0 <= i < cands.len() && #[trigger] review_stale(h, cands[i].2) {
            exists|i: int|
                0 <= i < cands.len() && #[trigger] review_stale(h, cands[i].2) && (forall|j: int|
                    0 <= j < i ==> !#[trigger] review_stale(h, cands[j].2)) && (r matches Err(
                    Error::GateStaleChangeReview { item, review_id, reviewed_head, observed_head },
                ) && item@ == label && review_id@ == cands[i].1 && Some(reviewed_head@) == cands[i].2
                    && Some(opt_text(observed_head)) == h)
        } else {
            r matches Err(Error::GateNoApprovedChangeReview { item, plans }) && item@ == label
                && plans.deep_view() == approved
        }
    } else if !worktree_clean(observed) {
        worktree_refusal(observed, label, r)
    } else {
        match over {
            Some(o) => r matches Ok(GateDecision::Overridden(g)) && g.reason@ == o.0 && g.actor@ == o.1
                && g.at == today,
            None => exists|i: int|
                0 <= i < cands.len() && #[trigger] review_accepted(h, cands[i].2) && (forall|j: int|
                    0 <= j < i ==> !#[trigger] review_accepted(h, cands[j].2)) && (r matches Ok(
                    GateDecision::Satisfied { plan, review_id },
                ) && plan@ == cands[i].0 && review_id@ == cands[i].1),
        }
    }
}

/// Decides the guard on one `reviewed` write from its configuration, the
/// approved plans implementing the item, the approving change reviews of
/// those plans (plan by plan, each as plan, review id and recorded head),
/// and what the worktree probe observed.
pub fn gate_decide(
    enabled: bool,
    over: Option<(&str, &str)>,
    label: &str,
    approved: &Vec<String>,
    cands: &Vec<(String, String, Option<String>)>,
    observed: &Option<Result<Option<WorktreeCheck>>>,
    today: Date,
) -> (r: Result<GateDecision>)
    ensures
        gate_result(enabled, match over {
            Some(o) => Some((o.0@, o.1@)),
            None => None,
        }, label@, approved.deep_view(), cand_views(cands@), *observed, today, r),
{
    let ghost cv = cand_views(cands@);
    let ghost h = observed_head(*observed);
    if !enabled {
        if over.is_some() {
            return Err(Error::GateOverrideGateDisabled);
        }
        return Ok(GateDecision::NotApplicable);
    }
    match over {
        Some((reason, _)) => {
            if crate::text::blank(reason) {
                return Err(Error::GateOverrideEmptyReason);
            }
        },
        None => {},
    }
    let head_obs: Option<Option<String>> = match observed {
        Some(Ok(Some(c))) => Some(copy_opt_string(&c.head)),
        _ => None,
    };
    assert(match head_obs {
        Some(x) => h == Some(opt_text(x)),
        None => h is None,
    });
    let mut sat: Option<(String, String)> = None;
    if over.is_none() {
        if approved.len() == 0 {
            return Err(Error::GateNoApprovedPlan(owned(label)));
        }
        let mut i: usize = 0;
        let mut found = false;
        let mut stale_at: Option<usize> = None;
        while i < cands.len() && !found
            invariant
                i <= cands.len(),
                cv == cand_views(cands@),
                cv.len() == cands.len(),
                match head_obs {
                    Some(x) => h == Some(opt_text(x)),
                    None => h is None,
                },
                forall|j: int| 0 <= j < i ==> !#[trigger] review_accepted(h, cv[j].2),
                found ==> i < cands.len() && review_accepted(h, cv[i as int].2),
                match stale_at {
                    Some(k) => k < i && review_stale(h, cv[k as int].2) && forall|j: int|
                        0 <= j < k ==> !#[trigger] review_stale(h, cv[j].2),
                    None => forall|j: int| 0 <= j < i ==> !#[trigger] review_stale(h, cv[j].2),
                },
            decreases cands.len() - i, if found { 0int } else { 1int },
        {
            assert(cv[i as int] == (cands[i as int].0@, cands[i as int].1@, opt_text(cands[i as int].2)));
            let ok = match &head_obs {
                None => true,
                Some(oh) => match &cands[i].2 {
                    Some(x) => match oh {
                        Some(y) => crate::text::str_eq(y.as_str(), x.as_str()),
                        None => false,
                    },
                    None => false,
                },
            };
            if ok {
                found = true;
            } else {
                let st = match &head_obs {
                    Some(_) => cands[i].2.is_some(),
                    None => false,
                };
                if st && stale_at.is_none() {
                    stale_at = Some(i);
                }
                i = i + 1;
            }
        }
        if !found {
            match stale_at {
                Some(k) => {
                    assert(cv[k as int] == (cands[k as int].0@, cands[k as int].1@, opt_text(cands[k as int].2)));
                    let reviewed_head = match &cands[k].2 {
                        Some(x) => x.clone(),
                        None => String::new(),
                    };
                    let observed_head = match &head_obs {
                        Some(x) => copy_opt_string(x),
                        None => None,
                    };
                    return Err(Error::GateStaleChangeReview {
                        item: owned(label),
                        review_id: cands[k].1.clone(),
                        reviewed_head,
                        observed_head,
                    });
                },
                None => {
                    return Err(Error::GateNoApprovedChangeReview { item: owned(label), plans: copy_strings(approved) });
                },
            }
        }
        assert(cv[i as int] == (cands[i as int].0@, cands[i as int].1@, opt_text(cands[i as int].2)));
        sat = Some((cands[i].0.clone(), cands[i].1.clone()));
    }
    match observed {
        None => {},
        Some(Ok(None)) => {},
        Some(Ok(Some(c))) => {
            if !c.is_clean() {
                if !c.observable {
                    return Err(Error::GateWorktreeUnobservable {
                        item: owned(label),
                        cause: crate::text::cat("unreadable `git status --porcelain` output for ", c.path.as_str()),
                    });
                }
                return Err(Error::GateWorktreeDirty {
                    path: c.path.clone(),
                    paths: copy_strings(&c.dirty),
                    truncated: c.truncated,
                });
            }
        },
        Some(Err(e)) => {
            return Err(Error::GateWorktreeUnobservable { item: owned(label), cause: e.message() });
        },
    }
    match over {
        Some((reason, actor)) => Ok(GateDecision::Overridden(GateOverride { reason: owned(reason), actor: owned(actor), at: today })),
        None => match sat {
            Some((plan, review_id)) => Ok(GateDecision::Satisfied { plan, review_id }),
            None => Ok(GateDecision::NotApplicable),
        },
    }
}

/// The approving change reviews handed in, plan by plan, as plain text:
/// the plan, then each review's id and recorded head.
pub open spec fn review_views(rs: Seq<(String, Vec<(String, Option<String>)>)>) -> Seq<
    (Seq<char>, Seq<(Seq<char>, Option<Seq<char>>)>),
> {
    rs.map_values(
        |e: (String, Vec<(String, Option<String>)>)|
            (e.0@, e.1@.map_values(|x: (String, Option<String>)| (x.0@, opt_text(x.1)))),
    )
}

/// The reviews listed for `plan`: those of its first entry, or none.
pub open spec fn reviews_of(rs: Seq<(Seq<char>, Seq<(Seq<char>, Option<Seq<char>>)>)>, plan: Seq<char>) -> Seq<
    (Seq<char>, Option<Seq<char>>),
>
    decreases rs.len(),
{
    if rs.len() == 0 {
        Seq::empty()
    } else if rs[0].0 == plan {
        rs[0].1
    } else {
        reviews_of(rs.drop_first(), plan)
    }
}

/// The candidate records for the approved plans, plan by plan in their
/// order: each plan's listed reviews, with the plan.
pub open spec fn candidates(approved: Seq<Seq<char>>, rs: Seq<(Seq<char>, Seq<(Seq<char>, Option<Seq<char>>)>)>) -> Seq<
    (Seq<char>, Seq<char>, Option<Seq<char>>),
>
    decreases approved.len(),
{
    if approved.len() == 0 {
        Seq::empty()
    } else {
        let p = approved.last();
        candidates(approved.drop_last(), rs) + reviews_of(rs, p).map_values(
            |x: (Seq<char>, Option<Seq<char>>)| (p, x.0, x.1),
        )
    }
}

/// What [`check_reviewed_gate`] gives: the guard's decision, where the
/// approved plans are those of the project implementing `item` with status
/// approved, in slug order, read only when the guard enforces and no
/// override is given; a failure to read them is passed on.
pub open spec fn check_gate_post(
    m: Files,
    project: Seq<char>,
    item: crate::link::ItemRefView,
    enabled: bool,
    over: Option<(Seq<char>, Seq<char>)>,
    rs: Seq<(Seq<char>, Seq<(Seq<char>, Option<Seq<char>>)>)>,
    observed: Option<Result<Option<WorktreeCheck>>>,
    today: Date,
    r: Result<GateDecision>,
) -> bool {
    let label = crate::link::label_spec(item);
    if !enabled || over is Some {
        gate_result(enabled, over, label, Seq::empty(), Seq::empty(), observed, today, r)
    } else {
        exists|l: Result<Vec<(String, Document<crate::model::Plan>)>>, t: ItemRef|
            #![trigger lists_plans(m, project, l), t.view()]
            lists_plans(m, project, l) && t@ == item && match l {
                Err(e) => r == Err::<GateDecision, Error>(e),
                Ok(v) => exists|f: Result<Vec<(String, Document<crate::model::Plan>)>>|
                    #[trigger] plans_filtered(m, project, plan_views(v@), PlanFilter { implements: Some(t), status: Some(PlanStatus::Approved) }, f)
                    && match f {
                        Err(e) => r == Err::<GateDecision, Error>(e),
                        Ok(w) => {
                            let approved = plan_views(w@).map_values(|x: (Seq<char>, crate::model::DocView<crate::model::PlanView>)| x.0);
                            gate_result(true, None, label, approved, candidates(approved, rs), observed, today, r)
                        },
                    },
            }
    }
}

/// Where plan `plan`'s entry is in `reviews`: the first one, if any.
fn find_reviews(reviews: &Vec<(String, Vec<(String, Option<String>)>)>, plan: &str) -> (r: Option<usize>)
    ensures
        match r {
            Some(j) => j < reviews.len() && reviews_of(review_views(reviews@), plan@) == review_views(reviews@)[j as int].1,
            None => reviews_of(review_views(reviews@), plan@) == Seq::<(Seq<char>, Option<Seq<char>>)>::empty(),
        },
{
    let ghost rs = review_views(reviews@);
    let mut j: usize = 0;
    assert(rs.subrange(0, rs.len() as int) =~= rs);
    while j < reviews.len()
        invariant
            j <= reviews.len(),
            rs == review_views(reviews@),
            rs.len() == reviews.len(),
            reviews_of(rs.subrange(j as int, rs.len() as int), plan@) == reviews_of(rs, plan@),
        decreases reviews.len() - j,
    {
        let ghost tail = rs.subrange(j as int, rs.len() as int);
        assert(tail[0] == rs[j as int]);
        assert(rs[j as int].0 == reviews[j as int].0@);
        if crate::text::str_eq(reviews[j].0.as_str(), plan) {
            return Some(j);
        }
        assert(tail.drop_first() =~= rs.subrange(j + 1, rs.len() as int));
        j = j + 1;
    }
    None
}

/// The approved plans' slugs and, plan by plan, their candidate records.
fn gate_candidates(w: &Vec<(String, Document<crate::model::Plan>)>, reviews: &Vec<(String, Vec<(String, Option<String>)>)>) -> (r: (
    Vec<String>,
    Vec<(String, String, Option<String>)>,
))
    ensures
        r.0.deep_view() == plan_views(w@).map_values(|x: (Seq<char>, crate::model::DocView<crate::model::PlanView>)| x.0),
        cand_views(r.1@) == candidates(r.0.deep_view(), review_views(reviews@)),
{
    let ghost approved = plan_views(w@).map_values(|x: (Seq<char>, crate::model::DocView<crate::model::PlanView>)| x.0);
    let ghost rs = review_views(reviews@);
    let mut slugs: Vec<String> = Vec::new();
    let mut cands: Vec<(String, String, Option<String>)> = Vec::new();
    let mut i: usize = 0;
    while i < w.len()
        invariant
            i <= w.len(),
            approved == plan_views(w@).map_values(|x: (Seq<char>, crate::model::DocView<crate::model::PlanView>)| x.0),
            rs == review_views(reviews@),
            slugs.deep_view() == approved.subrange(0, i as int),
            cand_views(cands@) == candidates(approved.subrange(0, i as int), rs),
        decreases w.len() - i,
    {
        let plan = &w[i].0;
        assert(approved[i as int] == plan@);
        let ghost sub = approved.subrange(0, i + 1);
        assert(sub.drop_last() =~= approved.subrange(0, i as int));
        assert(sub.last() == plan@);
        let ghost c0 = cand_views(cands@);
        let found = find_reviews(reviews, plan.as_str());
        let ghost lst = reviews_of(rs, plan@);
        match found {
            Some(j) => {
                let entries = &reviews[j].1;
                assert(lst == entries@.map_values(|x: (String, Option<String>)| (x.0@, opt_text(x.1))));
                let mut k: usize = 0;
                while k < entries.len()
                    invariant
                        k <= entries.len(),
                        lst == entries@.map_values(|x: (String, Option<String>)| (x.0@, opt_text(x.1))),
                        cand_views(cands@) == c0 + lst.subrange(0, k as int).map_values(
                            |x: (Seq<char>, Option<Seq<char>>)| (plan@, x.0, x.1),
                        ),
                    decreases entries.len() - k,
                {
                    let ghost before = cand_views(cands@);
                    cands.push((plan.clone(), entries[k].0.clone(), copy_opt_string(&entries[k].1)));
                    assert(cand_views(cands@) =~= before.push((plan@, lst[k as int].0, lst[k as int].1)));
                    assert(lst.subrange(0, k + 1).map_values(|x: (Seq<char>, Option<Seq<char>>)| (plan@, x.0, x.1))
                        =~= lst.subrange(0, k as int).map_values(|x: (Seq<char>, Option<Seq<char>>)| (plan@, x.0, x.1)).push((plan@, lst[k as int].0, lst[k as int].1)));
                    k = k + 1;
                }
                assert(lst.subrange(0, entries.len() as int) =~= lst);
            },
            None => {
                assert(c0 + lst.map_values(|x: (Seq<char>, Option<Seq<char>>)| (plan@, x.0, x.1)) =~= c0);
            },
        }
        let ghost s0 = slugs.deep_view();
        slugs.push(plan.clone());
        assert(slugs.deep_view() =~= s0.push(plan@));
        assert(approved.subrange(0, i + 1) =~= approved.subrange(0, i as int).push(plan@));
        i = i + 1;
    }
    assert(approved.subrange(0, w.len() as int) =~= approved);
    (slugs, cands)
}

/// Checks the guard on a `reviewed` write of `item`: reads the approved
/// plans implementing it from the store, takes the approving change reviews
/// of each plan from `reviews` (plan, then each review's id and the head it
/// was recorded at, none for a review that is not of a change), and
/// decides with what the worktree probe observed.
pub fn check_reviewed_gate(
    store: &MemoryStore,
    project: &str,
    item: &ItemRef,
    gate: &ReviewedGate,
    reviews: &Vec<(String, Vec<(String, Option<String>)>)>,
    observed: &Option<Result<Option<WorktreeCheck>>>,
    today: Date,
) -> (r: Result<GateDecision>)
    ensures
        check_gate_post(store.files(), project@, item@, gate.enabled_spec(), gate.override_spec(), review_views(reviews@), *observed, today, r),
{
    let label = item.label();
    let over: Option<(&str, &str)> = match gate.over {
        Some(o) => Some((o.reason, o.actor)),
        None => None,
    };
    let ghost ov = match over {
        Some(o) => Some((o.0@, o.1@)),
        None => None,
    };
    assert(ov == gate.override_spec());
    if !gate.enabled || over.is_some() {
        let none_a: Vec<String> = Vec::new();
        let none_c: Vec<(String, String, Option<String>)> = Vec::new();
        assert(none_a.deep_view() =~= Seq::<Seq<char>>::empty());
        assert(cand_views(none_c@) =~= Seq::<(Seq<char>, Seq<char>, Option<Seq<char>>)>::empty());
        return gate_decide(gate.enabled, over, label.as_str(), &none_a, &none_c, observed, today);
    }
    let ghost m = store.files();
    let ghost rs = review_views(reviews@);
    let l = list_plans(store, project);
    let ghost lv = l;
    match l {
        Err(e) => {
            assert(lists_plans(m, project@, lv) && item@ == item@);
            Err(e)
        },
        Ok(v) => {
            let filter = PlanFilter { implements: Some(item.duplicate()), status: Some(PlanStatus::Approved) };
            let ghost t = filter.implements.unwrap();
            let ghost vv = plan_views(v@);
            let f = filter_plans(store, project, v, &filter);
            assert(filter == PlanFilter { implements: Some(t), status: Some(PlanStatus::Approved) });
            assert(plans_filtered(m, project@, vv, filter, f));
            match f {
                Err(e) => Err(e),
                Ok(w) => {
                    let ghost approved = plan_views(w@).map_values(|x: (Seq<char>, crate::model::DocView<crate::model::PlanView>)| x.0);
                    let (slugs, cands) = gate_candidates(&w, reviews);
                    let r = gate_decide(true, None, label.as_str(), &slugs, &cands, observed, today);
                    assert(lists_plans(m, project@, lv) && t@ == item@);
                    r
                },
            }
        },
    }
}

} // verus!
