//! Operations on a plan repo store.
pub mod update;
pub mod project;
pub mod roadmap;
pub mod phase;
pub mod task;
pub mod index;
pub mod init;
pub mod tag;
pub mod gate;
pub mod review;
pub mod next;
pub mod reviews;
pub mod links;
pub mod plan;
pub mod runs;

use vstd::prelude::*;

use crate::error::{Error, Result};
use crate::ops::index::{generate_index_for_project, generate_index_for_project_post};
use crate::store::{Files, MemoryStore};

verus! {

/// What [`mutate`] gives and leaves once the operation has given `o` and left
/// files `m`: the operation's error as it is, or else the project's index and
/// the top-level index regenerated over `m` and the outcome, or that
/// regeneration's error.
pub open spec fn finalized<T>(m: Files, project: &str, o: Result<T>, r: Result<T>, m2: Files) -> bool {
    match o {
        Err(e) => r == Err::<T, Error>(e) && m2 == m,
        Ok(v) => exists|g: Result<()>|
            #[trigger] generate_index_for_project_post(m, project, g, m2) && match g {
                Ok(()) => r == Ok::<T, Error>(v),
                Err(e) => r == Err::<T, Error>(e),
            },
    }
}

/// Runs a mutating operation as one transaction: applies `f`, regenerates
/// the project's `INDEX.md` (and the top-level one), then commits once. An
/// error from `f` is passed on with nothing regenerated.
pub fn mutate<T, F: FnOnce(&mut MemoryStore) -> Result<T>>(store: &mut MemoryStore, project: &str, f: F) -> (r: Result<T>)
    requires
        forall|s: &mut MemoryStore| *s == *old(store) ==> #[trigger] f.requires((s,)),
    ensures
        exists|s: &mut MemoryStore, o: Result<T>|
            *s == *old(store) && #[trigger] f.ensures((s,), o) && finalized(final(s).files(), project, o, r, final(store).files()),
{
    let ghost s0 = *store;
    let out = f(store);
    let ghost m1 = store.files();
    match out {
        Ok(v) => {
            let g = generate_index_for_project(store, project);
            match g {
                Ok(()) => {
                    let c = store.commit();
                    Ok(v)
                },
                Err(e) => Err(e),
            }
        },
        Err(e) => Err(e),
    }
}

/// What [`mutate_batch`] reports: each step's result in order, the result
/// of the shared finishing stage (index regeneration, then the one commit),
/// and the commit message, present exactly when a step succeeded.
pub struct BatchOutcome {
    /// Per-step results, in the order of the steps.
    pub step_results: Vec<Result<()>>,
    /// The result of regenerating the index (when a step succeeded) and
    /// committing.
    pub finalize_result: Result<()>,
    /// The batch's commit message, when a step succeeded.
    pub commit_message: Option<String>,
}

/// Whether some step succeeded.
pub open spec fn any_ok(rs: Seq<Result<()>>) -> bool {
    exists|i: int| 0 <= i < rs.len() && (#[trigger] rs[i]) is Ok
}

/// Whether `msg` is a message that `message` can give on the step results `rs`.
pub open spec fn message_gave<M: FnOnce(&[Result<()>]) -> String>(message: M, rs: Seq<Result<()>>, msg: String) -> bool {
    exists|v: &[Result<()>]| v@ == rs && #[trigger] message.ensures((v,), msg)
}

/// Applies independent mutating operations as one transaction: runs every
/// step in order, each on the store the one before it left, without
/// stopping at a failed one; regenerates the index once if some step
/// succeeded, and commits once. The commit message, made by `message` from
/// all the step results, is there exactly when some step succeeded. A step
/// takes the store and hands it back with its result.
pub fn mutate_batch<
    F: FnOnce(MemoryStore) -> (MemoryStore, Result<()>),
    M: FnOnce(&[Result<()>]) -> String,
>(
    store: &mut MemoryStore,
    project: &str,
    steps: Vec<F>,
    message: M,
) -> (r: BatchOutcome)
    requires
        forall|i: int, s: MemoryStore| 0 <= i < steps.len() ==> #[trigger] steps@[i].requires((s,)),
        forall|rs: &[Result<()>]| #[trigger] message.requires((rs,)),
    ensures
        r.step_results.len() == steps.len(),
        r.commit_message is Some <==> any_ok(r.step_results@),
        !any_ok(r.step_results@) ==> r.finalize_result is Ok,
        r.commit_message matches Some(msg) ==> message_gave(message, r.step_results@, msg),
        exists|states: Seq<MemoryStore>|
            #![trigger states.len()]
            states.len() == steps.len() + 1 && states[0] == *old(store) && (forall|k: int|
                0 <= k < steps.len() ==> #[trigger] steps@[k].ensures((states[k],), (states[k + 1], r.step_results@[k])))
            && if any_ok(r.step_results@) {
                generate_index_for_project_post(states.last().files(), project, r.finalize_result, final(store).files())
            } else {
                final(store).files() == states.last().files()
            },
{
    let ghost all = steps@;
    let mut pending = steps;
    let mut step_results: Vec<Result<()>> = Vec::new();
    let mut any = false;
    let n = pending.len();
    let mut i: usize = 0;
    let ghost mut states: Seq<MemoryStore> = seq![*store];
    while i < n
        invariant
            i <= n,
            n == all.len(),
            pending@ == all.subrange(i as int, n as int),
            forall|k: int, s: MemoryStore| 0 <= k < all.len() ==> #[trigger] all[k].requires((s,)),
            step_results.len() == i,
            any <==> any_ok(step_results@),
            states.len() == i + 1,
            states[0] == *old(store),
            states[i as int] == *store,
            forall|k: int| 0 <= k < i ==> #[trigger] all[k].ensures((states[k],), (states[k + 1], step_results@[k])),
        decreases n - i,
    {
        let step = pending.remove(0);
        assert(step == all[i as int]);
        assert(pending@ =~= all.subrange(i + 1, n as int));
        let mut cur = MemoryStore::new();
        core::mem::swap(&mut cur, store);
        let (next, res) = step(cur);
        *store = next;
        let ghost r0 = step_results@;
        let ghost rv = res;
        let ghost s0 = states;
        let ok = res.is_ok();
        step_results.push(res);
        if ok {
            any = true;
        }
        proof {
            states = states.push(*store);
            assert(step_results@ == r0.push(rv));
            assert forall|k: int| 0 <= k < i + 1 implies #[trigger] all[k].ensures((states[k],), (states[k + 1], step_results@[k])) by {
                if k < i {
                    assert(states[k] == s0[k] && states[k + 1] == s0[k + 1]);
                    assert(step_results@[k] == r0[k]);
                } else {
                    assert(states[k] == s0[k] && states[k + 1] == *store);
                    assert(step_results@[k] == rv);
                }
            }
            if ok {
                assert(step_results@[i as int] is Ok);
            }
            if any_ok(r0) {
                let k = choose|k: int| 0 <= k < r0.len() && (#[trigger] r0[k]) is Ok;
                assert(step_results@[k] is Ok);
            }
            if any_ok(step_results@) && !ok {
                let k = choose|k: int| 0 <= k < step_results@.len() && (#[trigger] step_results@[k]) is Ok;
                assert(k < i);
                assert(r0[k] is Ok);
            }
        }
        i = i + 1;
    }
    let ghost m1 = store.files();
    assert(states.last() == *store);
    if any {
        let sl = step_results.as_slice();
        let msg = message(sl);
        assert(sl@ == step_results@);
        let g = generate_index_for_project(store, project);
        let finalize_result = match g {
            Ok(()) => store.commit(),
            Err(e) => Err(e),
        };
        assert(sl@ == step_results@ && message.ensures((sl,), msg));
        assert(message_gave(message, step_results@, msg));
        let r = BatchOutcome { step_results, finalize_result, commit_message: Some(msg) };
        assert(generate_index_for_project_post(m1, project, r.finalize_result, store.files()));
        assert(states.len() == n + 1);
        return r;
    }
    let finalize_result = store.commit();
    let commit_message: Option<String> = None;
    let r = BatchOutcome { step_results, finalize_result, commit_message };
    assert(states.len() == n + 1);
    r
}

} // verus!
pub mod backlog;
pub mod duplicates;
