use rdm_core::error::Error;
use rdm_core::io;
use rdm_core::model::{Date, Document, Run, RunDriver, RunStatus, RunTarget, Timestamp};
use rdm_core::ops::phase::create_phase;
use rdm_core::ops::project::create_project;
use rdm_core::ops::reviews::MAX_ID_ATTEMPTS;
use rdm_core::ops::roadmap::{create_roadmap, delete_roadmap};
use rdm_core::ops::runs::{
    close_run, create_run, end_unit, filter_runs, get_run, list_runs, next_available_run_id,
    run_matches, start_unit, CreateRun, RunEnd, RunFilter,
};
use rdm_core::ops::task::{create_task, CreateTask};
use rdm_core::store::MemoryStore;

fn t(min: u32, sec: u32) -> Timestamp {
    Timestamp {
        date: Date::new(2026, 9, 24),
        hour: 15,
        minute: min,
        second: sec,
    }
}

fn suffixes() -> Vec<u16> {
    (1..=8).map(|n| 0x0a00 + n).collect()
}

fn setup_store() -> MemoryStore {
    let mut store = MemoryStore::new();
    create_project(&mut store, "test", "Test Project").unwrap();
    for slug in ["alpha", "beta"] {
        create_roadmap(&mut store, "test", slug, slug, None, None).unwrap();
    }
    for (n, slug) in [(1, "one"), (2, "two")] {
        create_phase(&mut store, "test", "alpha", slug, slug, Some(n), None, None).unwrap();
    }
    create_task(
        &mut store,
        CreateTask {
            project: "test",
            slug: "fix-bug",
            title: "Fix bug",
            ..Default::default()
        },
    )
    .unwrap();
    store
}

fn record(store: &mut MemoryStore, target: RunTarget, now: Timestamp) -> String {
    create_run(
        store,
        CreateRun {
            project: "test",
            driver: RunDriver::Autopilot,
            target,
            session_uuid: None,
            args: None,
            now,
        },
        &suffixes(),
    )
    .unwrap()
    .frontmatter
    .id
}

fn alpha() -> RunTarget {
    RunTarget::Roadmap("alpha".to_string())
}

// -- ids --

#[test]
fn next_available_run_id_returns_first_free_candidate() {
    let mut store = setup_store();
    let taken = record(&mut store, alpha(), t(30, 0));
    let id = next_available_run_id(&store, "test", &vec![taken, "free".to_string()]).unwrap();
    assert_eq!(id, "free");
}

#[test]
fn next_available_run_id_exhausted_after_repeated_collisions() {
    let mut store = setup_store();
    let stuck = record(&mut store, alpha(), t(30, 0));
    let candidates: Vec<String> = (0..MAX_ID_ATTEMPTS).map(|_| stuck.clone()).collect();
    let result = next_available_run_id(&store, "test", &candidates);
    assert!(matches!(result, Err(Error::RunIdExhausted)));
}

#[test]
fn next_available_id_reports_the_callers_exhaustion_error() {
    // Every one of the allowed attempts collides; candidates past the limit
    // are never looked at, even a free one.
    let mut store = setup_store();
    let stuck = record(&mut store, alpha(), t(30, 0));
    let mut candidates: Vec<String> = (0..MAX_ID_ATTEMPTS).map(|_| stuck.clone()).collect();
    candidates.push("free".to_string());
    let result = next_available_run_id(&store, "test", &candidates);
    assert!(matches!(result, Err(Error::RunIdExhausted)));
}

#[test]
fn create_run_twice_at_the_same_instant_yields_distinct_ids() {
    let mut store = setup_store();
    let a = record(&mut store, alpha(), t(30, 0));
    let b = record(&mut store, alpha(), t(30, 0));
    assert_ne!(a, b);
    assert!(a.starts_with("2026-09-24-1530-"), "{a}");
    assert_eq!(a, "2026-09-24-1530-0a01");
    assert_eq!(b, "2026-09-24-1530-0a02");
}

// -- create / get / list --

#[test]
fn create_run_records_an_open_run() {
    let mut store = setup_store();
    let doc = create_run(
        &mut store,
        CreateRun {
            project: "test",
            driver: RunDriver::DispatchPhase,
            target: RunTarget::Task("fix-bug".to_string()),
            session_uuid: Some("sess-1"),
            args: Some("task/fix-bug"),
            now: t(30, 0),
        },
        &suffixes(),
    )
    .unwrap();
    let fm = &doc.frontmatter;
    assert_eq!(fm.status, RunStatus::Open);
    assert_eq!(fm.started, t(30, 0));
    assert_eq!(fm.session_uuid.as_deref(), Some("sess-1"));
    assert_eq!(fm.args.as_deref(), Some("task/fix-bug"));
    assert!(fm.units.is_empty());
    assert_eq!(get_run(&store, "test", &fm.id).unwrap(), doc);
}

#[test]
fn create_run_treats_empty_session_and_args_as_absent() {
    let mut store = setup_store();
    let doc = create_run(
        &mut store,
        CreateRun {
            project: "test",
            driver: RunDriver::Autopilot,
            target: alpha(),
            session_uuid: Some(""),
            args: Some(""),
            now: t(30, 0),
        },
        &suffixes(),
    )
    .unwrap();
    assert_eq!(doc.frontmatter.session_uuid, None);
    assert_eq!(doc.frontmatter.args, None);
}

#[test]
fn create_run_rejects_missing_project_and_targets() {
    let mut store = setup_store();
    let mut req = |project: &'static str, target: RunTarget| {
        create_run(
            &mut store,
            CreateRun {
                project,
                driver: RunDriver::Autopilot,
                target,
                session_uuid: None,
                args: None,
                now: t(30, 0),
            },
            &suffixes(),
        )
    };
    assert!(matches!(req("nope", alpha()), Err(Error::ProjectNotFound(_))));
    assert!(matches!(
        req("test", RunTarget::Roadmap("ghost".to_string())),
        Err(Error::RoadmapNotFound(_))
    ));
    assert!(matches!(
        req("test", RunTarget::Task("ghost".to_string())),
        Err(Error::TaskNotFound(_))
    ));
}

#[test]
fn list_runs_is_sorted_and_filterable_without_the_target_existing() {
    let mut store = setup_store();
    let late = record(&mut store, alpha(), t(45, 0));
    let early = record(&mut store, RunTarget::Roadmap("beta".to_string()), t(10, 0));
    let task = record(&mut store, RunTarget::Task("fix-bug".to_string()), t(20, 0));
    let all = list_runs(&store, "test").unwrap();
    let ids: Vec<&str> = all.iter().map(|(id, _)| id.as_str()).collect();
    assert_eq!(ids, vec![early.as_str(), task.as_str(), late.as_str()]);

    delete_roadmap(&mut store, "test", "alpha").unwrap();
    let alpha_runs = filter_runs(
        list_runs(&store, "test").unwrap(),
        &RunFilter {
            roadmap: Some("alpha".to_string()),
            ..Default::default()
        },
    );
    assert_eq!(alpha_runs.len(), 1);
    assert_eq!(alpha_runs[0].0, late);
    let task_runs = filter_runs(
        list_runs(&store, "test").unwrap(),
        &RunFilter {
            task: Some("fix-bug".to_string()),
            ..Default::default()
        },
    );
    assert_eq!(task_runs.len(), 1);
    assert_eq!(task_runs[0].0, task);
}

#[test]
fn list_runs_missing_dir_is_empty_and_unknown_project_errors() {
    let store = setup_store();
    assert!(list_runs(&store, "test").unwrap().is_empty());
    assert!(matches!(list_runs(&store, "nope"), Err(Error::ProjectNotFound(_))));
}

#[test]
fn get_run_survives_its_roadmap_being_deleted() {
    let mut store = setup_store();
    let id = record(&mut store, alpha(), t(30, 0));
    delete_roadmap(&mut store, "test", "alpha").unwrap();
    let doc = get_run(&store, "test", &id).unwrap();
    assert_eq!(doc.frontmatter.target, alpha());
    assert!(matches!(get_run(&store, "test", "missing"), Err(Error::RunNotFound(_))));
}

#[test]
fn a_path_escaping_run_id_is_not_found_rather_than_a_panic() {
    let mut store = setup_store();
    for bad in ["../x", "./x", "a/../b", "..", ".", "", "a\\b", "x/y"] {
        assert!(
            matches!(get_run(&store, "test", bad), Err(Error::RunNotFound(ref id)) if id == bad),
            "get_run {bad:?}"
        );
        assert!(
            matches!(start_unit(&mut store, "test", bad, "1", t(31, 0)), Err(Error::RunNotFound(_))),
            "start_unit {bad:?}"
        );
        assert!(
            matches!(end_unit(&mut store, "test", bad, "reviewed", t(31, 0)), Err(Error::RunNotFound(_))),
            "end_unit {bad:?}"
        );
        assert!(
            matches!(
                close_run(&mut store, "test", bad, RunEnd::Closed, "done", t(31, 0)),
                Err(Error::RunNotFound(_))
            ),
            "close_run {bad:?}"
        );
    }
    let id = record(&mut store, alpha(), t(30, 0));
    let doc = get_run(&store, "test", &id).unwrap();
    assert!(matches!(
        io::write_run(&mut store, "test", "../x", &doc),
        Err(Error::RunNotFound(_))
    ));
}

#[test]
fn a_path_escaping_unit_is_not_found_rather_than_a_panic() {
    let mut store = setup_store();
    let roadmap_run = record(&mut store, alpha(), t(30, 0));
    let task_run = record(&mut store, RunTarget::Task("fix-bug".to_string()), t(30, 0));
    for bad in ["../x", "./x", "a/../b", "..", ".", "", "a\\b", "x/y"] {
        assert!(
            matches!(
                start_unit(&mut store, "test", &roadmap_run, bad, t(31, 0)),
                Err(Error::PhaseNotFound(ref u)) if u == bad
            ),
            "roadmap run {bad:?}"
        );
        assert!(
            matches!(
                start_unit(&mut store, "test", &task_run, bad, t(31, 0)),
                Err(Error::RunUnitMismatch { ref unit, .. }) if unit == bad
            ),
            "task run {bad:?}"
        );
    }
    for id in [&roadmap_run, &task_run] {
        assert!(get_run(&store, "test", id).unwrap().frontmatter.units.is_empty());
    }
}

// -- units --

#[test]
fn start_and_end_unit_record_one_complete_entry() {
    let mut store = setup_store();
    let id = record(&mut store, alpha(), t(30, 0));
    let started = start_unit(&mut store, "test", &id, "1", t(31, 0)).unwrap();
    let unit = &started.frontmatter.units[0];
    assert_eq!(unit.unit, "phase-1-one");
    assert_eq!(unit.attempt, 1);
    assert!(!unit.is_complete());
    let ended = end_unit(&mut store, "test", &id, "reviewed", t(40, 0)).unwrap();
    let unit = &ended.frontmatter.units[0];
    assert_eq!(unit.started, t(31, 0));
    assert_eq!(unit.ended, Some(t(40, 0)));
    assert_eq!(unit.outcome.as_deref(), Some("reviewed"));
    assert_eq!(get_run(&store, "test", &id).unwrap(), ended);
}

#[test]
fn attempt_ordinal_counts_per_unit() {
    let mut store = setup_store();
    let id = record(&mut store, alpha(), t(30, 0));
    for (unit, min) in [("1", 31), ("phase-2-two", 33), ("phase-1-one", 35)] {
        start_unit(&mut store, "test", &id, unit, t(min, 0)).unwrap();
        end_unit(&mut store, "test", &id, "rework", t(min + 1, 0)).unwrap();
    }
    let units = get_run(&store, "test", &id).unwrap().frontmatter.units;
    let got: Vec<(&str, u32)> = units.iter().map(|u| (u.unit.as_str(), u.attempt)).collect();
    assert_eq!(got, vec![("phase-1-one", 1), ("phase-2-two", 1), ("phase-1-one", 2)]);
}

#[test]
fn start_unit_refuses_while_another_unit_is_open() {
    let mut store = setup_store();
    let id = record(&mut store, alpha(), t(30, 0));
    start_unit(&mut store, "test", &id, "1", t(31, 0)).unwrap();
    let err = start_unit(&mut store, "test", &id, "2", t(32, 0)).unwrap_err();
    assert!(
        matches!(&err, Error::RunUnitAlreadyOpen { unit, attempt: 1, .. } if unit == "phase-1-one"),
        "{err:?}"
    );
}

#[test]
fn start_unit_rejects_an_unknown_phase() {
    let mut store = setup_store();
    let id = record(&mut store, alpha(), t(30, 0));
    for bad in ["9", "phase-9-typo"] {
        assert!(matches!(
            start_unit(&mut store, "test", &id, bad, t(31, 0)),
            Err(Error::PhaseNotFound(_))
        ));
    }
}

#[test]
fn task_run_units_must_name_the_task() {
    let mut store = setup_store();
    let id = record(&mut store, RunTarget::Task("fix-bug".to_string()), t(30, 0));
    let err = start_unit(&mut store, "test", &id, "other", t(31, 0)).unwrap_err();
    assert!(
        matches!(&err, Error::RunUnitMismatch { expected, .. } if expected == "fix-bug"),
        "{err:?}"
    );
    let doc = start_unit(&mut store, "test", &id, "fix-bug", t(31, 0)).unwrap();
    assert_eq!(doc.frontmatter.units[0].unit, "fix-bug");
}

#[test]
fn end_unit_needs_an_open_unit_and_a_non_empty_outcome() {
    let mut store = setup_store();
    let id = record(&mut store, alpha(), t(30, 0));
    assert!(matches!(
        end_unit(&mut store, "test", &id, "reviewed", t(31, 0)),
        Err(Error::RunNoOpenUnit(_))
    ));
    start_unit(&mut store, "test", &id, "1", t(31, 0)).unwrap();
    assert!(matches!(
        end_unit(&mut store, "test", &id, "  ", t(32, 0)),
        Err(Error::RunOutcomeEmpty)
    ));
}

// -- close --

#[test]
fn close_run_stamps_end_reason_and_status() {
    let mut store = setup_store();
    let id = record(&mut store, alpha(), t(30, 0));
    let doc = close_run(&mut store, "test", &id, RunEnd::Closed, "done", t(50, 0)).unwrap();
    assert_eq!(doc.frontmatter.status, RunStatus::Closed);
    assert_eq!(doc.frontmatter.ended, Some(t(50, 0)));
    assert_eq!(doc.frontmatter.stop_reason.as_deref(), Some("done"));
    assert!(doc.frontmatter.is_complete());
    let other = record(&mut store, alpha(), t(30, 0));
    let doc = close_run(&mut store, "test", &other, RunEnd::Abandoned, "interrupted", t(51, 0)).unwrap();
    assert_eq!(doc.frontmatter.status, RunStatus::Abandoned);
}

#[test]
fn close_run_rejects_an_empty_stop_reason() {
    let mut store = setup_store();
    let id = record(&mut store, alpha(), t(30, 0));
    for end in [RunEnd::Closed, RunEnd::Abandoned] {
        for bad in ["", "   ", "\t\n"] {
            assert!(
                matches!(
                    close_run(&mut store, "test", &id, end, bad, t(50, 0)),
                    Err(Error::RunStopReasonEmpty)
                ),
                "{end:?} {bad:?}"
            );
        }
    }
    let doc = get_run(&store, "test", &id).unwrap();
    assert_eq!(doc.frontmatter.status, RunStatus::Open);
    assert_eq!(doc.frontmatter.stop_reason, None);
    assert_eq!(doc.frontmatter.ended, None);
}

#[test]
fn a_terminal_run_refuses_further_writes() {
    let mut store = setup_store();
    let id = record(&mut store, alpha(), t(30, 0));
    close_run(&mut store, "test", &id, RunEnd::Closed, "done", t(50, 0)).unwrap();
    let not_open = |r: Result<Document<Run>, Error>| {
        matches!(
            r,
            Err(Error::RunNotOpen {
                status: RunStatus::Closed,
                ..
            })
        )
    };
    assert!(not_open(close_run(&mut store, "test", &id, RunEnd::Abandoned, "again", t(51, 0))));
    assert!(not_open(start_unit(&mut store, "test", &id, "1", t(52, 0))));
    assert!(not_open(end_unit(&mut store, "test", &id, "x", t(53, 0))));
}

#[test]
fn close_with_an_open_unit_leaves_that_unit_incomplete() {
    let mut store = setup_store();
    let id = record(&mut store, alpha(), t(30, 0));
    start_unit(&mut store, "test", &id, "1", t(31, 0)).unwrap();
    let doc = close_run(&mut store, "test", &id, RunEnd::Abandoned, "killed", t(40, 0)).unwrap();
    assert_eq!(doc.frontmatter.status, RunStatus::Abandoned);
    assert!(!doc.frontmatter.units[0].is_complete());
    assert_eq!(doc.frontmatter.units[0].outcome, None);
    assert!(!doc.frontmatter.is_complete());
}

#[test]
fn run_end_converts_to_its_status() {
    assert_eq!(RunStatus::from(RunEnd::Closed), RunStatus::Closed);
    assert_eq!(RunStatus::from(RunEnd::Abandoned), RunStatus::Abandoned);
}

#[test]
fn run_matches_by_recorded_slug() {
    let mut store = setup_store();
    let id = record(&mut store, alpha(), t(30, 0));
    let run = get_run(&store, "test", &id).unwrap().frontmatter;
    assert!(run_matches(&run, &RunFilter::default()));
    assert!(run_matches(
        &run,
        &RunFilter {
            roadmap: Some("alpha".to_string()),
            task: None
        }
    ));
    assert!(!run_matches(
        &run,
        &RunFilter {
            roadmap: None,
            task: Some("alpha".to_string())
        }
    ));
}
