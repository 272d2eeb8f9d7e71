use rdm_core::error::Error;
use rdm_core::io;
use rdm_core::link::ItemRef;
use rdm_core::model::{Date, PlanStatus, Priority, ReviewComment, ReviewCommentStatus, ReviewState, ReviewTarget, TaskStatus};
use rdm_core::ops::reviews::{add_comment, create_review, AddComment, CreateReview};
use rdm_core::ops::backlog::{report_at, ReportOptions};
use rdm_core::ops::gate::{check_reviewed_gate, gate_decide, GateDecision, ReviewedGate, WorktreeCheck};
use rdm_core::ops::init::init;
use rdm_core::ops::mutate_batch;
use rdm_core::ops::phase::{create_phase, list_phases};
use rdm_core::ops::plan::{create_plan, set_plan_status, CreatePlan};
use rdm_core::ops::project::create_project;
use rdm_core::ops::roadmap::{add_dependency, archive_roadmap, create_roadmap, split_roadmap};
use rdm_core::ops::task::{consolidate_task_into_roadmap, create_task, merge_tasks, CreateTask};
use rdm_core::paths;
use rdm_core::store::MemoryStore;

fn setup() -> MemoryStore {
    let mut store = MemoryStore::new();
    init(&mut store).unwrap();
    create_project(&mut store, "demo", "Demo").unwrap();
    store
}

fn task(store: &mut MemoryStore, slug: &str, tags: &[&str], body: &str) {
    create_task(
        store,
        CreateTask {
            project: "demo",
            slug,
            title: slug,
            priority: Priority::Medium,
            tags: if tags.is_empty() { None } else { Some(tags.iter().map(|s| s.to_string()).collect()) },
            body: Some(body),
        },
    )
    .unwrap();
}

fn roadmap_with(store: &mut MemoryStore, slug: &str, phases: &[&str]) {
    create_roadmap(store, "demo", slug, slug, None, None).unwrap();
    for p in phases {
        create_phase(store, "demo", slug, p, p, None, None, None).unwrap();
    }
}

fn clean_check(head: &str) -> WorktreeCheck {
    WorktreeCheck {
        path: "/wt/demo".to_string(),
        head: Some(head.to_string()),
        dirty: vec![],
        truncated: false,
        observable: true,
    }
}

fn dirty_check(head: &str) -> WorktreeCheck {
    WorktreeCheck {
        path: "/wt/demo".to_string(),
        head: Some(head.to_string()),
        dirty: vec!["src/lib.rs".to_string()],
        truncated: false,
        observable: true,
    }
}

fn today() -> Date {
    Date::new(2026, 3, 1)
}

#[test]
fn gate_disabled_refuses_override_and_otherwise_does_not_apply() {
    let none: Vec<String> = vec![];
    let cands: Vec<(String, String, Option<String>)> = vec![];
    let r = gate_decide(false, Some(("why", "me")), "task/t", &none, &cands, &None, today());
    assert!(matches!(r, Err(Error::GateOverrideGateDisabled)));
    let r = gate_decide(false, None, "task/t", &none, &cands, &None, today());
    assert_eq!(r, Ok(GateDecision::NotApplicable));
}

#[test]
fn gate_blank_override_reason_is_refused() {
    let none: Vec<String> = vec![];
    let cands: Vec<(String, String, Option<String>)> = vec![];
    let r = gate_decide(true, Some(("  ", "me")), "task/t", &none, &cands, &None, today());
    assert!(matches!(r, Err(Error::GateOverrideEmptyReason)));
}

#[test]
fn gate_checks_in_fixed_order() {
    let none: Vec<String> = vec![];
    let approved = vec!["p1".to_string()];
    let empty: Vec<(String, String, Option<String>)> = vec![];
    let dirty = Some(Ok(Some(dirty_check("abc"))));
    // (a) comes first, even with a dirty worktree.
    let r = gate_decide(true, None, "task/t", &none, &empty, &dirty, today());
    assert_eq!(r, Err(Error::GateNoApprovedPlan("task/t".to_string())));
    // (b) with no review at all.
    let r = gate_decide(true, None, "task/t", &approved, &empty, &dirty, today());
    assert_eq!(
        r,
        Err(Error::GateNoApprovedChangeReview { item: "task/t".to_string(), plans: vec!["p1".to_string()] })
    );
    // (b) with a review at another head: stale, before the dirty worktree.
    let cands = vec![("p1".to_string(), "r1".to_string(), Some("old".to_string()))];
    let r = gate_decide(true, None, "task/t", &approved, &cands, &dirty, today());
    assert_eq!(
        r,
        Err(Error::GateStaleChangeReview {
            item: "task/t".to_string(),
            review_id: "r1".to_string(),
            reviewed_head: "old".to_string(),
            observed_head: Some("abc".to_string()),
        })
    );
    // (c) last.
    let cands = vec![("p1".to_string(), "r1".to_string(), Some("abc".to_string()))];
    let r = gate_decide(true, None, "task/t", &approved, &cands, &dirty, today());
    assert_eq!(
        r,
        Err(Error::GateWorktreeDirty {
            path: "/wt/demo".to_string(),
            paths: vec!["src/lib.rs".to_string()],
            truncated: false,
        })
    );
    let clean = Some(Ok(Some(clean_check("abc"))));
    let r = gate_decide(true, None, "task/t", &approved, &cands, &clean, today());
    assert_eq!(r, Ok(GateDecision::Satisfied { plan: "p1".to_string(), review_id: "r1".to_string() }));
}

#[test]
fn gate_override_never_waives_cleanliness() {
    let none: Vec<String> = vec![];
    let empty: Vec<(String, String, Option<String>)> = vec![];
    let dirty = Some(Ok(Some(dirty_check("abc"))));
    let r = gate_decide(true, Some(("urgent", "ops")), "task/t", &none, &empty, &dirty, today());
    assert!(matches!(r, Err(Error::GateWorktreeDirty { .. })));
    let r = gate_decide(true, Some(("urgent", "ops")), "task/t", &none, &empty, &None, today());
    match r {
        Ok(GateDecision::Overridden(g)) => {
            assert_eq!(g.reason, "urgent");
            assert_eq!(g.actor, "ops");
            assert_eq!(g.at, today());
        },
        other => panic!("unexpected {:?}", other),
    }
}

#[test]
fn gate_probe_error_is_unobservable() {
    let approved = vec!["p1".to_string()];
    let cands = vec![("p1".to_string(), "r1".to_string(), Some("abc".to_string()))];
    let failed = Some(Err(Error::Git("boom".to_string())));
    let r = gate_decide(true, None, "task/t", &approved, &cands, &failed, today());
    match r {
        Err(Error::GateWorktreeUnobservable { item, cause }) => {
            assert_eq!(item, "task/t");
            assert_eq!(cause, Error::Git("boom".to_string()).message());
        },
        other => panic!("unexpected {:?}", other),
    }
    // Nothing observed: the first review is accepted whatever its head.
    let r = gate_decide(true, None, "task/t", &approved, &cands, &None, today());
    assert_eq!(r, Ok(GateDecision::Satisfied { plan: "p1".to_string(), review_id: "r1".to_string() }));
}

#[test]
fn check_reviewed_gate_reads_approved_plans() {
    let mut store = setup();
    task(&mut store, "t", &[], "Body.");
    create_plan(
        &mut store,
        CreatePlan {
            project: "demo",
            slug: "p1",
            title: "Plan",
            implements: ItemRef::Task { slug: "t".to_string() },
            supersedes: None,
            body: None,
        },
    )
    .unwrap();
    let item = ItemRef::Task { slug: "t".to_string() };
    let gate = ReviewedGate::enforcing();
    let reviews = vec![("p1".to_string(), vec![("r1".to_string(), Some("abc".to_string()))])];
    // A draft plan does not count.
    let r = check_reviewed_gate(&store, "demo", &item, &gate, &reviews, &None, today());
    assert_eq!(r, Err(Error::GateNoApprovedPlan("task/t".to_string())));
    set_plan_status(&mut store, "demo", "p1", PlanStatus::Approved).unwrap();
    let r = check_reviewed_gate(&store, "demo", &item, &gate, &reviews, &None, today());
    assert_eq!(r, Ok(GateDecision::Satisfied { plan: "p1".to_string(), review_id: "r1".to_string() }));
    let disabled = ReviewedGate::disabled();
    let r = check_reviewed_gate(&store, "demo", &item, &disabled, &reviews, &None, today());
    assert_eq!(r, Ok(GateDecision::NotApplicable));
}

#[test]
fn split_refuses_selection_covering_every_phase_with_repeats() {
    let mut store = setup();
    roadmap_with(&mut store, "big", &["a", "b"]);
    let r = split_roadmap(
        &mut store,
        "demo",
        "big",
        "small",
        "Small",
        &["phase-1-a".to_string(), "phase-2-b".to_string(), "phase-2-b".to_string()],
        None,
    );
    assert!(matches!(r, Err(Error::InvalidPhaseSelection(_))));
    assert!(!store.file_exists(&paths::roadmap_path("demo", "small")));
}

#[test]
fn split_with_repeated_stem_keeps_the_rest() {
    let mut store = setup();
    roadmap_with(&mut store, "big", &["a", "b", "c"]);
    let t = split_roadmap(
        &mut store,
        "demo",
        "big",
        "small",
        "Small",
        &["phase-2-b".to_string(), "phase-2-b".to_string()],
        None,
    )
    .unwrap();
    assert_eq!(t.frontmatter.phases, vec!["phase-1-b".to_string()]);
    let moved = io::load_phase(&store, "demo", "small", "phase-1-b").unwrap();
    assert_eq!(moved.frontmatter.phase, 1);
    assert_eq!(moved.frontmatter.title, "b");
    assert!(!store.file_exists(&paths::phase_path("demo", "big", "phase-2-b")));
    assert!(!store.file_exists(&paths::phase_path("demo", "big", "phase-3-c")));
    let left = io::load_phase(&store, "demo", "big", "phase-2-c").unwrap();
    assert_eq!(left.frontmatter.phase, 2);
    let phases = list_phases(&store, "demo", "big").unwrap();
    assert_eq!(phases.len(), 2);
}

#[test]
fn split_with_a_missing_phase_file_changes_nothing() {
    let mut store = setup();
    roadmap_with(&mut store, "big", &["a", "b"]);
    store.delete(&paths::phase_path("demo", "big", "phase-2-b")).unwrap();
    let r = split_roadmap(&mut store, "demo", "big", "small", "Small", &["phase-1-a".to_string()], None);
    assert!(r.is_err());
    assert!(!store.file_exists(&paths::roadmap_path("demo", "small")));
    assert!(store.file_exists(&paths::phase_path("demo", "big", "phase-1-a")));
}

#[test]
fn merging_again_changes_nothing() {
    let mut store = setup();
    task(&mut store, "survivor", &["a"], "S.");
    task(&mut store, "dup", &["b"], "D.");
    let sources = vec!["dup".to_string()];
    let (s1, c1) = merge_tasks(&mut store, "demo", "survivor", &sources).unwrap();
    assert_eq!(c1.len(), 1);
    assert_eq!(c1[0].frontmatter.status, TaskStatus::WontFix);
    let (s2, c2) = merge_tasks(&mut store, "demo", "survivor", &sources).unwrap();
    assert!(c2.is_empty());
    assert_eq!(s2.frontmatter.tags, s1.frontmatter.tags);
    assert_eq!(s2.body, s1.body);
    assert_eq!(s1.body, "S.\n\n## Merged from task `dup`\n\nD.");
}

#[test]
fn merge_reports_the_first_missing_source() {
    let mut store = setup();
    task(&mut store, "survivor", &[], "S.");
    let r = merge_tasks(&mut store, "demo", "survivor", &["gone1".to_string(), "gone2".to_string()]);
    assert_eq!(r, Err(Error::TaskNotFound("gone1".to_string())));
}

#[test]
fn create_phase_refuses_an_existing_stem_file() {
    let mut store = setup();
    roadmap_with(&mut store, "rm", &["core"]);
    let r = create_phase(&mut store, "demo", "rm", "core", "Core", Some(1), None, None);
    assert_eq!(r, Err(Error::DuplicateSlug("phase-1-core".to_string())));
    let d = create_phase(&mut store, "demo", "rm", "next", "Next", None, None, None).unwrap();
    assert_eq!(d.frontmatter.phase, 2);
}

#[test]
fn add_dependency_refuses_a_cycle() {
    let mut store = setup();
    roadmap_with(&mut store, "a", &[]);
    roadmap_with(&mut store, "b", &[]);
    add_dependency(&mut store, "demo", "a", "b").unwrap();
    let r = add_dependency(&mut store, "demo", "b", "a");
    assert!(matches!(r, Err(Error::CyclicDependency(_))));
}

#[test]
fn archive_with_force_succeeds_on_open_phases() {
    let mut store = setup();
    roadmap_with(&mut store, "rm", &["core"]);
    archive_roadmap(&mut store, "demo", "rm", true).unwrap();
    assert!(!store.file_exists(&paths::roadmap_path("demo", "rm")));
    assert!(store.file_exists(&paths::archived_roadmap_path("demo", "rm")));
}

#[test]
fn consolidate_into_missing_roadmap_is_refused() {
    let mut store = setup();
    task(&mut store, "t", &[], "Body.");
    let r = consolidate_task_into_roadmap(&mut store, "demo", "t", "nowhere", None);
    assert_eq!(r, Err(Error::RoadmapNotFound("nowhere".to_string())));
}

#[test]
fn consolidate_appends_the_phase_to_the_roadmap() {
    let mut store = setup();
    roadmap_with(&mut store, "rm", &["core"]);
    task(&mut store, "t", &[], "Body.");
    let (phase, _) = consolidate_task_into_roadmap(&mut store, "demo", "t", "rm", None).unwrap();
    assert_eq!(phase.frontmatter.phase, 2);
    let rm = io::load_roadmap(&store, "demo", "rm").unwrap();
    assert_eq!(rm.frontmatter.phases, vec!["phase-1-core".to_string(), "phase-2-t".to_string()]);
    assert!(store.file_exists(&paths::phase_path("demo", "rm", "phase-2-t")));
}

#[test]
fn report_scopes_every_section_to_the_tag() {
    let mut store = setup();
    task(&mut store, "t1", &["x"], "A.");
    task(&mut store, "t2", &["x"], "B.");
    task(&mut store, "t3", &["y"], "C.");
    let opts = ReportOptions { older_than_days: 60, tag: Some("x".to_string()) };
    let rep = report_at(&store, "demo", &opts, today(), vec![]).unwrap();
    assert_eq!(rep.tag_clusters.len(), 1);
    assert_eq!(rep.tag_clusters[0].tag, "x");
    assert_eq!(rep.tag_clusters[0].tasks.len(), 2);
    let all = ReportOptions { older_than_days: 60, tag: None };
    let rep = report_at(&store, "demo", &all, today(), vec![]).unwrap();
    assert_eq!(rep.tag_clusters.len(), 1);
}

fn ok_step(mut store: MemoryStore) -> (MemoryStore, rdm_core::error::Result<()>) {
    let r = create_roadmap(&mut store, "demo", "made", "Made", None, None).map(|_| ());
    (store, r)
}

fn bad_step(store: MemoryStore) -> (MemoryStore, rdm_core::error::Result<()>) {
    (store, Err(Error::EmptyTitle))
}

#[test]
fn mutate_batch_records_each_step_result() {
    let mut store = setup();
    let _ = store.delete(&paths::project_index_path("demo"));
    let steps: Vec<fn(MemoryStore) -> (MemoryStore, rdm_core::error::Result<()>)> = vec![bad_step, ok_step];
    let out = mutate_batch(&mut store, "demo", steps, |rs: &[rdm_core::error::Result<()>]| format!("{} steps", rs.len()));
    assert_eq!(out.step_results, vec![Err(Error::EmptyTitle), Ok(())]);
    assert_eq!(out.commit_message, Some("2 steps".to_string()));
    assert!(out.finalize_result.is_ok());
    assert!(store.file_exists(&paths::roadmap_path("demo", "made")));
    assert!(store.file_exists(&paths::project_index_path("demo")));
}

#[test]
fn mutate_batch_with_every_step_failing_regenerates_nothing() {
    let mut store = setup();
    let _ = store.delete(&paths::project_index_path("demo"));
    let steps: Vec<fn(MemoryStore) -> (MemoryStore, rdm_core::error::Result<()>)> = vec![bad_step, bad_step];
    let out = mutate_batch(&mut store, "demo", steps, |_: &[rdm_core::error::Result<()>]| "unused".to_string());
    assert_eq!(out.commit_message, None);
    assert!(out.finalize_result.is_ok());
    assert!(!store.file_exists(&paths::project_index_path("demo")));
    assert_eq!(out.step_results, vec![Err(Error::EmptyTitle), Err(Error::EmptyTitle)]);
}

use rdm_core::link::{BacklinkEntry, DocRef};
use rdm_core::ops::links::{implements_backlinks, project_bodies, structural_backlinks};

#[test]
fn structural_backlinks_follow_one_hop_each_once() {
    let target = ItemRef::Task { slug: "t".to_string() };
    let plans = vec![
        ("p1".to_string(), ItemRef::Task { slug: "t".to_string() }),
        ("p2".to_string(), ItemRef::Task { slug: "other".to_string() }),
    ];
    let p1 = ItemRef::Plan { slug: "p1".to_string() };
    let p2 = ItemRef::Plan { slug: "p2".to_string() };
    let reviews = vec![
        ("r1".to_string(), p1.clone(), p1.clone()),
        ("r2".to_string(), p2.clone(), p2.clone()),
        ("r3".to_string(), target.clone(), target.clone()),
        ("r1".to_string(), p1.clone(), p1.clone()),
    ];
    let out = structural_backlinks(&target, &plans, &reviews);
    assert_eq!(
        out,
        vec![
            BacklinkEntry { document: DocRef::Plan { slug: "p1".to_string() }, via: None },
            BacklinkEntry { document: DocRef::Review { id: "r3".to_string(), comment: None }, via: None },
            BacklinkEntry { document: DocRef::Review { id: "r1".to_string(), comment: None }, via: Some(p1.clone()) },
        ]
    );
}

#[test]
fn implements_backlinks_reads_plans_from_the_store() {
    let mut store = setup();
    task(&mut store, "t", &[], "Body.");
    create_plan(
        &mut store,
        CreatePlan {
            project: "demo",
            slug: "p1",
            title: "Plan",
            implements: ItemRef::Task { slug: "t".to_string() },
            supersedes: None,
            body: None,
        },
    )
    .unwrap();
    let reviews = vec![("r9".to_string(), ItemRef::Plan { slug: "p1".to_string() })];
    let out = implements_backlinks(&store, "demo", &ItemRef::Task { slug: "t".to_string() }, &reviews).unwrap();
    assert_eq!(out.len(), 2);
    assert_eq!(out[0].document, DocRef::Plan { slug: "p1".to_string() });
    assert_eq!(out[1].via, Some(ItemRef::Plan { slug: "p1".to_string() }));
}

#[test]
fn project_bodies_visit_every_document_in_order() {
    let mut store = setup();
    roadmap_with(&mut store, "rm", &["core"]);
    task(&mut store, "t", &[], "Task body.");
    let bodies = project_bodies(&store, "demo").unwrap();
    let docs: Vec<DocRef> = bodies.iter().map(|b| b.0.clone()).collect();
    assert_eq!(
        docs,
        vec![
            DocRef::Roadmap { roadmap: "rm".to_string() },
            DocRef::Phase { roadmap: "rm".to_string(), stem: "phase-1-core".to_string() },
            DocRef::Task { slug: "t".to_string() },
        ]
    );
    assert_eq!(bodies[2].1, "Task body.");
}

use rdm_core::ops::links::load_document_body;

#[test]
fn load_document_body_resolves_numeric_phase_stem() {
    let mut store = setup();
    create_roadmap(&mut store, "demo", "auth", "Auth", None, None).unwrap();
    create_phase(&mut store, "demo", "auth", "design", "Design", Some(1), Some("Phase body."), None).unwrap();
    let (doc_ref, body, _commit) = load_document_body(
        &store,
        "demo",
        &ItemRef::Phase { roadmap: "auth".to_string(), stem: "1".to_string() },
    )
    .unwrap();
    assert_eq!(doc_ref, DocRef::Phase { roadmap: "auth".to_string(), stem: "phase-1-design".to_string() });
    assert_eq!(body.trim(), "Phase body.");
}

#[test]
fn load_document_body_refuses_a_missing_task() {
    let store = setup();
    let r = load_document_body(&store, "demo", &ItemRef::Task { slug: "nope".to_string() });
    assert_eq!(r, Err(Error::TaskNotFound("nope".to_string())));
}

#[test]
fn gate_refuses_an_override_reason_of_unicode_spaces() {
    let none: Vec<String> = vec![];
    let cands: Vec<(String, String, Option<String>)> = vec![];
    let r = gate_decide(true, Some(("\u{3000}\u{a0}", "me")), "task/t", &none, &cands, &None, today());
    assert!(matches!(r, Err(Error::GateOverrideEmptyReason)));
}

#[test]
fn split_with_a_missing_dependency_fails_after_the_split() {
    let mut store = setup();
    roadmap_with(&mut store, "big", &["a", "b"]);
    let r = split_roadmap(
        &mut store,
        "demo",
        "big",
        "small",
        "Small",
        &["phase-1-a".to_string()],
        Some("ghost"),
    );
    assert!(matches!(r, Err(Error::RoadmapNotFound(ref n)) if n == "ghost"));
    let small = io::load_roadmap(&store, "demo", "small").unwrap();
    assert_eq!(small.frontmatter.phases, vec!["phase-1-a".to_string()]);
    assert_eq!(small.frontmatter.dependencies, None);
    let big = io::load_roadmap(&store, "demo", "big").unwrap();
    assert_eq!(big.frontmatter.phases, vec!["phase-1-b".to_string()]);
}

#[test]
fn merge_stops_at_an_unreadable_source() {
    let mut store = setup();
    task(&mut store, "survivor", &["a"], "S.");
    task(&mut store, "first", &["b"], "F.");
    task(&mut store, "broken", &[], "B.");
    store.write(&paths::task_path("demo", "broken"), "not a task".to_string()).unwrap();
    let before = io::load_task(&store, "demo", "survivor").unwrap();
    let sources = vec!["first".to_string(), "broken".to_string()];
    let r = merge_tasks(&mut store, "demo", "survivor", &sources);
    assert!(matches!(r, Err(Error::FrontmatterParse(_))));
    let first = io::load_task(&store, "demo", "first").unwrap();
    assert_eq!(first.frontmatter.status, TaskStatus::WontFix);
    assert_eq!(first.frontmatter.close_reason, Some("superseded by task/survivor".to_string()));
    let survivor = io::load_task(&store, "demo", "survivor").unwrap();
    assert_eq!(survivor.frontmatter.tags, Some(vec!["a".to_string()]));
    assert_eq!(survivor.body, before.body);
}

#[test]
fn resolving_an_unused_phase_number_is_phase_not_found() {
    let mut store = setup();
    roadmap_with(&mut store, "rm", &["a", "b"]);
    let r = rdm_core::ops::phase::resolve_phase_stem(&store, "demo", "rm", "7");
    assert!(matches!(r, Err(Error::PhaseNotFound(ref n)) if n == "7"));
    assert_eq!(rdm_core::ops::phase::resolve_phase_stem(&store, "demo", "rm", "2").unwrap(), "phase-2-b");
}

#[test]
fn update_task_refuses_a_blank_title_before_an_emptying_body() {
    let mut store = setup();
    task(&mut store, "t", &[], "Some body.");
    let r = rdm_core::ops::task::update_task(
        &mut store,
        "demo",
        "t",
        None,
        None,
        rdm_core::ops::update::TagsUpdate::Keep,
        rdm_core::ops::update::BodyUpdate::SetTo(String::new()),
        None,
        None,
        None,
        rdm_core::ops::update::TitleUpdate::SetTo("  ".to_string()),
    );
    assert_eq!(r.unwrap_err(), Error::EmptyTitle);
    let r = rdm_core::ops::task::update_task(
        &mut store,
        "demo",
        "t",
        None,
        None,
        rdm_core::ops::update::TagsUpdate::Keep,
        rdm_core::ops::update::BodyUpdate::SetTo(String::new()),
        None,
        None,
        None,
        rdm_core::ops::update::TitleUpdate::SetTo("New title".to_string()),
    );
    assert_eq!(r.unwrap_err(), Error::BodyClobberRefused);
    assert_eq!(io::load_task(&store, "demo", "t").unwrap().frontmatter.title, "t");
}

#[test]
fn update_phase_refuses_an_emptying_body() {
    let mut store = setup();
    roadmap_with(&mut store, "rm", &["a"]);
    rdm_core::ops::phase::update_phase(
        &mut store,
        "demo",
        "rm",
        "phase-1-a",
        None,
        rdm_core::ops::update::TagsUpdate::Keep,
        rdm_core::ops::update::BodyUpdate::SetTo("Notes.".to_string()),
        None,
        None,
    )
    .unwrap();
    let r = rdm_core::ops::phase::update_phase(
        &mut store,
        "demo",
        "rm",
        "phase-1-a",
        None,
        rdm_core::ops::update::TagsUpdate::Keep,
        rdm_core::ops::update::BodyUpdate::SetTo(String::new()),
        None,
        None,
    );
    assert_eq!(r.unwrap_err(), Error::BodyClobberRefused);
}

#[test]
fn add_comment_to_a_submitted_review_at_the_largest_id_is_not_draft() {
    let mut store = setup();
    task(&mut store, "t", &[], "Body.");
    let mut doc = create_review(
        &mut store,
        CreateReview {
            project: "demo",
            author: "ed",
            target: ReviewTarget::Task { slug: "t".to_string() },
            body: Some("Summary."),
        },
        &vec![0x1a2b, 0x3c4d],
    )
    .unwrap();
    let id = doc.frontmatter.id.clone();
    doc.frontmatter.state = ReviewState::Submitted;
    doc.frontmatter.comments.push(ReviewComment {
        id: u32::MAX,
        doc: None,
        status: ReviewCommentStatus::Open,
        applied_commit: None,
        anchor: None,
        body: "Last.".to_string(),
        reply: None,
    });
    io::write_review(&mut store, "demo", &id, &doc);
    let r = add_comment(
        &mut store,
        AddComment { project: "demo", review_id: &id, body: "One more.", doc: None, anchor: None },
    );
    assert!(matches!(r, Err(Error::ReviewNotDraft(ref n)) if n == &id));
}
