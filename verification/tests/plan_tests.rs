use rdm_core::error::Error;
use rdm_core::io;
use rdm_core::link::ItemRef;
use rdm_core::model::{
    Date, Document, Phase, PhaseStatus, PlanStatus, Priority, Project, Roadmap, Task, TaskStatus,
};
use rdm_core::ops::plan::{
    create_plan, delete_plan, filter_plans, list_plans, plan_matches, plans_implementing,
    set_plan_status, update_plan, CreatePlan, PlanFilter,
};
use rdm_core::ops::update::{BodyUpdate, TitleUpdate};
use rdm_core::paths;
use rdm_core::store::MemoryStore;

fn setup_store() -> MemoryStore {
    let mut store = MemoryStore::new();
    io::write_project(
        &mut store,
        "test",
        &Document {
            frontmatter: Project {
                name: "test".to_string(),
                title: "Test Project".to_string(),
                source: None,
            },
            body: String::new(),
        },
    );
    io::write_roadmap(
        &mut store,
        "test",
        "auth",
        &Document {
            frontmatter: Roadmap {
                project: "test".to_string(),
                roadmap: "auth".to_string(),
                title: "Auth".to_string(),
                phases: vec!["phase-2-ship".to_string()],
                dependencies: None,
                priority: None,
                tags: None,
            },
            body: String::new(),
        },
    );
    io::write_phase(
        &mut store,
        "test",
        "auth",
        "phase-2-ship",
        &Document {
            frontmatter: Phase {
                phase: 2,
                title: "Ship".to_string(),
                status: PhaseStatus::NotStarted,
                tags: None,
                completed: None,
                commit: None,
                review_sha: None,
                review_branch: None,
                difficulty: None,
                model: None,
                blocked_reason: None,
            },
            body: String::new(),
        },
    );
    io::write_task(
        &mut store,
        "test",
        "fix-login",
        &Document {
            frontmatter: Task {
                project: "test".to_string(),
                title: "Fix login".to_string(),
                status: TaskStatus::Open,
                priority: Priority::Medium,
                created: Date::new(2026, 7, 1),
                tags: None,
                completed: None,
                commit: None,
                review_sha: None,
                review_branch: None,
                close_reason: None,
            },
            body: String::new(),
        },
    );
    store
}

fn task_ref() -> ItemRef {
    ItemRef::Task {
        slug: "fix-login".to_string(),
    }
}

fn phase_ref(stem: &str) -> ItemRef {
    ItemRef::Phase {
        roadmap: "auth".to_string(),
        stem: stem.to_string(),
    }
}

fn create(store: &mut MemoryStore, slug: &str, implements: ItemRef) -> Result<Document<rdm_core::model::Plan>, Error> {
    create_plan(
        store,
        CreatePlan {
            project: "test",
            slug,
            title: "A plan",
            implements,
            supersedes: None,
            body: Some("## Approach\n\nDetails.\n"),
        },
    )
}

#[test]
fn create_plan_writes_a_draft() {
    let mut store = setup_store();
    let doc = create(&mut store, "impl-login", task_ref()).unwrap();
    assert_eq!(doc.frontmatter.status, PlanStatus::Draft);
    assert_eq!(doc.frontmatter.plan, "impl-login");
    assert_eq!(doc.frontmatter.created, doc.frontmatter.updated);
    let loaded = io::load_plan(&store, "test", "impl-login").unwrap();
    assert_eq!(loaded, doc);
}

#[test]
fn create_plan_rejects_missing_implements_target() {
    let mut store = setup_store();
    let err = create(
        &mut store,
        "impl-ghost",
        ItemRef::Task {
            slug: "no-such-task".to_string(),
        },
    )
    .unwrap_err();
    assert!(matches!(err, Error::PlanImplementsMissing(ref l) if l == "task/no-such-task"), "{err:?}");
    assert!(!store.file_exists(&paths::plan_path("test", "impl-ghost")));
}

#[test]
fn create_plan_rejects_roadmap_implements_kind() {
    let mut store = setup_store();
    let err = create(
        &mut store,
        "impl-auth",
        ItemRef::Roadmap {
            roadmap: "auth".to_string(),
        },
    )
    .unwrap_err();
    assert!(matches!(err, Error::PlanImplementsInvalidKind(ref l) if l == "roadmap/auth"), "{err:?}");
}

#[test]
fn create_plan_rejects_plan_implements_kind() {
    let mut store = setup_store();
    create(&mut store, "impl-login", task_ref()).unwrap();
    let err = create(
        &mut store,
        "impl-meta",
        ItemRef::Plan {
            slug: "impl-login".to_string(),
        },
    )
    .unwrap_err();
    assert!(matches!(err, Error::PlanImplementsInvalidKind(_)), "{err:?}");
}

#[test]
fn create_plan_normalizes_numeric_phase_stem() {
    let mut store = setup_store();
    let doc = create(&mut store, "impl-ship", phase_ref("2")).unwrap();
    assert_eq!(doc.frontmatter.implements, phase_ref("phase-2-ship"));
}

#[test]
fn create_plan_rejects_a_duplicate_slug() {
    let mut store = setup_store();
    create(&mut store, "impl-login", task_ref()).unwrap();
    let err = create(&mut store, "impl-login", task_ref()).unwrap_err();
    assert!(matches!(err, Error::PlanExists(_)), "{err:?}");
}

#[test]
fn create_plan_rejects_an_unknown_project() {
    let mut store = MemoryStore::new();
    let err = create(&mut store, "impl-login", task_ref()).unwrap_err();
    assert!(matches!(err, Error::ProjectNotFound(_)), "{err:?}");
}

#[test]
fn create_plan_with_supersedes_flips_only_the_named_predecessor() {
    let mut store = setup_store();
    create(&mut store, "plan-a", task_ref()).unwrap();
    create(&mut store, "plan-b", task_ref()).unwrap();
    create_plan(
        &mut store,
        CreatePlan {
            project: "test",
            slug: "plan-c",
            title: "Third attempt",
            implements: task_ref(),
            supersedes: Some(ItemRef::Plan {
                slug: "plan-b".to_string(),
            }),
            body: None,
        },
    )
    .unwrap();
    let a = io::load_plan(&store, "test", "plan-a").unwrap();
    let b = io::load_plan(&store, "test", "plan-b").unwrap();
    let c = io::load_plan(&store, "test", "plan-c").unwrap();
    assert_eq!(a.frontmatter.status, PlanStatus::Draft, "A is untouched");
    assert_eq!(b.frontmatter.status, PlanStatus::Superseded);
    assert_eq!(c.frontmatter.status, PlanStatus::Draft);
}

fn supersede(store: &mut MemoryStore, slug: &str, supersedes: ItemRef) -> Error {
    create_plan(
        store,
        CreatePlan {
            project: "test",
            slug,
            title: "B",
            implements: task_ref(),
            supersedes: Some(supersedes),
            body: None,
        },
    )
    .unwrap_err()
}

#[test]
fn create_plan_rejects_self_supersede() {
    let mut store = setup_store();
    let err = supersede(
        &mut store,
        "plan-a",
        ItemRef::Plan {
            slug: "plan-a".to_string(),
        },
    );
    assert!(matches!(err, Error::PlanSupersedesSelf(_)), "{err:?}");
    assert!(!store.file_exists(&paths::plan_path("test", "plan-a")));
}

#[test]
fn create_plan_rejects_missing_supersede_target() {
    let mut store = setup_store();
    let err = supersede(
        &mut store,
        "plan-b",
        ItemRef::Plan {
            slug: "no-such-plan".to_string(),
        },
    );
    assert!(matches!(err, Error::PlanSupersedesMissing(_)), "{err:?}");
    assert!(!store.file_exists(&paths::plan_path("test", "plan-b")));
}

#[test]
fn create_plan_rejects_a_non_plan_supersede_kind() {
    let mut store = setup_store();
    let err = supersede(&mut store, "plan-b", task_ref());
    assert!(matches!(err, Error::PlanSupersedesInvalidKind(_)), "{err:?}");
    let rendered = err.message();
    assert!(rendered.contains("--supersedes plan/<slug>"), "{rendered}");
    assert!(!rendered.contains("--implements"), "{rendered}");
}

#[test]
fn set_plan_status_never_downgrades_superseded() {
    let mut store = setup_store();
    create(&mut store, "plan-a", task_ref()).unwrap();
    set_plan_status(&mut store, "test", "plan-a", PlanStatus::Superseded).unwrap();
    let doc = set_plan_status(&mut store, "test", "plan-a", PlanStatus::Approved).unwrap();
    assert_eq!(doc.frontmatter.status, PlanStatus::Superseded);
    let loaded = io::load_plan(&store, "test", "plan-a").unwrap();
    assert_eq!(loaded.frontmatter.status, PlanStatus::Superseded);
}

#[test]
fn set_plan_status_is_idempotent() {
    let mut store = setup_store();
    create(&mut store, "plan-a", task_ref()).unwrap();
    set_plan_status(&mut store, "test", "plan-a", PlanStatus::Approved).unwrap();
    let doc = set_plan_status(&mut store, "test", "plan-a", PlanStatus::Approved).unwrap();
    assert_eq!(doc.frontmatter.status, PlanStatus::Approved);
}

#[test]
fn list_plans_missing_dir_is_empty() {
    let store = setup_store();
    assert!(list_plans(&store, "test").unwrap().is_empty());
}

#[test]
fn list_plans_is_slug_sorted() {
    let mut store = setup_store();
    for slug in ["zz-last", "aa-first", "mm-middle"] {
        create(&mut store, slug, task_ref()).unwrap();
    }
    let slugs: Vec<String> = list_plans(&store, "test")
        .unwrap()
        .into_iter()
        .map(|(s, _)| s)
        .collect();
    assert_eq!(slugs, ["aa-first", "mm-middle", "zz-last"]);
}

#[test]
fn plans_implementing_matches_across_numeric_and_canonical_stems() {
    let mut store = setup_store();
    create(&mut store, "impl-numeric", phase_ref("2")).unwrap();
    create(&mut store, "impl-canonical", phase_ref("phase-2-ship")).unwrap();
    create(&mut store, "impl-login", task_ref()).unwrap();
    for query in ["2", "phase-2-ship"] {
        let found = plans_implementing(&store, "test", &phase_ref(query)).unwrap();
        let slugs: Vec<String> = found.into_iter().map(|(s, _)| s).collect();
        assert_eq!(slugs, ["impl-canonical", "impl-numeric"], "query {query}");
    }
}

#[test]
fn plans_implementing_is_empty_for_an_unimplemented_item() {
    let mut store = setup_store();
    create(&mut store, "impl-login", task_ref()).unwrap();
    let found = plans_implementing(&store, "test", &phase_ref("phase-2-ship")).unwrap();
    assert!(found.is_empty());
}

#[test]
fn filter_plans_narrows_by_status() {
    let mut store = setup_store();
    create(&mut store, "plan-a", task_ref()).unwrap();
    create(&mut store, "plan-b", task_ref()).unwrap();
    set_plan_status(&mut store, "test", "plan-b", PlanStatus::Approved).unwrap();
    let kept = filter_plans(
        &store,
        "test",
        list_plans(&store, "test").unwrap(),
        &PlanFilter {
            implements: None,
            status: Some(PlanStatus::Approved),
        },
    )
    .unwrap();
    let slugs: Vec<String> = kept.into_iter().map(|(s, _)| s).collect();
    assert_eq!(slugs, ["plan-b"]);
}

#[test]
fn plan_matches_checks_status_then_implements() {
    let mut store = setup_store();
    let plan = create(&mut store, "plan-a", phase_ref("2")).unwrap().frontmatter;
    assert!(plan_matches(&store, "test", &plan, &PlanFilter::default()).unwrap());
    let by_number = PlanFilter {
        implements: Some(phase_ref("2")),
        status: Some(PlanStatus::Draft),
    };
    assert!(plan_matches(&store, "test", &plan, &by_number).unwrap());
    let approved = PlanFilter {
        implements: None,
        status: Some(PlanStatus::Approved),
    };
    assert!(!plan_matches(&store, "test", &plan, &approved).unwrap());
    let other = PlanFilter {
        implements: Some(task_ref()),
        status: None,
    };
    assert!(!plan_matches(&store, "test", &plan, &other).unwrap());
}

#[test]
fn update_plan_sets_title_and_body() {
    let mut store = setup_store();
    create(&mut store, "plan-a", task_ref()).unwrap();
    let doc = update_plan(
        &mut store,
        "test",
        "plan-a",
        TitleUpdate::SetTo("Renamed".to_string()),
        BodyUpdate::SetTo("New body.\n".to_string()),
    )
    .unwrap();
    assert_eq!(doc.frontmatter.title, "Renamed");
    assert_eq!(doc.body, "New body.\n");
    assert_eq!(doc.frontmatter.plan, "plan-a");
}

#[test]
fn update_plan_refuses_an_empty_body_clobber() {
    let mut store = setup_store();
    create(&mut store, "plan-a", task_ref()).unwrap();
    let err = update_plan(
        &mut store,
        "test",
        "plan-a",
        TitleUpdate::Keep,
        BodyUpdate::SetTo(String::new()),
    )
    .unwrap_err();
    assert!(matches!(err, Error::BodyClobberRefused), "{err:?}");
}

#[test]
fn update_plan_clear_body_succeeds() {
    let mut store = setup_store();
    create(&mut store, "plan-a", task_ref()).unwrap();
    let doc = update_plan(&mut store, "test", "plan-a", TitleUpdate::Keep, BodyUpdate::Clear).unwrap();
    assert!(doc.body.is_empty());
}

#[test]
fn update_plan_unknown_slug_errors() {
    let mut store = setup_store();
    let err = update_plan(&mut store, "test", "nope", TitleUpdate::Keep, BodyUpdate::Keep).unwrap_err();
    assert!(matches!(err, Error::PlanNotFound(_)), "{err:?}");
}

#[test]
fn delete_plan_removes_the_file() {
    let mut store = setup_store();
    create(&mut store, "plan-a", task_ref()).unwrap();
    delete_plan(&mut store, "test", "plan-a").unwrap();
    assert!(!store.file_exists(&paths::plan_path("test", "plan-a")));
    assert!(matches!(delete_plan(&mut store, "test", "plan-a"), Err(Error::PlanNotFound(_))));
}
