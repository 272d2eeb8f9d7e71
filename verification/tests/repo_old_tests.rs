// Two index tests of this older suite, `generate_index_creates_file` and
// `generate_index_task_priority_ordering`, are not here: they expect the
// project's sections inlined in the top-level INDEX.md, while the current
// suite (`tests_generate_index_creates_file`,
// `generate_index_task_priority_ordering_in_project_index`) asserts that the
// top-level index only links each project's own INDEX.md.

use rdm_core::config::Config;
use rdm_core::error::Error;
use rdm_core::model::{
    Date, Document, Phase, PhaseStatus, Priority, Roadmap, Task, TaskStatus,
};
use rdm_core::repo::PlanRepo;
use rdm_core::store::MemoryStore;

fn make_repo() -> PlanRepo<MemoryStore> {
    PlanRepo::new(MemoryStore::new())
}

// -- Path builder tests --

#[test]
fn repo_roadmap_path_is_correct() {
    let repo = make_repo();
    let path = repo.roadmap_path("fbm", "two-way-players");
    assert_eq!(
        path.as_str(),
        "projects/fbm/roadmaps/two-way-players/roadmap.md"
    );
}

#[test]
fn repo_phase_path_is_correct() {
    let repo = make_repo();
    let path = repo.phase_path("fbm", "two-way-players", "phase-1-core-valuation");
    assert_eq!(
        path.as_str(),
        "projects/fbm/roadmaps/two-way-players/phase-1-core-valuation.md"
    );
}

#[test]
fn repo_task_path_is_correct() {
    let repo = make_repo();
    let path = repo.task_path("fbm", "fix-barrel-nulls");
    assert_eq!(path.as_str(), "projects/fbm/tasks/fix-barrel-nulls.md");
}

// -- Write + Load round-trip tests --

#[test]
fn repo_write_and_load_roadmap() {
    let mut repo = make_repo();
    let doc = Document {
        frontmatter: Roadmap {
            project: "fbm".to_string(),
            roadmap: "two-way-players".to_string(),
            title: "Two-Way Player Identity".to_string(),
            phases: vec![
                "phase-1-core-valuation".to_string(),
                "phase-2-keeper-service".to_string(),
            ],
            dependencies: Some(vec!["keeper-surplus-value".to_string()]),
            priority: None,
            tags: None,
        },
        body: "Summary here.\n".to_string(),
    };
    repo.write_roadmap("fbm", "two-way-players", &doc).unwrap();
    let loaded = repo.load_roadmap("fbm", "two-way-players").unwrap();
    assert_eq!(loaded.frontmatter, doc.frontmatter);
    assert_eq!(loaded.body, doc.body);
}

#[test]
fn repo_write_and_load_phase() {
    let mut repo = make_repo();
    let doc = Document {
        frontmatter: Phase {
            phase: 1,
            title: "Core valuation layer".to_string(),
            status: PhaseStatus::Done,
            completed: Some(Date::new(2026, 3, 13)),
            tags: None,
            commit: None,
            review_sha: None,
            review_branch: None,
            difficulty: None,
            model: None,
            blocked_reason: None,
        },
        body: "## Steps\n\n1. Do things.\n".to_string(),
    };
    repo.write_phase("fbm", "two-way-players", "phase-1-core-valuation", &doc)
        .unwrap();
    let loaded = repo
        .load_phase("fbm", "two-way-players", "phase-1-core-valuation")
        .unwrap();
    assert_eq!(loaded.frontmatter, doc.frontmatter);
    assert_eq!(loaded.body, doc.body);
}

#[test]
fn repo_write_and_load_task() {
    let mut repo = make_repo();
    let doc = Document {
        frontmatter: Task {
            project: "fbm".to_string(),
            title: "Fix barrel column".to_string(),
            status: TaskStatus::Open,
            priority: Priority::High,
            created: Date::new(2026, 3, 14),
            tags: Some(vec!["data".to_string()]),
            completed: None,
            commit: None,
            review_sha: None,
            review_branch: None,
            close_reason: None,
        },
        body: "Details.\n".to_string(),
    };
    repo.write_task("fbm", "fix-barrel-nulls", &doc).unwrap();
    let loaded = repo.load_task("fbm", "fix-barrel-nulls").unwrap();
    assert_eq!(loaded.frontmatter, doc.frontmatter);
    assert_eq!(loaded.body, doc.body);
}

#[test]
fn repo_load_project_success() {
    let mut repo = PlanRepo::init(MemoryStore::new()).unwrap();
    repo.create_project("fbm", "Fantasy Baseball Manager")
        .unwrap();
    let doc = repo.load_project("fbm").unwrap();
    assert_eq!(doc.frontmatter.name, "fbm");
    assert_eq!(doc.frontmatter.title, "Fantasy Baseball Manager");
}

#[test]
fn repo_load_project_not_found() {
    let repo = PlanRepo::init(MemoryStore::new()).unwrap();
    let result = repo.load_project("nonexistent");
    assert!(matches!(result, Err(Error::ProjectNotFound(ref s)) if s == "nonexistent"));
}

#[test]
fn repo_load_roadmap_not_found() {
    let repo = make_repo();
    let result = repo.load_roadmap("fbm", "nonexistent");
    assert!(matches!(result, Err(Error::RoadmapNotFound(ref s)) if s == "nonexistent"));
}

#[test]
fn repo_load_task_not_found() {
    let repo = make_repo();
    let result = repo.load_task("fbm", "does-not-exist");
    assert!(matches!(result, Err(Error::TaskNotFound(ref s)) if s == "does-not-exist"));
}

// -- Init tests --

#[test]
fn repo_init_creates_structure() {
    let repo = PlanRepo::init(MemoryStore::new()).unwrap();

    assert!(repo.store().file_exists(&repo.config_path()));
    assert!(repo.store().file_exists(&repo.index_path()));

    // Config should be parseable
    let toml_str = repo.store().read(&repo.config_path()).unwrap();
    Config::from_toml(&toml_str).unwrap();
}

#[test]
fn repo_load_config_after_init() {
    let repo = PlanRepo::init(MemoryStore::new()).unwrap();
    let config = repo.load_config().unwrap();
    assert_eq!(config.default_project, None);
}

#[test]
fn repo_load_config_not_found() {
    let repo = make_repo();
    let result = repo.load_config();
    assert!(matches!(result, Err(Error::ConfigNotFound)));
}

// -- Project tests --

#[test]
fn repo_create_project_success() {
    let mut repo = PlanRepo::init(MemoryStore::new()).unwrap();
    repo.create_project("fbm", "Fantasy Baseball Manager")
        .unwrap();

    assert!(repo.store().file_exists(&repo.project_md_path("fbm")));
}

#[test]
fn repo_create_project_duplicate() {
    let mut repo = PlanRepo::init(MemoryStore::new()).unwrap();
    repo.create_project("fbm", "Fantasy Baseball Manager")
        .unwrap();
    let result = repo.create_project("fbm", "Duplicate");
    assert!(matches!(result, Err(Error::DuplicateSlug(ref s)) if s == "fbm"));
}

#[test]
fn repo_list_projects_empty() {
    let repo = PlanRepo::init(MemoryStore::new()).unwrap();
    assert_eq!(repo.list_projects().unwrap(), Vec::<String>::new());
}

#[test]
fn repo_list_projects_sorted() {
    let mut repo = PlanRepo::init(MemoryStore::new()).unwrap();
    repo.create_project("zzz", "Last").unwrap();
    repo.create_project("aaa", "First").unwrap();
    repo.create_project("mmm", "Middle").unwrap();
    let projects = repo.list_projects().unwrap();
    assert_eq!(projects, vec!["aaa", "mmm", "zzz"]);
}

// -- Roadmap tests --

#[test]
fn repo_create_roadmap_success() {
    let mut repo = PlanRepo::init(MemoryStore::new()).unwrap();
    repo.create_project("fbm", "FBM").unwrap();
    let doc = repo
        .create_roadmap("fbm", "two-way", "Two-Way Players", None)
        .unwrap();
    assert_eq!(doc.frontmatter.project, "fbm");
    assert_eq!(doc.frontmatter.roadmap, "two-way");
    assert_eq!(doc.frontmatter.title, "Two-Way Players");
    assert!(doc.frontmatter.phases.is_empty());

    // Should be loadable
    let loaded = repo.load_roadmap("fbm", "two-way").unwrap();
    assert_eq!(loaded.frontmatter, doc.frontmatter);
}

#[test]
fn repo_create_roadmap_with_body() {
    let mut repo = PlanRepo::init(MemoryStore::new()).unwrap();
    repo.create_project("fbm", "FBM").unwrap();
    let body = "# Description\n\nA roadmap for two-way players.\n";
    let doc = repo
        .create_roadmap("fbm", "two-way", "Two-Way Players", Some(body))
        .unwrap();
    assert_eq!(doc.body, body);

    let loaded = repo.load_roadmap("fbm", "two-way").unwrap();
    assert_eq!(loaded.body, body);
}

#[test]
fn repo_create_roadmap_project_not_found() {
    let mut repo = PlanRepo::init(MemoryStore::new()).unwrap();
    let result = repo.create_roadmap("nope", "slug", "Title", None);
    assert!(matches!(result, Err(Error::ProjectNotFound(_))));
}

#[test]
fn repo_create_roadmap_duplicate() {
    let mut repo = PlanRepo::init(MemoryStore::new()).unwrap();
    repo.create_project("fbm", "FBM").unwrap();
    repo.create_roadmap("fbm", "two-way", "Two-Way Players", None)
        .unwrap();
    let result = repo.create_roadmap("fbm", "two-way", "Dup", None);
    assert!(matches!(result, Err(Error::DuplicateSlug(_))));
}

#[test]
fn repo_update_roadmap_body_replaces_existing() {
    let mut repo = PlanRepo::init(MemoryStore::new()).unwrap();
    repo.create_project("fbm", "FBM").unwrap();
    repo.create_roadmap("fbm", "two-way", "Two-Way", Some("Original.\n"))
        .unwrap();
    let updated = repo
        .update_roadmap("fbm", "two-way", Some("Replaced.\n"))
        .unwrap();
    assert_eq!(updated.body, "Replaced.\n");

    let loaded = repo.load_roadmap("fbm", "two-way").unwrap();
    assert_eq!(loaded.body, "Replaced.\n");
}

#[test]
fn repo_update_roadmap_none_body_preserves_existing() {
    let mut repo = PlanRepo::init(MemoryStore::new()).unwrap();
    repo.create_project("fbm", "FBM").unwrap();
    repo.create_roadmap("fbm", "two-way", "Two-Way", Some("Keep this.\n"))
        .unwrap();
    let updated = repo.update_roadmap("fbm", "two-way", None).unwrap();
    assert_eq!(updated.body, "Keep this.\n");
}

#[test]
fn repo_update_roadmap_not_found() {
    let mut repo = PlanRepo::init(MemoryStore::new()).unwrap();
    repo.create_project("fbm", "FBM").unwrap();
    let result = repo.update_roadmap("fbm", "nope", Some("body"));
    assert!(matches!(result, Err(Error::RoadmapNotFound(_))));
}

#[test]
fn repo_list_roadmaps_sorted() {
    let mut repo = PlanRepo::init(MemoryStore::new()).unwrap();
    repo.create_project("fbm", "FBM").unwrap();
    repo.create_roadmap("fbm", "zzz-road", "Z", None).unwrap();
    repo.create_roadmap("fbm", "aaa-road", "A", None).unwrap();
    let roadmaps = repo.list_roadmaps("fbm").unwrap();
    assert_eq!(roadmaps.len(), 2);
    assert_eq!(roadmaps[0].frontmatter.roadmap, "aaa-road");
    assert_eq!(roadmaps[1].frontmatter.roadmap, "zzz-road");
}

#[test]
fn repo_list_roadmaps_empty() {
    let mut repo = PlanRepo::init(MemoryStore::new()).unwrap();
    repo.create_project("fbm", "FBM").unwrap();
    let roadmaps = repo.list_roadmaps("fbm").unwrap();
    assert!(roadmaps.is_empty());
}

#[test]
fn repo_list_roadmaps_project_not_found() {
    let repo = PlanRepo::init(MemoryStore::new()).unwrap();
    let result = repo.list_roadmaps("nope");
    assert!(matches!(result, Err(Error::ProjectNotFound(_))));
}

// -- Phase tests --

fn setup_with_roadmap() -> PlanRepo<MemoryStore> {
    let mut repo = PlanRepo::init(MemoryStore::new()).unwrap();
    repo.create_project("fbm", "FBM").unwrap();
    repo.create_roadmap("fbm", "two-way", "Two-Way Players", None)
        .unwrap();
    repo
}

#[test]
fn repo_create_phase_auto_number() {
    let mut repo = setup_with_roadmap();
    let doc = repo
        .create_phase("fbm", "two-way", "core", "Core Valuation", None, None)
        .unwrap();
    assert_eq!(doc.frontmatter.phase, 1);
    assert_eq!(doc.frontmatter.status, PhaseStatus::NotStarted);

    let doc2 = repo
        .create_phase("fbm", "two-way", "service", "Keeper Service", None, None)
        .unwrap();
    assert_eq!(doc2.frontmatter.phase, 2);

    // Verify roadmap phases list was updated
    let roadmap = repo.load_roadmap("fbm", "two-way").unwrap();
    assert_eq!(
        roadmap.frontmatter.phases,
        vec!["phase-1-core", "phase-2-service"]
    );
}

#[test]
fn repo_create_phase_explicit_number() {
    let mut repo = setup_with_roadmap();
    let doc = repo
        .create_phase("fbm", "two-way", "core", "Core", Some(5), None)
        .unwrap();
    assert_eq!(doc.frontmatter.phase, 5);

    // Stem should be phase-5-core
    let loaded = repo.load_phase("fbm", "two-way", "phase-5-core").unwrap();
    assert_eq!(loaded.frontmatter, doc.frontmatter);
}

#[test]
fn repo_create_phase_with_body() {
    let mut repo = setup_with_roadmap();
    let body = "## Acceptance Criteria\n\n- [ ] Criterion one\n- [ ] Criterion two\n";
    let doc = repo
        .create_phase("fbm", "two-way", "core", "Core", None, Some(body))
        .unwrap();
    assert_eq!(doc.body, body);

    let loaded = repo.load_phase("fbm", "two-way", "phase-1-core").unwrap();
    assert_eq!(loaded.body, body);
}

#[test]
fn repo_create_phase_roadmap_not_found() {
    let mut repo = PlanRepo::init(MemoryStore::new()).unwrap();
    repo.create_project("fbm", "FBM").unwrap();
    let result = repo.create_phase("fbm", "nope", "s", "T", None, None);
    assert!(matches!(result, Err(Error::RoadmapNotFound(_))));
}

#[test]
fn repo_list_phases_sorted() {
    let mut repo = setup_with_roadmap();
    repo.create_phase("fbm", "two-way", "core", "Core", Some(2), None)
        .unwrap();
    repo.create_phase("fbm", "two-way", "service", "Service", Some(1), None)
        .unwrap();
    let phases = repo.list_phases("fbm", "two-way").unwrap();
    assert_eq!(phases.len(), 2);
    assert_eq!(phases[0].1.frontmatter.phase, 1);
    assert_eq!(phases[1].1.frontmatter.phase, 2);
}

#[test]
fn repo_update_phase_to_done_sets_completed() {
    let mut repo = setup_with_roadmap();
    repo.create_phase("fbm", "two-way", "core", "Core", None, None)
        .unwrap();
    let updated = repo
        .update_phase(
            "fbm",
            "two-way",
            "phase-1-core",
            Some(PhaseStatus::Done),
            None,
            None,
        )
        .unwrap();
    assert_eq!(updated.frontmatter.status, PhaseStatus::Done);
    assert!(updated.frontmatter.completed.is_some());
}

#[test]
fn repo_update_phase_from_done_clears_completed() {
    let mut repo = setup_with_roadmap();
    repo.create_phase("fbm", "two-way", "core", "Core", None, None)
        .unwrap();
    repo.update_phase(
        "fbm",
        "two-way",
        "phase-1-core",
        Some(PhaseStatus::Done),
        None,
        None,
    )
    .unwrap();
    let updated = repo
        .update_phase(
            "fbm",
            "two-way",
            "phase-1-core",
            Some(PhaseStatus::InProgress),
            None,
            None,
        )
        .unwrap();
    assert_eq!(updated.frontmatter.status, PhaseStatus::InProgress);
    assert_eq!(updated.frontmatter.completed, None);
}

#[test]
fn repo_update_phase_body_replaces_existing() {
    let mut repo = setup_with_roadmap();
    repo.create_phase(
        "fbm",
        "two-way",
        "core",
        "Core",
        None,
        Some("Original body.\n"),
    )
    .unwrap();
    let updated = repo
        .update_phase(
            "fbm",
            "two-way",
            "phase-1-core",
            Some(PhaseStatus::InProgress),
            Some("Replaced body.\n"),
            None,
        )
        .unwrap();
    assert_eq!(updated.body, "Replaced body.\n");

    let loaded = repo.load_phase("fbm", "two-way", "phase-1-core").unwrap();
    assert_eq!(loaded.body, "Replaced body.\n");
}

#[test]
fn repo_update_phase_none_body_preserves_existing() {
    let mut repo = setup_with_roadmap();
    repo.create_phase(
        "fbm",
        "two-way",
        "core",
        "Core",
        None,
        Some("Keep this body.\n"),
    )
    .unwrap();
    let updated = repo
        .update_phase(
            "fbm",
            "two-way",
            "phase-1-core",
            Some(PhaseStatus::InProgress),
            None,
            None,
        )
        .unwrap();
    assert_eq!(updated.body, "Keep this body.\n");
}

#[test]
fn repo_update_phase_not_found() {
    let mut repo = setup_with_roadmap();
    let result = repo.update_phase(
        "fbm",
        "two-way",
        "phase-99-nope",
        Some(PhaseStatus::Done),
        None,
        None,
    );
    assert!(matches!(result, Err(Error::PhaseNotFound(_))));
}

#[test]
fn repo_resolve_by_number() {
    let mut repo = setup_with_roadmap();
    repo.create_phase("fbm", "two-way", "core", "Core", Some(1), None)
        .unwrap();
    repo.create_phase("fbm", "two-way", "service", "Service", Some(2), None)
        .unwrap();
    let stem = repo.resolve_phase_stem("fbm", "two-way", "2").unwrap();
    assert_eq!(stem, "phase-2-service");
}

#[test]
fn repo_resolve_by_stem_passthrough() {
    let repo = setup_with_roadmap();
    let stem = repo
        .resolve_phase_stem("fbm", "two-way", "phase-1-core")
        .unwrap();
    assert_eq!(stem, "phase-1-core");
}

#[test]
fn repo_resolve_number_not_found() {
    let mut repo = setup_with_roadmap();
    repo.create_phase("fbm", "two-way", "core", "Core", Some(1), None)
        .unwrap();
    let result = repo.resolve_phase_stem("fbm", "two-way", "99");
    assert!(matches!(result, Err(Error::PhaseNotFound(ref s)) if s == "99"));
}

// -- Remove phase tests --

#[test]
fn repo_remove_phase_deletes_file() {
    let mut repo = setup_with_roadmap();
    repo.create_phase("fbm", "two-way", "core", "Core", None, None)
        .unwrap();
    let path = repo.phase_path("fbm", "two-way", "phase-1-core");
    assert!(repo.store().file_exists(&path));

    repo.remove_phase("fbm", "two-way", "phase-1-core").unwrap();
    assert!(!repo.store().file_exists(&path));
}

#[test]
fn repo_remove_phase_updates_roadmap() {
    let mut repo = setup_with_roadmap();
    repo.create_phase("fbm", "two-way", "core", "Core", None, None)
        .unwrap();
    repo.create_phase("fbm", "two-way", "service", "Service", None, None)
        .unwrap();

    repo.remove_phase("fbm", "two-way", "phase-1-core").unwrap();

    let roadmap = repo.load_roadmap("fbm", "two-way").unwrap();
    assert_eq!(roadmap.frontmatter.phases, vec!["phase-2-service"]);
}

#[test]
fn repo_remove_phase_not_found() {
    let mut repo = setup_with_roadmap();
    let result = repo.remove_phase("fbm", "two-way", "phase-99-nope");
    assert!(matches!(result, Err(Error::PhaseNotFound(ref s)) if s == "phase-99-nope"));
}

// -- Task tests --

fn setup_with_project() -> PlanRepo<MemoryStore> {
    let mut repo = PlanRepo::init(MemoryStore::new()).unwrap();
    repo.create_project("fbm", "FBM").unwrap();
    repo
}

#[test]
fn repo_create_task_success() {
    let mut repo = setup_with_project();
    let doc = repo
        .create_task("fbm", "fix-bug", "Fix the bug", Priority::High, None, None)
        .unwrap();
    assert_eq!(doc.frontmatter.title, "Fix the bug");
    assert_eq!(doc.frontmatter.status, TaskStatus::Open);
    assert_eq!(doc.frontmatter.priority, Priority::High);
    assert!(doc.frontmatter.tags.is_none());

    // Should be loadable
    let loaded = repo.load_task("fbm", "fix-bug").unwrap();
    assert_eq!(loaded.frontmatter, doc.frontmatter);
}

#[test]
fn repo_create_task_with_tags() {
    let mut repo = setup_with_project();
    let doc = repo
        .create_task(
            "fbm",
            "fix-bug",
            "Fix the bug",
            Priority::High,
            Some(vec!["bug".to_string(), "urgent".to_string()]),
            None,
        )
        .unwrap();
    assert_eq!(
        doc.frontmatter.tags,
        Some(vec!["bug".to_string(), "urgent".to_string()])
    );
}

#[test]
fn repo_create_task_with_body() {
    let mut repo = setup_with_project();
    let body = "## Notes\n\nSome detailed task notes.\n";
    let doc = repo
        .create_task("fbm", "fix-bug", "Fix", Priority::High, None, Some(body))
        .unwrap();
    assert_eq!(doc.body, body);

    let loaded = repo.load_task("fbm", "fix-bug").unwrap();
    assert_eq!(loaded.body, body);
}

#[test]
fn repo_create_task_project_not_found() {
    let mut repo = PlanRepo::init(MemoryStore::new()).unwrap();
    let result = repo.create_task("nope", "slug", "Title", Priority::Low, None, None);
    assert!(matches!(result, Err(Error::ProjectNotFound(_))));
}

#[test]
fn repo_create_task_duplicate() {
    let mut repo = setup_with_project();
    repo.create_task("fbm", "fix-bug", "Fix", Priority::Low, None, None)
        .unwrap();
    let result = repo.create_task("fbm", "fix-bug", "Dup", Priority::Low, None, None);
    assert!(matches!(result, Err(Error::DuplicateSlug(_))));
}

#[test]
fn repo_list_tasks_sorted() {
    let mut repo = setup_with_project();
    repo.create_task("fbm", "zzz-task", "Z", Priority::Low, None, None)
        .unwrap();
    repo.create_task("fbm", "aaa-task", "A", Priority::High, None, None)
        .unwrap();
    let tasks = repo.list_tasks("fbm").unwrap();
    assert_eq!(tasks.len(), 2);
    assert_eq!(tasks[0].0, "aaa-task");
    assert_eq!(tasks[1].0, "zzz-task");
}

#[test]
fn repo_list_tasks_empty() {
    let repo = setup_with_project();
    let tasks = repo.list_tasks("fbm").unwrap();
    assert!(tasks.is_empty());
}

#[test]
fn repo_list_tasks_project_not_found() {
    let repo = PlanRepo::init(MemoryStore::new()).unwrap();
    let result = repo.list_tasks("nonexistent");
    assert!(matches!(result, Err(Error::ProjectNotFound(_))));
}

#[test]
fn repo_update_task_status() {
    let mut repo = setup_with_project();
    repo.create_task("fbm", "fix-bug", "Fix", Priority::Low, None, None)
        .unwrap();
    let updated = repo
        .update_task("fbm", "fix-bug", Some(TaskStatus::Done), None, None, None, None)
        .unwrap();
    assert_eq!(updated.frontmatter.status, TaskStatus::Done);

    let loaded = repo.load_task("fbm", "fix-bug").unwrap();
    assert_eq!(loaded.frontmatter.status, TaskStatus::Done);
}

#[test]
fn repo_update_task_priority() {
    let mut repo = setup_with_project();
    repo.create_task("fbm", "fix-bug", "Fix", Priority::Low, None, None)
        .unwrap();
    let updated = repo
        .update_task("fbm", "fix-bug", None, Some(Priority::Critical), None, None, None)
        .unwrap();
    assert_eq!(updated.frontmatter.priority, Priority::Critical);
}

#[test]
fn repo_update_task_tags() {
    let mut repo = setup_with_project();
    repo.create_task("fbm", "fix-bug", "Fix", Priority::Low, None, None)
        .unwrap();
    let updated = repo
        .update_task(
            "fbm",
            "fix-bug",
            None,
            None,
            Some(vec!["new-tag".to_string()]),
            None,
            None,
        )
        .unwrap();
    assert_eq!(updated.frontmatter.tags, Some(vec!["new-tag".to_string()]));
}

#[test]
fn repo_update_task_body_replaces_existing() {
    let mut repo = setup_with_project();
    repo.create_task(
        "fbm",
        "fix-bug",
        "Fix",
        Priority::Low,
        None,
        Some("Original.\n"),
    )
    .unwrap();
    let updated = repo
        .update_task("fbm", "fix-bug", None, None, None, Some("Replaced.\n"), None)
        .unwrap();
    assert_eq!(updated.body, "Replaced.\n");

    let loaded = repo.load_task("fbm", "fix-bug").unwrap();
    assert_eq!(loaded.body, "Replaced.\n");
}

#[test]
fn repo_update_task_none_body_preserves_existing() {
    let mut repo = setup_with_project();
    repo.create_task(
        "fbm",
        "fix-bug",
        "Fix",
        Priority::Low,
        None,
        Some("Keep this.\n"),
    )
    .unwrap();
    let updated = repo
        .update_task("fbm", "fix-bug", Some(TaskStatus::Done), None, None, None, None)
        .unwrap();
    assert_eq!(updated.body, "Keep this.\n");
}

#[test]
fn repo_update_task_not_found() {
    let mut repo = setup_with_project();
    let result = repo.update_task("fbm", "nope", Some(TaskStatus::Done), None, None, None, None);
    assert!(matches!(result, Err(Error::TaskNotFound(_))));
}

#[test]
fn repo_promote_task_to_roadmap() {
    let mut repo = setup_with_project();
    let task = Document {
        frontmatter: Task {
            project: "fbm".to_string(),
            title: "Big Feature".to_string(),
            status: TaskStatus::Open,
            priority: Priority::High,
            created: Date::new(2026, 3, 15),
            tags: Some(vec!["infra".to_string()]),
            completed: None,
            commit: None,
            review_sha: None,
            review_branch: None,
            close_reason: None,
        },
        body: "Task body content.\n".to_string(),
    };
    repo.write_task("fbm", "big-feature", &task).unwrap();

    let roadmap_doc = repo
        .promote_task("fbm", "big-feature", "big-feature-rm")
        .unwrap();
    assert_eq!(roadmap_doc.frontmatter.title, "Big Feature");
    assert_eq!(roadmap_doc.frontmatter.roadmap, "big-feature-rm");
    assert_eq!(roadmap_doc.frontmatter.phases, vec!["phase-1-big-feature"]);

    // Task file should be removed
    assert!(!repo.store().file_exists(&repo.task_path("fbm", "big-feature")));

    // Roadmap should preserve task metadata in body
    let loaded_rm = repo.load_roadmap("fbm", "big-feature-rm").unwrap();
    assert_eq!(loaded_rm.frontmatter.title, "Big Feature");
    assert!(loaded_rm.body.contains("priority: high"));
    assert!(loaded_rm.body.contains("created: 2026-03-15"));
    assert!(loaded_rm.body.contains("tags: infra"));

    let loaded_phase = repo
        .load_phase("fbm", "big-feature-rm", "phase-1-big-feature")
        .unwrap();
    assert_eq!(loaded_phase.frontmatter.title, "Big Feature");
    assert_eq!(loaded_phase.body, "Task body content.\n");
}

#[test]
fn repo_promote_task_not_found() {
    let mut repo = setup_with_project();
    let result = repo.promote_task("fbm", "nope", "rm-slug");
    assert!(matches!(result, Err(Error::TaskNotFound(_))));
}

#[test]
fn repo_promote_task_duplicate_roadmap() {
    let mut repo = setup_with_project();
    repo.create_task("fbm", "my-task", "Task", Priority::Low, None, None)
        .unwrap();
    repo.create_roadmap("fbm", "existing-rm", "Existing", None)
        .unwrap();
    let result = repo.promote_task("fbm", "my-task", "existing-rm");
    assert!(matches!(result, Err(Error::DuplicateSlug(_))));
}

// -- Dependency tests --

#[test]
fn repo_add_dependency_success() {
    let mut repo = setup_with_project();
    repo.create_roadmap("fbm", "alpha", "Alpha", None).unwrap();
    repo.create_roadmap("fbm", "beta", "Beta", None).unwrap();

    let doc = repo.add_dependency("fbm", "beta", "alpha").unwrap();
    assert_eq!(
        doc.frontmatter.dependencies,
        Some(vec!["alpha".to_string()])
    );

    // Verify persisted
    let loaded = repo.load_roadmap("fbm", "beta").unwrap();
    assert_eq!(
        loaded.frontmatter.dependencies,
        Some(vec!["alpha".to_string()])
    );
}

#[test]
fn repo_add_dependency_multiple() {
    let mut repo = setup_with_project();
    repo.create_roadmap("fbm", "alpha", "Alpha", None).unwrap();
    repo.create_roadmap("fbm", "beta", "Beta", None).unwrap();
    repo.create_roadmap("fbm", "gamma", "Gamma", None).unwrap();

    repo.add_dependency("fbm", "gamma", "alpha").unwrap();
    let doc = repo.add_dependency("fbm", "gamma", "beta").unwrap();
    assert_eq!(
        doc.frontmatter.dependencies,
        Some(vec!["alpha".to_string(), "beta".to_string()])
    );
}

#[test]
fn repo_add_dependency_duplicate_is_noop() {
    let mut repo = setup_with_project();
    repo.create_roadmap("fbm", "alpha", "Alpha", None).unwrap();
    repo.create_roadmap("fbm", "beta", "Beta", None).unwrap();

    repo.add_dependency("fbm", "beta", "alpha").unwrap();
    let doc = repo.add_dependency("fbm", "beta", "alpha").unwrap();
    assert_eq!(
        doc.frontmatter.dependencies,
        Some(vec!["alpha".to_string()])
    );
}

#[test]
fn repo_add_dependency_self_cycle() {
    let mut repo = setup_with_project();
    repo.create_roadmap("fbm", "alpha", "Alpha", None).unwrap();

    let result = repo.add_dependency("fbm", "alpha", "alpha");
    assert!(matches!(result, Err(Error::CyclicDependency(_))));
}

#[test]
fn repo_add_dependency_direct_cycle() {
    let mut repo = setup_with_project();
    repo.create_roadmap("fbm", "alpha", "Alpha", None).unwrap();
    repo.create_roadmap("fbm", "beta", "Beta", None).unwrap();

    repo.add_dependency("fbm", "beta", "alpha").unwrap();
    let result = repo.add_dependency("fbm", "alpha", "beta");
    assert!(matches!(result, Err(Error::CyclicDependency(_))));
}

#[test]
fn repo_add_dependency_transitive_cycle() {
    let mut repo = setup_with_project();
    repo.create_roadmap("fbm", "alpha", "Alpha", None).unwrap();
    repo.create_roadmap("fbm", "beta", "Beta", None).unwrap();
    repo.create_roadmap("fbm", "gamma", "Gamma", None).unwrap();

    repo.add_dependency("fbm", "beta", "alpha").unwrap();
    repo.add_dependency("fbm", "gamma", "beta").unwrap();
    // gamma → beta → alpha, now alpha → gamma would create a cycle
    let result = repo.add_dependency("fbm", "alpha", "gamma");
    assert!(matches!(result, Err(Error::CyclicDependency(_))));
}

#[test]
fn repo_add_dependency_target_not_found() {
    let mut repo = setup_with_project();
    repo.create_roadmap("fbm", "alpha", "Alpha", None).unwrap();

    let result = repo.add_dependency("fbm", "alpha", "nonexistent");
    assert!(matches!(result, Err(Error::RoadmapNotFound(_))));
}

#[test]
fn repo_add_dependency_source_not_found() {
    let mut repo = setup_with_project();
    repo.create_roadmap("fbm", "alpha", "Alpha", None).unwrap();

    let result = repo.add_dependency("fbm", "nonexistent", "alpha");
    assert!(matches!(result, Err(Error::RoadmapNotFound(_))));
}

#[test]
fn repo_remove_dependency_success() {
    let mut repo = setup_with_project();
    repo.create_roadmap("fbm", "alpha", "Alpha", None).unwrap();
    repo.create_roadmap("fbm", "beta", "Beta", None).unwrap();

    repo.add_dependency("fbm", "beta", "alpha").unwrap();
    let doc = repo.remove_dependency("fbm", "beta", "alpha").unwrap();
    assert_eq!(doc.frontmatter.dependencies, None);

    let loaded = repo.load_roadmap("fbm", "beta").unwrap();
    assert_eq!(loaded.frontmatter.dependencies, None);
}

#[test]
fn repo_remove_dependency_not_present_is_noop() {
    let mut repo = setup_with_project();
    repo.create_roadmap("fbm", "alpha", "Alpha", None).unwrap();

    let doc = repo
        .remove_dependency("fbm", "alpha", "nonexistent")
        .unwrap();
    assert_eq!(doc.frontmatter.dependencies, None);
}

#[test]
fn repo_remove_dependency_preserves_others() {
    let mut repo = setup_with_project();
    repo.create_roadmap("fbm", "alpha", "Alpha", None).unwrap();
    repo.create_roadmap("fbm", "beta", "Beta", None).unwrap();
    repo.create_roadmap("fbm", "gamma", "Gamma", None).unwrap();

    repo.add_dependency("fbm", "gamma", "alpha").unwrap();
    repo.add_dependency("fbm", "gamma", "beta").unwrap();
    let doc = repo.remove_dependency("fbm", "gamma", "alpha").unwrap();
    assert_eq!(doc.frontmatter.dependencies, Some(vec!["beta".to_string()]));
}

#[test]
fn repo_dependency_graph_returns_entries() {
    let mut repo = setup_with_project();
    repo.create_roadmap("fbm", "alpha", "Alpha", None).unwrap();
    repo.create_roadmap("fbm", "beta", "Beta", None).unwrap();
    repo.create_roadmap("fbm", "gamma", "Gamma", None).unwrap();

    repo.add_dependency("fbm", "beta", "alpha").unwrap();
    repo.add_dependency("fbm", "gamma", "alpha").unwrap();
    repo.add_dependency("fbm", "gamma", "beta").unwrap();

    let graph = repo.dependency_graph("fbm").unwrap();
    assert_eq!(graph.len(), 2);
    // sorted by slug
    assert_eq!(graph[0].0, "beta");
    assert_eq!(graph[0].1, vec!["alpha"]);
    assert_eq!(graph[1].0, "gamma");
    assert_eq!(graph[1].1, vec!["alpha", "beta"]);
}

#[test]
fn repo_dependency_graph_empty() {
    let mut repo = setup_with_project();
    repo.create_roadmap("fbm", "alpha", "Alpha", None).unwrap();
    let graph = repo.dependency_graph("fbm").unwrap();
    assert!(graph.is_empty());
}

// -- Delete roadmap tests --

#[test]
fn repo_delete_roadmap_removes_files() {
    let mut repo = setup_with_project();
    repo.create_roadmap("fbm", "alpha", "Alpha", None).unwrap();
    repo.create_phase("fbm", "alpha", "core", "Core", None, None)
        .unwrap();

    let roadmap_file = repo.roadmap_path("fbm", "alpha");
    assert!(repo.store().file_exists(&roadmap_file));

    repo.delete_roadmap("fbm", "alpha").unwrap();
    assert!(!repo.store().file_exists(&roadmap_file));
}

#[test]
fn repo_delete_roadmap_not_found() {
    let mut repo = setup_with_project();
    let result = repo.delete_roadmap("fbm", "nonexistent");
    assert!(matches!(result, Err(Error::RoadmapNotFound(ref s)) if s == "nonexistent"));
}

#[test]
fn repo_delete_roadmap_cleans_up_dependencies() {
    let mut repo = setup_with_project();
    repo.create_roadmap("fbm", "alpha", "Alpha", None).unwrap();
    repo.create_roadmap("fbm", "beta", "Beta", None).unwrap();
    repo.create_roadmap("fbm", "gamma", "Gamma", None).unwrap();

    repo.add_dependency("fbm", "beta", "alpha").unwrap();
    repo.add_dependency("fbm", "gamma", "alpha").unwrap();
    repo.add_dependency("fbm", "gamma", "beta").unwrap();

    repo.delete_roadmap("fbm", "alpha").unwrap();

    // beta should have no dependencies left
    let beta = repo.load_roadmap("fbm", "beta").unwrap();
    assert_eq!(beta.frontmatter.dependencies, None);

    // gamma should still depend on beta but not alpha
    let gamma = repo.load_roadmap("fbm", "gamma").unwrap();
    assert_eq!(
        gamma.frontmatter.dependencies,
        Some(vec!["beta".to_string()])
    );
}

#[test]
fn repo_delete_roadmap_not_in_list() {
    let mut repo = setup_with_project();
    repo.create_roadmap("fbm", "alpha", "Alpha", None).unwrap();
    repo.create_roadmap("fbm", "beta", "Beta", None).unwrap();

    repo.delete_roadmap("fbm", "alpha").unwrap();

    let roadmaps = repo.list_roadmaps("fbm").unwrap();
    let slugs: Vec<_> = roadmaps
        .iter()
        .map(|r| r.frontmatter.roadmap.as_str())
        .collect();
    assert_eq!(slugs, vec!["beta"]);
}

#[test]
fn repo_init_already_initialized() {
    let repo = PlanRepo::init(MemoryStore::new()).unwrap();
    let result = PlanRepo::init(repo.store().duplicate());
    assert!(matches!(result, Err(Error::AlreadyInitialized)));
}

// -- Index generation tests --


#[test]
fn repo_generate_index_idempotent() {
    let mut repo = setup_with_project();
    repo.create_roadmap("fbm", "alpha", "Alpha", None).unwrap();
    repo.generate_index().unwrap();
    let first = repo.store().read(&repo.index_path()).unwrap();
    repo.generate_index().unwrap();
    let second = repo.store().read(&repo.index_path()).unwrap();
    assert_eq!(first, second);
}

#[test]
fn repo_generate_index_empty_repo() {
    let mut repo = PlanRepo::init(MemoryStore::new()).unwrap();
    repo.generate_index().unwrap();
    let content = repo.store().read(&repo.index_path()).unwrap();
    assert!(content.contains("# Plan Index"));
}

