use chrono::Datelike;
use rdm_core::io;
use rdm_core::model::{Date, Document, PhaseStatus, Priority, Task, TaskStatus};
use rdm_core::ops::backlog::{
    archivable_roadmaps, stale_tasks, stale_tasks_at, tag_clusters, ReportOptions,
    DEFAULT_STALE_THRESHOLD_DAYS,
};
use rdm_core::ops::init::init;
use rdm_core::ops::phase::{create_phase, update_phase};
use rdm_core::ops::project::create_project;
use rdm_core::ops::roadmap::{create_roadmap, list_roadmaps};
use rdm_core::ops::task::{create_task, list_tasks, update_task, CreateTask};
use rdm_core::ops::update::{BodyUpdate, TagsUpdate, TitleUpdate};
use rdm_core::store::MemoryStore;

fn setup_store() -> MemoryStore {
    let mut store = MemoryStore::new();
    init(&mut store).unwrap();
    create_project(&mut store, "acme", "Acme Corp").unwrap();
    store
}

fn days_ago(n: i64) -> Date {
    let d = chrono::Local::now().date_naive() - chrono::Duration::days(n);
    Date::new(d.year() as u32, d.month(), d.day())
}

fn create_backdated_task(store: &mut MemoryStore, slug: &str, title: &str, tags: Option<Vec<String>>, days: i64) {
    create_task(
        store,
        CreateTask {
            project: "acme",
            slug,
            title,
            priority: Priority::Medium,
            tags,
            body: None,
        },
    )
    .unwrap();
    let mut doc = io::load_task(store, "acme", slug).unwrap();
    doc.frontmatter.created = days_ago(days);
    io::write_task(store, "acme", slug, &doc);
}

fn set_status(store: &mut MemoryStore, slug: &str, status: TaskStatus) {
    update_task(
        store,
        "acme",
        slug,
        Some(status),
        None,
        TagsUpdate::Keep,
        BodyUpdate::Keep,
        None,
        None,
        None,
        TitleUpdate::Keep,
    )
    .unwrap();
}

fn stale_slugs(store: &MemoryStore, opts: &ReportOptions) -> Vec<String> {
    let tasks = list_tasks(store, "acme").unwrap();
    stale_tasks(&tasks, opts.older_than_days)
        .into_iter()
        .map(|t| t.slug)
        .collect()
}

// -- stale tasks --

#[test]
fn stale_task_past_threshold_is_flagged() {
    let mut store = setup_store();
    create_backdated_task(&mut store, "old-task", "Old Task", None, 90);
    assert!(stale_slugs(&store, &ReportOptions::default()).iter().any(|s| s == "old-task"));
}

#[test]
fn fresh_task_under_threshold_not_flagged() {
    let mut store = setup_store();
    create_backdated_task(&mut store, "new-task", "New Task", None, 5);
    assert!(!stale_slugs(&store, &ReportOptions::default()).iter().any(|s| s == "new-task"));
}

#[test]
fn stale_boundary_inclusive_at_exact_threshold() {
    let mut store = setup_store();
    create_backdated_task(&mut store, "boundary-task", "Boundary Task", None, 60);
    assert!(stale_slugs(&store, &ReportOptions::default())
        .iter()
        .any(|s| s == "boundary-task"));
}

#[test]
fn in_progress_task_past_threshold_flagged() {
    let mut store = setup_store();
    create_backdated_task(&mut store, "wip-task", "WIP Task", None, 90);
    set_status(&mut store, "wip-task", TaskStatus::InProgress);
    assert!(stale_slugs(&store, &ReportOptions::default()).iter().any(|s| s == "wip-task"));
}

#[test]
fn needs_review_or_reviewed_never_stale() {
    let mut store = setup_store();
    create_backdated_task(&mut store, "nr-task", "NR Task", None, 90);
    set_status(&mut store, "nr-task", TaskStatus::NeedsReview);
    assert!(!stale_slugs(&store, &ReportOptions::default()).iter().any(|s| s == "nr-task"));
}

#[test]
fn terminal_task_never_stale() {
    let mut store = setup_store();
    create_backdated_task(&mut store, "done-task", "Done Task", None, 90);
    set_status(&mut store, "done-task", TaskStatus::Done);
    assert!(!stale_slugs(&store, &ReportOptions::default()).iter().any(|s| s == "done-task"));
}

#[test]
fn custom_older_than_narrows_widens() {
    let mut store = setup_store();
    create_backdated_task(&mut store, "mid-task", "Mid Task", None, 30);
    let narrow = ReportOptions {
        older_than_days: 10,
        tag: None,
    };
    let wide = ReportOptions {
        older_than_days: 100,
        tag: None,
    };
    assert!(stale_slugs(&store, &narrow).iter().any(|s| s == "mid-task"));
    assert!(!stale_slugs(&store, &wide).iter().any(|s| s == "mid-task"));
}

fn task_doc(title: &str, status: TaskStatus, created: Date, tags: &[&str]) -> Document<Task> {
    Document {
        frontmatter: Task {
            project: "acme".to_string(),
            title: title.to_string(),
            status,
            priority: Priority::Medium,
            created,
            tags: if tags.is_empty() {
                None
            } else {
                Some(tags.iter().map(|s| s.to_string()).collect())
            },
            completed: None,
            commit: None,
            review_sha: None,
            review_branch: None,
            close_reason: None,
        },
        body: String::new(),
    }
}

#[test]
fn stale_tasks_exact_ages_and_order() {
    let today = Date::new(2026, 3, 1);
    let tasks = vec![
        ("b".to_string(), task_doc("B", TaskStatus::Open, Date::new(2025, 12, 31), &[])),
        ("a".to_string(), task_doc("A", TaskStatus::InProgress, Date::new(2025, 12, 31), &["x"])),
        ("c".to_string(), task_doc("C", TaskStatus::Open, Date::new(2024, 2, 29), &[])),
        ("d".to_string(), task_doc("D", TaskStatus::Open, Date::new(2026, 2, 1), &[])),
        ("e".to_string(), task_doc("E", TaskStatus::Done, Date::new(2020, 1, 1), &[])),
        ("f".to_string(), task_doc("F", TaskStatus::Open, Date::new(2025, 2, 29), &[])),
    ];
    let out = stale_tasks_at(&tasks, DEFAULT_STALE_THRESHOLD_DAYS, today);
    let got: Vec<(&str, i64)> = out.iter().map(|t| (t.slug.as_str(), t.age_days)).collect();
    // 2024-02-29 to 2026-03-01 is 731 days; 2025-12-31 to 2026-03-01 is 60.
    // "d" is 28 days old, "e" is done, and 2025-02-29 is no date.
    assert_eq!(got, vec![("c", 731), ("a", 60), ("b", 60)]);
    assert_eq!(out[1].tags, Some(vec!["x".to_string()]));
    assert_eq!(out[0].created, Date::new(2024, 2, 29));
}

// -- tag clusters --

fn make_task(store: &mut MemoryStore, slug: &str, tags: Option<Vec<String>>) {
    create_task(
        store,
        CreateTask {
            project: "acme",
            slug,
            title: slug,
            priority: Priority::Medium,
            tags,
            body: None,
        },
    )
    .unwrap();
}

#[test]
fn tag_cluster_groups_sharing_tag() {
    let mut store = setup_store();
    for slug in ["t1", "t2"] {
        make_task(&mut store, slug, Some(vec!["billing".to_string()]));
    }
    let clusters = tag_clusters(&list_tasks(&store, "acme").unwrap());
    let cluster = clusters
        .iter()
        .find(|c| c.tag == "billing")
        .expect("billing cluster expected");
    assert_eq!(cluster.tasks.len(), 2);
}

#[test]
fn tag_cluster_excludes_terminal() {
    let mut store = setup_store();
    for slug in ["t1", "t2"] {
        make_task(&mut store, slug, Some(vec!["billing".to_string()]));
    }
    set_status(&mut store, "t2", TaskStatus::Done);
    let clusters = tag_clusters(&list_tasks(&store, "acme").unwrap());
    assert!(!clusters.iter().any(|c| c.tag == "billing"));
}

#[test]
fn untagged_never_in_tag_clusters() {
    let mut store = setup_store();
    make_task(&mut store, "untagged", None);
    assert!(tag_clusters(&list_tasks(&store, "acme").unwrap()).is_empty());
}

#[test]
fn single_task_unique_tag_not_clustered() {
    let mut store = setup_store();
    make_task(&mut store, "lonely", Some(vec!["unique".to_string()]));
    let clusters = tag_clusters(&list_tasks(&store, "acme").unwrap());
    assert!(!clusters.iter().any(|c| c.tag == "unique"));
}

#[test]
fn tag_clusters_exact_order_and_members() {
    let tasks = vec![
        ("zeta".to_string(), task_doc("Zeta", TaskStatus::Open, Date::new(2026, 1, 1), &["ui", "db"])),
        ("alpha".to_string(), task_doc("Alpha", TaskStatus::Open, Date::new(2026, 1, 1), &["ui"])),
        ("mid".to_string(), task_doc("Mid", TaskStatus::Reviewed, Date::new(2026, 1, 1), &["db"])),
        ("gone".to_string(), task_doc("Gone", TaskStatus::WontFix, Date::new(2026, 1, 1), &["ui"])),
        ("solo".to_string(), task_doc("Solo", TaskStatus::Open, Date::new(2026, 1, 1), &["one"])),
    ];
    let clusters = tag_clusters(&tasks);
    let got: Vec<(&str, Vec<&str>)> = clusters
        .iter()
        .map(|c| (c.tag.as_str(), c.tasks.iter().map(|m| m.slug.as_str()).collect()))
        .collect();
    assert_eq!(got, vec![("db", vec!["mid", "zeta"]), ("ui", vec!["alpha", "zeta"])]);
    assert_eq!(clusters[1].tasks[0].title, "Alpha");
}

// -- archivable roadmaps --

fn roadmap_with_phases(store: &mut MemoryStore, slug: &str, statuses: &[PhaseStatus]) {
    create_roadmap(store, "acme", slug, slug, None, None).unwrap();
    for (i, status) in statuses.iter().enumerate() {
        let number = (i + 1) as u32;
        let phase_slug = format!("p{number}");
        create_phase(store, "acme", slug, &phase_slug, &phase_slug, Some(number), None, None).unwrap();
        let stem = format!("phase-{number}-{phase_slug}");
        update_phase(
            store,
            "acme",
            slug,
            &stem,
            Some(*status),
            TagsUpdate::Keep,
            BodyUpdate::Keep,
            None,
            None,
        )
        .unwrap();
    }
}

fn archivable(store: &MemoryStore) -> Vec<(String, usize)> {
    let roadmaps = list_roadmaps(store, "acme", None, None).unwrap();
    archivable_roadmaps(store, "acme", &roadmaps)
        .unwrap()
        .into_iter()
        .map(|a| (a.roadmap, a.phase_count))
        .collect()
}

#[test]
fn fully_terminal_roadmap_flagged() {
    let mut store = setup_store();
    roadmap_with_phases(&mut store, "done-roadmap", &[PhaseStatus::Done]);
    assert!(archivable(&store).iter().any(|(r, _)| r == "done-roadmap"));
}

#[test]
fn wont_fix_counts_as_terminal() {
    let mut store = setup_store();
    roadmap_with_phases(&mut store, "wf-roadmap", &[PhaseStatus::WontFix]);
    assert!(archivable(&store).iter().any(|(r, _)| r == "wf-roadmap"));
}

#[test]
fn partially_done_not_archivable() {
    let mut store = setup_store();
    roadmap_with_phases(
        &mut store,
        "partial-roadmap",
        &[PhaseStatus::Done, PhaseStatus::NotStarted],
    );
    assert!(!archivable(&store).iter().any(|(r, _)| r == "partial-roadmap"));
}

#[test]
fn roadmap_with_no_phases_not_archivable() {
    let mut store = setup_store();
    roadmap_with_phases(&mut store, "empty-roadmap", &[]);
    assert!(!archivable(&store).iter().any(|(r, _)| r == "empty-roadmap"));
}

#[test]
fn archivable_roadmaps_in_slug_order_with_counts() {
    let mut store = setup_store();
    roadmap_with_phases(&mut store, "zulu", &[PhaseStatus::Done, PhaseStatus::WontFix]);
    roadmap_with_phases(&mut store, "alpha", &[PhaseStatus::Done]);
    roadmap_with_phases(&mut store, "open", &[PhaseStatus::InProgress]);
    assert_eq!(
        archivable(&store),
        vec![("alpha".to_string(), 1), ("zulu".to_string(), 2)]
    );
}

#[test]
fn archivable_roadmaps_passes_listing_error_on() {
    let store = setup_store();
    let mut doc = {
        let mut s = setup_store();
        create_roadmap(&mut s, "acme", "ghost", "Ghost", None, None).unwrap();
        io::load_roadmap(&s, "acme", "ghost").unwrap()
    };
    doc.frontmatter.title = "Ghost".to_string();
    // The roadmap is not in this store, so listing its phases fails.
    let err = archivable_roadmaps(&store, "acme", &vec![doc]).unwrap_err();
    assert!(matches!(err, rdm_core::error::Error::RoadmapNotFound(ref s) if s == "ghost"));
}

use rdm_core::error::Error;
use rdm_core::ops::backlog::report;
use rdm_core::ops::roadmap::archive_roadmap;

fn done_roadmap(store: &mut MemoryStore, slug: &str, tags: Option<Vec<String>>) {
    create_roadmap(store, "acme", slug, slug, None, None).unwrap();
    if tags.is_some() {
        let mut doc = io::load_roadmap(store, "acme", slug).unwrap();
        doc.frontmatter.tags = tags;
        io::write_roadmap(store, "acme", slug, &doc);
    }
    create_phase(store, "acme", slug, "only", "Only Phase", Some(1), None, None).unwrap();
    update_phase(store, "acme", slug, "phase-1-only", Some(PhaseStatus::Done), TagsUpdate::Keep, BodyUpdate::Keep, None, None)
        .unwrap();
}

#[test]
fn already_archived_excluded() {
    let mut store = setup_store();
    done_roadmap(&mut store, "archive-me", None);
    let before = report(&store, "acme", &ReportOptions::default(), vec![]).unwrap();
    assert!(before.archivable_roadmaps.iter().any(|r| r.roadmap == "archive-me"));
    archive_roadmap(&mut store, "acme", "archive-me", false).unwrap();
    let after = report(&store, "acme", &ReportOptions::default(), vec![]).unwrap();
    assert!(!after.archivable_roadmaps.iter().any(|r| r.roadmap == "archive-me"));
}

#[test]
fn archivable_respect_tag_scope() {
    let mut store = setup_store();
    done_roadmap(&mut store, "tagged-done", Some(vec!["legacy".to_string()]));
    let opts = ReportOptions { older_than_days: DEFAULT_STALE_THRESHOLD_DAYS, tag: Some("nonexistent-tag".to_string()) };
    let rep = report(&store, "acme", &opts, vec![]).unwrap();
    assert!(!rep.archivable_roadmaps.iter().any(|r| r.roadmap == "tagged-done"));
    let opts = ReportOptions { older_than_days: DEFAULT_STALE_THRESHOLD_DAYS, tag: Some("legacy".to_string()) };
    let rep = report(&store, "acme", &opts, vec![]).unwrap();
    assert!(rep.archivable_roadmaps.iter().any(|r| r.roadmap == "tagged-done"));
}

#[test]
fn empty_project_returns_empty_report() {
    let store = setup_store();
    let rep = report(&store, "acme", &ReportOptions::default(), vec![]).unwrap();
    assert!(rep.stale_tasks.is_empty());
    assert!(rep.duplicate_clusters.is_empty());
    assert!(rep.tag_clusters.is_empty());
    assert!(rep.archivable_roadmaps.is_empty());
}

#[test]
fn report_errors_on_missing_project() {
    let store = MemoryStore::new();
    let err = report(&store, "nope", &ReportOptions::default(), vec![]).unwrap_err();
    assert!(matches!(err, Error::ProjectNotFound(_)));
}

#[test]
fn tag_clusters_respect_tag_scope() {
    let mut store = setup_store();
    for slug in ["billing-1", "billing-2"] {
        create_task(
            &mut store,
            CreateTask {
                project: "acme",
                slug,
                title: slug,
                priority: Priority::Medium,
                tags: Some(vec!["billing".to_string()]),
                body: None,
            },
        )
        .unwrap();
    }
    for slug in ["auth-1", "auth-2"] {
        create_task(
            &mut store,
            CreateTask {
                project: "acme",
                slug,
                title: slug,
                priority: Priority::Medium,
                tags: Some(vec!["auth".to_string()]),
                body: None,
            },
        )
        .unwrap();
    }
    let unscoped = report(&store, "acme", &ReportOptions::default(), vec![]).unwrap();
    assert!(unscoped.tag_clusters.iter().any(|c| c.tag == "billing"));
    assert!(unscoped.tag_clusters.iter().any(|c| c.tag == "auth"));
    let opts = ReportOptions { older_than_days: DEFAULT_STALE_THRESHOLD_DAYS, tag: Some("auth".to_string()) };
    let scoped = report(&store, "acme", &opts, vec![]).unwrap();
    assert!(!scoped.tag_clusters.iter().any(|c| c.tag == "billing"));
    assert!(scoped.tag_clusters.iter().any(|c| c.tag == "auth"));
}

#[test]
fn stale_age_counts_calendar_days_across_a_leap_day() {
    let tasks = vec![(
        "t".to_string(),
        Document {
            frontmatter: Task {
                project: "acme".to_string(),
                title: "T".to_string(),
                status: TaskStatus::Open,
                priority: Priority::Medium,
                created: Date::new(2024, 2, 28),
                tags: None,
                completed: None,
                commit: None,
                review_sha: None,
                review_branch: None,
                close_reason: None,
            },
            body: String::new(),
        },
    )];
    let out = stale_tasks_at(&tasks, 2, Date::new(2024, 3, 1));
    assert_eq!(out.len(), 1);
    assert_eq!(out[0].age_days, 2);
    let none = stale_tasks_at(&tasks, 3, Date::new(2024, 3, 1));
    assert!(none.is_empty());
    let same_day = stale_tasks_at(&tasks, 0, Date::new(2024, 2, 28));
    assert_eq!(same_day[0].age_days, 0);
}

fn member(slug: &str, title: &str) -> rdm_core::ops::backlog::DuplicateMember {
    rdm_core::ops::backlog::DuplicateMember { slug: slug.to_string(), title: title.to_string() }
}

fn matches(slugs: &[&str]) -> Vec<String> {
    slugs.iter().map(|s| s.to_string()).collect()
}

fn cluster_slugs(clusters: &[rdm_core::ops::backlog::DuplicateCluster]) -> Vec<Vec<String>> {
    clusters.iter().map(|c| c.members.iter().map(|m| m.slug.clone()).collect()).collect()
}

#[test]
fn duplicate_matches_group_transitively() {
    let cands = vec![member("a", "Fix login"), member("b", "Fix login page"), member("c", "Fix the login page"), member("d", "Other")];
    let matched = vec![matches(&["b"]), matches(&["c"]), matches(&[]), matches(&[])];
    let out = rdm_core::ops::duplicates::duplicate_clusters(&cands, &matched);
    assert_eq!(cluster_slugs(&out), vec![vec!["a".to_string(), "b".to_string(), "c".to_string()]]);
    assert_eq!(out[0].members[1].title, "Fix login page");
}

#[test]
fn duplicate_self_and_unknown_matches_are_ignored() {
    let cands = vec![member("a", "Alpha"), member("b", "Beta")];
    let matched = vec![matches(&["a", "zz"]), matches(&["b"])];
    let out = rdm_core::ops::duplicates::duplicate_clusters(&cands, &matched);
    assert!(out.is_empty());
}

#[test]
fn duplicate_clusters_in_slug_order() {
    let cands = vec![member("z", "Zed"), member("y", "Zed too"), member("b", "Bee"), member("a", "Bee too")];
    let matched = vec![matches(&["y"]), matches(&[]), matches(&["a"]), matches(&[])];
    let out = rdm_core::ops::duplicates::duplicate_clusters(&cands, &matched);
    assert_eq!(
        cluster_slugs(&out),
        vec![vec!["a".to_string(), "b".to_string()], vec!["y".to_string(), "z".to_string()]]
    );
}

#[test]
fn duplicate_match_in_one_direction_is_enough() {
    let cands = vec![member("a", "One"), member("b", "Two"), member("c", "Three")];
    let matched = vec![matches(&[]), matches(&[]), matches(&["a"])];
    let out = rdm_core::ops::duplicates::duplicate_clusters(&cands, &matched);
    assert_eq!(cluster_slugs(&out), vec![vec!["a".to_string(), "c".to_string()]]);
}

#[test]
fn duplicate_candidates_leave_closed_tasks_out() {
    let tasks = vec![
        ("open".to_string(), task_doc("Open one", TaskStatus::Open, days_ago(1), &[])),
        ("done".to_string(), task_doc("Done one", TaskStatus::Done, days_ago(1), &[])),
        ("wip".to_string(), task_doc("Busy one", TaskStatus::InProgress, days_ago(1), &[])),
        ("nope".to_string(), task_doc("Dropped", TaskStatus::WontFix, days_ago(1), &[])),
    ];
    let cands = rdm_core::ops::duplicates::duplicate_candidates(&tasks);
    let slugs: Vec<&str> = cands.iter().map(|m| m.slug.as_str()).collect();
    assert_eq!(slugs, vec!["open", "wip"]);
    assert_eq!(cands[1].title, "Busy one");
}

fn titled_task(store: &mut MemoryStore, slug: &str, title: &str, tags: Option<Vec<String>>) {
    create_task(
        store,
        CreateTask {
            project: "acme",
            slug,
            title,
            priority: Priority::Medium,
            tags,
            body: None,
        },
    )
    .unwrap();
}

fn title_matches(pairs: &[(&str, &[&str])]) -> Vec<(String, Vec<String>)> {
    pairs.iter().map(|(s, ms)| (s.to_string(), matches(ms))).collect()
}

#[test]
fn near_duplicate_titles_cluster() {
    let mut store = setup_store();
    titled_task(&mut store, "fix-login-bug", "Fix login bug on mobile", None);
    titled_task(&mut store, "fix-login-bug-2", "Fix login bug on mobile devices", None);
    titled_task(&mut store, "unrelated-task", "Write quarterly financial report", None);
    let found = title_matches(&[
        ("fix-login-bug", &["fix-login-bug", "fix-login-bug-2"]),
        ("fix-login-bug-2", &["fix-login-bug-2", "fix-login-bug"]),
        ("unrelated-task", &["unrelated-task"]),
    ]);
    let report = rdm_core::ops::backlog::report(&store, "acme", &ReportOptions::default(), found).unwrap();
    assert_eq!(report.duplicate_clusters.len(), 1, "expected exactly one cluster, got: {:?}", report.duplicate_clusters);
    let members: Vec<&str> = report.duplicate_clusters[0].members.iter().map(|m| m.slug.as_str()).collect();
    assert!(members.contains(&"fix-login-bug"));
    assert!(members.contains(&"fix-login-bug-2"));
    assert!(!members.contains(&"unrelated-task"));
}

#[test]
fn duplicate_cluster_transitive_grouping() {
    let mut store = setup_store();
    titled_task(&mut store, "auth-a", "Fix authentication timeout error", None);
    titled_task(&mut store, "auth-b", "Fix authentication timeout errors", None);
    titled_task(&mut store, "auth-c", "Fix authentication timeout errors urgently", None);
    let found = title_matches(&[("auth-a", &["auth-a", "auth-b"]), ("auth-b", &["auth-b", "auth-c"]), ("auth-c", &["auth-c"])]);
    let report = rdm_core::ops::backlog::report(&store, "acme", &ReportOptions::default(), found).unwrap();
    assert_eq!(report.duplicate_clusters.len(), 1, "expected one transitive cluster, got: {:?}", report.duplicate_clusters);
    assert_eq!(report.duplicate_clusters[0].members.len(), 3);
}

#[test]
fn terminal_tasks_excluded_from_clustering() {
    let mut store = setup_store();
    titled_task(&mut store, "dup-1", "Refactor payment gateway module", None);
    titled_task(&mut store, "dup-2", "Refactor payment gateway modules", None);
    set_status(&mut store, "dup-2", TaskStatus::Done);
    let found = title_matches(&[("dup-1", &["dup-1", "dup-2"])]);
    let report = rdm_core::ops::backlog::report(&store, "acme", &ReportOptions::default(), found).unwrap();
    assert!(
        report.duplicate_clusters.is_empty(),
        "a terminal task must not participate in clustering: {:?}",
        report.duplicate_clusters
    );
}

#[test]
fn duplicate_clusters_respect_tag_scope() {
    let mut store = setup_store();
    titled_task(&mut store, "scoped-1", "Improve search relevance ranking", Some(vec!["search".to_string()]));
    titled_task(&mut store, "scoped-2", "Improve search relevance rankings", None);
    let opts = ReportOptions { older_than_days: DEFAULT_STALE_THRESHOLD_DAYS, tag: Some("search".to_string()) };
    let found = title_matches(&[("scoped-1", &["scoped-1", "scoped-2"])]);
    let report = rdm_core::ops::backlog::report(&store, "acme", &opts, found).unwrap();
    assert!(
        report.duplicate_clusters.is_empty(),
        "untagged candidate must be excluded by tag scope: {:?}",
        report.duplicate_clusters
    );
}
