use rdm_core::error::Error;
use rdm_core::io;
use rdm_core::model::{
    Date, Difficulty, Document, ModelTier, Priority, Source, Task, TaskStatus, TaskStatusFilter,
};
use rdm_core::ops::init::init;
use rdm_core::ops::project::{create_project, update_project_source};
use rdm_core::ops::roadmap::create_roadmap;
use rdm_core::ops::tag::{tag_list, TagCount};
use rdm_core::ops::task::{
    create_task, filter_tasks, merge_tasks, set_task_close_reason, task_matches, update_task,
    CreateTask, TaskFilter,
};
use rdm_core::ops::update::{
    BodyUpdate, DifficultyUpdate, ModelTierUpdate, PriorityUpdate, ReasonUpdate, TagsUpdate,
    TitleUpdate,
};
use rdm_core::store::MemoryStore;

// -- project --

fn store_with_project() -> MemoryStore {
    let mut store = MemoryStore::new();
    create_project(&mut store, "rdm", "rdm").unwrap();
    store
}

#[test]
fn update_project_source_sets_repo_and_branch() {
    let mut store = store_with_project();
    let doc = update_project_source(
        &mut store,
        "rdm",
        Some(Source {
            repo: "/Users/ed/Projects/rdm".to_string(),
            default_branch: Some("main".to_string()),
        }),
    )
    .unwrap();
    assert_eq!(
        doc.frontmatter.source,
        Some(Source {
            repo: "/Users/ed/Projects/rdm".to_string(),
            default_branch: Some("main".to_string()),
        })
    );
    let reloaded = io::load_project(&store, "rdm").unwrap();
    assert_eq!(reloaded.frontmatter.source, doc.frontmatter.source);
}

#[test]
fn update_project_source_can_replace_just_the_branch() {
    let mut store = store_with_project();
    update_project_source(
        &mut store,
        "rdm",
        Some(Source {
            repo: "/repo".to_string(),
            default_branch: None,
        }),
    )
    .unwrap();
    let existing = io::load_project(&store, "rdm")
        .unwrap()
        .frontmatter
        .source
        .unwrap();
    let doc = update_project_source(
        &mut store,
        "rdm",
        Some(Source {
            repo: existing.repo,
            default_branch: Some("trunk".to_string()),
        }),
    )
    .unwrap();
    let source = doc.frontmatter.source.unwrap();
    assert_eq!(source.repo, "/repo");
    assert_eq!(source.default_branch.as_deref(), Some("trunk"));
}

#[test]
fn update_project_source_clears() {
    let mut store = store_with_project();
    update_project_source(
        &mut store,
        "rdm",
        Some(Source {
            repo: "/repo".to_string(),
            default_branch: None,
        }),
    )
    .unwrap();
    let doc = update_project_source(&mut store, "rdm", None).unwrap();
    assert!(doc.frontmatter.source.is_none());
    assert!(io::load_project(&store, "rdm")
        .unwrap()
        .frontmatter
        .source
        .is_none());
}

#[test]
fn update_project_source_unknown_project() {
    let mut store = store_with_project();
    let err = update_project_source(&mut store, "nope", None).unwrap_err();
    assert!(matches!(err, Error::ProjectNotFound(name) if name == "nope"));
}

#[test]
fn update_project_source_preserves_title_and_body() {
    let mut store = store_with_project();
    let mut doc = io::load_project(&store, "rdm").unwrap();
    doc.frontmatter.title = "The rdm tool".to_string();
    doc.body = "Project notes.".to_string();
    io::write_project(&mut store, "rdm", &doc);
    let updated = update_project_source(
        &mut store,
        "rdm",
        Some(Source {
            repo: "/repo".to_string(),
            default_branch: None,
        }),
    )
    .unwrap();
    assert_eq!(updated.frontmatter.title, "The rdm tool");
    assert_eq!(updated.body.trim_end(), "Project notes.");
}

// -- task --

fn setup_demo() -> MemoryStore {
    let mut store = MemoryStore::new();
    init(&mut store).unwrap();
    create_project(&mut store, "demo", "Demo").unwrap();
    store
}

fn seed(store: &mut MemoryStore, slug: &str, tags: &[&str], body: &str) {
    create_task(
        store,
        CreateTask {
            project: "demo",
            slug,
            title: slug,
            priority: Priority::Medium,
            tags: if tags.is_empty() {
                None
            } else {
                Some(tags.iter().map(|s| s.to_string()).collect())
            },
            body: Some(body),
        },
    )
    .unwrap();
}

#[test]
fn merge_dedups_overlapping_tags() {
    let mut store = setup_demo();
    seed(&mut store, "survivor", &["a", "b"], "S.");
    seed(&mut store, "dup", &["b", "c"], "D.");
    let (survivor, _) = merge_tasks(&mut store, "demo", "survivor", &["dup".to_string()]).unwrap();
    assert_eq!(
        survivor.frontmatter.tags,
        Some(vec!["a".to_string(), "b".to_string(), "c".to_string()])
    );
}

#[test]
fn merge_dedups_repeated_from_slugs() {
    let mut store = setup_demo();
    seed(&mut store, "survivor", &[], "S.");
    seed(&mut store, "dup", &["x"], "D.");
    let (survivor, closed) = merge_tasks(
        &mut store,
        "demo",
        "survivor",
        &["dup".to_string(), "dup".to_string()],
    )
    .unwrap();
    assert_eq!(closed.len(), 1);
    assert_eq!(
        survivor.body.matches("## Merged from task `dup`").count(),
        1
    );
}

#[test]
fn set_close_reason_arms() {
    let mut store = setup_demo();
    seed(&mut store, "t", &[], "Body.");

    let doc = set_task_close_reason(
        &mut store,
        "demo",
        "t",
        ReasonUpdate::SetTo("retired".to_string()),
    )
    .unwrap();
    assert_eq!(doc.frontmatter.close_reason.as_deref(), Some("retired"));

    let doc = set_task_close_reason(&mut store, "demo", "t", ReasonUpdate::Keep).unwrap();
    assert_eq!(doc.frontmatter.close_reason.as_deref(), Some("retired"));

    let doc = set_task_close_reason(&mut store, "demo", "t", ReasonUpdate::Clear).unwrap();
    assert_eq!(doc.frontmatter.close_reason, None);
}

#[test]
fn set_close_reason_unknown_task_errors() {
    let mut store = setup_demo();
    let err = set_task_close_reason(&mut store, "demo", "ghost", ReasonUpdate::Clear).unwrap_err();
    assert!(matches!(err, Error::TaskNotFound(ref s) if s == "ghost"));
}

fn task(status: TaskStatus, priority: Priority, tags: &[&str]) -> Task {
    Task {
        project: "demo".to_string(),
        title: "A task".to_string(),
        status,
        priority,
        created: Date::new(2026, 1, 1),
        tags: if tags.is_empty() {
            None
        } else {
            Some(tags.iter().map(|s| s.to_string()).collect())
        },
        completed: None,
        commit: None,
        review_sha: None,
        review_branch: None,
        close_reason: None,
    }
}

#[test]
fn default_filter_keeps_active_tasks() {
    let filter = TaskFilter::default();
    assert!(task_matches(&task(TaskStatus::Open, Priority::Medium, &[]), &filter));
    assert!(task_matches(&task(TaskStatus::InProgress, Priority::Medium, &[]), &filter));
    assert!(task_matches(&task(TaskStatus::NeedsReview, Priority::Medium, &[]), &filter));
    assert!(task_matches(&task(TaskStatus::Reviewed, Priority::Medium, &[]), &filter));
    assert!(!task_matches(&task(TaskStatus::Done, Priority::Medium, &[]), &filter));
    assert!(!task_matches(&task(TaskStatus::WontFix, Priority::Medium, &[]), &filter));
}

#[test]
fn all_status_keeps_every_status() {
    let filter = TaskFilter {
        status: Some(TaskStatusFilter::All),
        ..Default::default()
    };
    for status in [
        TaskStatus::Open,
        TaskStatus::InProgress,
        TaskStatus::NeedsReview,
        TaskStatus::Reviewed,
        TaskStatus::Done,
        TaskStatus::WontFix,
    ] {
        assert!(task_matches(&task(status, Priority::Low, &[]), &filter));
    }
}

#[test]
fn exact_status_matches_only_that_status() {
    let filter = TaskFilter {
        status: Some(TaskStatusFilter::Status(TaskStatus::Done)),
        ..Default::default()
    };
    assert!(task_matches(&task(TaskStatus::Done, Priority::Low, &[]), &filter));
    assert!(!task_matches(&task(TaskStatus::Open, Priority::Low, &[]), &filter));
}

#[test]
fn priority_filter_matches_exactly() {
    let filter = TaskFilter {
        status: Some(TaskStatusFilter::All),
        priority: Some(Priority::High),
        ..Default::default()
    };
    assert!(task_matches(&task(TaskStatus::Open, Priority::High, &[]), &filter));
    assert!(!task_matches(&task(TaskStatus::Open, Priority::Low, &[]), &filter));
}

#[test]
fn single_tag_filter() {
    let filter = TaskFilter {
        status: Some(TaskStatusFilter::All),
        tags: vec!["bug".to_string()],
        ..Default::default()
    };
    assert!(task_matches(&task(TaskStatus::Open, Priority::Low, &["bug", "ui"]), &filter));
    assert!(!task_matches(&task(TaskStatus::Open, Priority::Low, &["ui"]), &filter));
    assert!(!task_matches(&task(TaskStatus::Open, Priority::Low, &[]), &filter));
}

#[test]
fn multi_tag_filter_is_and() {
    let filter = TaskFilter {
        status: Some(TaskStatusFilter::All),
        tags: vec!["bug".to_string(), "ui".to_string()],
        ..Default::default()
    };
    assert!(task_matches(
        &task(TaskStatus::Open, Priority::Low, &["bug", "ui", "extra"]),
        &filter
    ));
    assert!(!task_matches(&task(TaskStatus::Open, Priority::Low, &["bug"]), &filter));
}

#[test]
fn empty_tag_filter_imposes_no_constraint() {
    let filter = TaskFilter {
        status: Some(TaskStatusFilter::All),
        ..Default::default()
    };
    assert!(task_matches(&task(TaskStatus::Open, Priority::Low, &[]), &filter));
}

#[test]
fn filter_tasks_keeps_matching_in_order() {
    let tasks = vec![
        (
            "a".to_string(),
            Document {
                frontmatter: task(TaskStatus::Open, Priority::Low, &[]),
                body: String::new(),
            },
        ),
        (
            "b".to_string(),
            Document {
                frontmatter: task(TaskStatus::Done, Priority::Low, &[]),
                body: String::new(),
            },
        ),
        (
            "c".to_string(),
            Document {
                frontmatter: task(TaskStatus::InProgress, Priority::Low, &[]),
                body: String::new(),
            },
        ),
    ];
    let kept = filter_tasks(tasks, &TaskFilter::default());
    let slugs: Vec<&str> = kept.iter().map(|(s, _)| s.as_str()).collect();
    assert_eq!(slugs, vec!["a", "c"]);
}

// -- update --

#[test]
fn body_from_args_maps_each_combination() {
    assert_eq!(BodyUpdate::from_args(None, false).unwrap(), BodyUpdate::Keep);
    assert_eq!(
        BodyUpdate::from_args(Some("hi".to_string()), false).unwrap(),
        BodyUpdate::SetTo("hi".to_string())
    );
    assert_eq!(BodyUpdate::from_args(None, true).unwrap(), BodyUpdate::Clear);
}

#[test]
fn from_args_rejects_value_and_clear_together() {
    let err = BodyUpdate::from_args(Some(String::new()), true).unwrap_err();
    assert_eq!(err.message(), "cannot set both 'body' and 'clear_body'");
    assert!(matches!(err, Error::ConflictingUpdate { field } if field == "body"));

    let err = TagsUpdate::from_args(Some(vec![]), true).unwrap_err();
    assert!(matches!(err, Error::ConflictingUpdate { field } if field == "tags"));

    let err = PriorityUpdate::from_args(Some(Priority::High), true).unwrap_err();
    assert_eq!(err.message(), "cannot set both 'priority' and 'clear_priority'");
    assert!(matches!(err, Error::ConflictingUpdate { field } if field == "priority"));

    let err = DifficultyUpdate::from_args(Some(Difficulty::Hard), true).unwrap_err();
    assert_eq!(err.message(), "cannot set both 'difficulty' and 'clear_difficulty'");
    assert!(matches!(err, Error::ConflictingUpdate { field } if field == "difficulty"));

    let err = ModelTierUpdate::from_args(Some(ModelTier::Large), true).unwrap_err();
    assert_eq!(err.message(), "cannot set both 'model' and 'clear_model'");
    assert!(matches!(err, Error::ConflictingUpdate { field } if field == "model"));
}

#[test]
fn difficulty_apply_arms() {
    let mut d = Some(Difficulty::Hard);
    DifficultyUpdate::Keep.apply(&mut d);
    assert_eq!(d, Some(Difficulty::Hard));
    let mut d = None;
    DifficultyUpdate::Keep.apply(&mut d);
    assert_eq!(d, None);

    let mut d = None;
    DifficultyUpdate::SetTo(Difficulty::Easy).apply(&mut d);
    assert_eq!(d, Some(Difficulty::Easy));
    DifficultyUpdate::SetTo(Difficulty::Moderate).apply(&mut d);
    assert_eq!(d, Some(Difficulty::Moderate));

    DifficultyUpdate::Clear.apply(&mut d);
    assert_eq!(d, None);
}

#[test]
fn model_tier_apply_arms() {
    let mut m = Some(ModelTier::Large);
    ModelTierUpdate::Keep.apply(&mut m);
    assert_eq!(m, Some(ModelTier::Large));

    let mut m = None;
    ModelTierUpdate::SetTo(ModelTier::Small).apply(&mut m);
    assert_eq!(m, Some(ModelTier::Small));
    ModelTierUpdate::SetTo(ModelTier::Medium).apply(&mut m);
    assert_eq!(m, Some(ModelTier::Medium));

    ModelTierUpdate::Clear.apply(&mut m);
    assert_eq!(m, None);
}

// -- tag --

fn setup_acme() -> MemoryStore {
    let mut store = MemoryStore::new();
    init(&mut store).unwrap();
    create_project(&mut store, "acme", "Acme Corp").unwrap();
    store
}

fn acme_task(store: &mut MemoryStore, slug: &str, tags: Option<Vec<String>>) {
    create_task(
        store,
        CreateTask {
            project: "acme",
            slug,
            title: slug,
            priority: Priority::Medium,
            tags,
            body: None,
        },
    )
    .unwrap();
}

fn acme_roadmap(store: &mut MemoryStore, slug: &str, tags: Option<Vec<String>>) {
    create_roadmap(store, "acme", slug, slug, None, None).unwrap();
    let mut doc = io::load_roadmap(store, "acme", slug).unwrap();
    doc.frontmatter.tags = tags;
    io::write_roadmap(store, "acme", slug, &doc);
}

fn tags(v: &[&str]) -> Option<Vec<String>> {
    Some(v.iter().map(|s| (*s).to_string()).collect())
}

fn mark_done(store: &mut MemoryStore, project: &str, slug: &str, status: TaskStatus) {
    update_task(
        store,
        project,
        slug,
        Some(status),
        None,
        TagsUpdate::Keep,
        BodyUpdate::Keep,
        None,
        None,
        None,
        TitleUpdate::Keep,
    )
    .unwrap();
}

#[test]
fn counts_tags_across_roadmaps_and_tasks() {
    let mut store = setup_acme();
    acme_roadmap(&mut store, "alpha", tags(&["cli"]));
    acme_task(&mut store, "t1", tags(&["cli", "bug"]));
    acme_task(&mut store, "t2", tags(&["cli"]));

    let out = tag_list(&store, "acme").unwrap();
    assert_eq!(
        out,
        vec![
            TagCount {
                tag: "cli".to_string(),
                count: 3,
                roadmaps: 1,
                tasks: 2,
            },
            TagCount {
                tag: "bug".to_string(),
                count: 1,
                roadmaps: 0,
                tasks: 1,
            },
        ]
    );
}

#[test]
fn untagged_items_contribute_nothing() {
    let mut store = setup_acme();
    acme_roadmap(&mut store, "alpha", None);
    acme_task(&mut store, "t1", None);
    assert!(tag_list(&store, "acme").unwrap().is_empty());
}

#[test]
fn duplicate_tag_within_one_item_counts_once() {
    let mut store = setup_acme();
    acme_task(&mut store, "t1", tags(&["cli", "cli"]));
    let out = tag_list(&store, "acme").unwrap();
    assert_eq!(out.len(), 1);
    assert_eq!(out[0].count, 1);
    assert_eq!(out[0].tasks, 1);
}

#[test]
fn empty_project_returns_empty_vec() {
    let store = setup_acme();
    assert!(tag_list(&store, "acme").unwrap().is_empty());
}

#[test]
fn unknown_project_is_project_not_found() {
    let store = MemoryStore::new();
    let err = tag_list(&store, "nope").unwrap_err();
    assert!(matches!(err, Error::ProjectNotFound(_)));
}

#[test]
fn ordering_is_count_desc_then_tag_asc() {
    let mut store = setup_acme();
    acme_task(&mut store, "t1", tags(&["zeta", "alpha"]));
    acme_task(&mut store, "t2", tags(&["zeta", "alpha", "solo"]));

    let out = tag_list(&store, "acme").unwrap();
    let order: Vec<(&str, usize)> = out.iter().map(|t| (t.tag.as_str(), t.count)).collect();
    assert_eq!(order, vec![("alpha", 2), ("zeta", 2), ("solo", 1)]);
}

#[test]
fn terminal_tasks_are_still_counted() {
    let mut store = setup_acme();
    acme_task(&mut store, "t1", tags(&["legacy"]));
    mark_done(&mut store, "acme", "t1", TaskStatus::Done);

    let out = tag_list(&store, "acme").unwrap();
    assert_eq!(out.len(), 1);
    assert_eq!(out[0].tag, "legacy");
    assert_eq!(out[0].count, 1);
}

#[test]
fn tags_are_compared_verbatim_without_case_folding() {
    let mut store = setup_acme();
    acme_task(&mut store, "t1", tags(&["CLI"]));
    acme_task(&mut store, "t2", tags(&["cli"]));

    let out = tag_list(&store, "acme").unwrap();
    let names: Vec<&str> = out.iter().map(|t| t.tag.as_str()).collect();
    assert_eq!(names, vec!["CLI", "cli"]);
    assert!(out.iter().all(|t| t.count == 1));
}

// -- reviews --

use rdm_core::model::{
    CommentDocKind, Project, Review, ReviewComment, ReviewCommentStatus, ReviewState, ReviewTarget,
    ReviewTargetKind, Timestamp, Verdict,
};
use rdm_core::ops::phase::create_phase;
use rdm_core::model::ReviewCommentStatus::Open;
use rdm_core::ops::reviews::{
    change_requests, count_open_reviews, count_open_reviews_in, create_review, filter_reviews,
    generate_review_id, list_reviews, next_available_review_id, parse_comment_doc_ref,
    parse_review_target_ref, review_matches, set_summary, submit_review, CreateReview,
    ReviewCounts, ReviewFilter, MAX_ID_ATTEMPTS,
};

fn setup_test_store() -> MemoryStore {
    let mut store = MemoryStore::new();
    let project_doc = Document {
        frontmatter: Project {
            name: "test".to_string(),
            title: "Test Project".to_string(),
            source: None,
        },
        body: String::new(),
    };
    io::write_project(&mut store, "test", &project_doc);
    store
}

fn at(year: u32, month: u32, day: u32, hour: u32, minute: u32, second: u32) -> Timestamp {
    Timestamp {
        date: Date::new(year, month, day),
        hour,
        minute,
        second,
    }
}

fn sample_review(id: &str) -> Document<Review> {
    Document {
        frontmatter: Review {
            id: id.to_string(),
            author: "ed".to_string(),
            target: ReviewTarget::Task {
                slug: "fix-login".to_string(),
            },
            state: ReviewState::Draft,
            verdict: None,
            created: at(2026, 7, 1, 14, 30, 0),
            submitted: None,
            created_commit: None,
            comments: vec![],
        },
        body: "Review summary.".to_string(),
    }
}

#[test]
fn list_reviews_sorted_by_id() {
    let mut store = setup_test_store();
    for id in [
        "2026-07-01-1430-zz99",
        "2026-06-30-0900-aa11",
        "2026-07-01-0800-mm55",
    ] {
        let doc = sample_review(id);
        io::write_review(&mut store, "test", id, &doc);
    }
    let reviews = list_reviews(&store, "test").unwrap();
    assert_eq!(reviews.len(), 3);
    assert_eq!(reviews[0].0, "2026-06-30-0900-aa11");
    assert_eq!(reviews[1].0, "2026-07-01-0800-mm55");
    assert_eq!(reviews[2].0, "2026-07-01-1430-zz99");
    assert_eq!(reviews[0].1.frontmatter.id, "2026-06-30-0900-aa11");
}

#[test]
fn list_reviews_missing_dir_is_empty() {
    let store = setup_test_store();
    let reviews = list_reviews(&store, "test").unwrap();
    assert!(reviews.is_empty());
}

#[test]
fn list_reviews_project_not_found() {
    let store = MemoryStore::new();
    let result = list_reviews(&store, "nonexistent");
    assert!(matches!(result, Err(Error::ProjectNotFound(_))));
}

#[test]
fn generate_review_id_format() {
    let now = at(2026, 7, 1, 14, 30, 5);
    let id = generate_review_id(now, 0xbeef);
    assert!(id.starts_with("2026-07-01-1430-"), "got: {id}");
    let suffix = id.rsplit('-').next().unwrap();
    assert_eq!(suffix.len(), 4);
    assert!(
        suffix.chars().all(|c| c.is_ascii_hexdigit()),
        "suffix should be hex, got: {suffix}"
    );
}

#[test]
fn generate_review_id_same_instant_still_unique() {
    let now = at(2026, 7, 1, 14, 30, 5);
    let a = generate_review_id(now, 0x0001);
    let b = generate_review_id(now, 0x0002);
    assert_ne!(a, b, "distinct suffixes must break same-instant ties");
}

#[test]
fn generate_review_id_exact_value() {
    let id = generate_review_id(at(2026, 7, 1, 9, 5, 59), 0x0a1f);
    assert_eq!(id, "2026-07-01-0905-0a1f");
}

#[test]
fn next_available_review_id_returns_first_free_candidate() {
    let mut store = setup_test_store();
    io::write_review(&mut store, "test", "taken", &sample_review("taken"));
    let candidates = vec!["taken".to_string(), "free".to_string(), "later".to_string()];
    let id = next_available_review_id(&store, "test", &candidates).unwrap();
    assert_eq!(id, "free");
}

#[test]
fn next_available_review_id_exhausted_after_repeated_collisions() {
    let mut store = setup_test_store();
    io::write_review(&mut store, "test", "stuck", &sample_review("stuck"));
    let mut candidates: Vec<String> = (0..MAX_ID_ATTEMPTS).map(|_| "stuck".to_string()).collect();
    // A free candidate past the attempt limit is never reached.
    candidates.push("free".to_string());
    let result = next_available_review_id(&store, "test", &candidates);
    assert!(matches!(result, Err(Error::ReviewIdExhausted)));
}

fn review_for_filter(
    target: ReviewTarget,
    state: ReviewState,
    verdict: Option<Verdict>,
    author: &str,
) -> Review {
    Review {
        id: "2026-07-01-1430-a1b2".to_string(),
        author: author.to_string(),
        target,
        state,
        verdict,
        created: at(2026, 7, 1, 14, 30, 0),
        submitted: None,
        created_commit: None,
        comments: vec![],
    }
}

fn task_target(slug: &str) -> ReviewTarget {
    ReviewTarget::Task {
        slug: slug.to_string(),
    }
}

#[test]
fn review_filter_default_matches_everything() {
    let filter = ReviewFilter::default();
    let review = review_for_filter(task_target("a"), ReviewState::Draft, None, "ed");
    assert!(review_matches(&review, &filter));
    let review = review_for_filter(
        task_target("b"),
        ReviewState::Dismissed,
        Some(Verdict::Approve),
        "bot",
    );
    assert!(review_matches(&review, &filter));
}

#[test]
fn review_filter_by_target_exact_match() {
    let filter = ReviewFilter {
        target: Some(task_target("a")),
        ..Default::default()
    };
    let matching = review_for_filter(task_target("a"), ReviewState::Draft, None, "ed");
    assert!(review_matches(&matching, &filter));
    let other_task = review_for_filter(task_target("b"), ReviewState::Draft, None, "ed");
    assert!(!review_matches(&other_task, &filter));
    let roadmap = review_for_filter(
        ReviewTarget::Roadmap {
            roadmap: "a".to_string(),
        },
        ReviewState::Draft,
        None,
        "ed",
    );
    assert!(!review_matches(&roadmap, &filter));
}

#[test]
fn review_filter_by_target_kind() {
    let filter = ReviewFilter {
        target_kind: Some(ReviewTargetKind::Task),
        ..Default::default()
    };
    let task_a = review_for_filter(task_target("a"), ReviewState::Draft, None, "ed");
    assert!(review_matches(&task_a, &filter));
    let task_b = review_for_filter(task_target("b"), ReviewState::Draft, None, "ed");
    assert!(review_matches(&task_b, &filter));
    let roadmap = review_for_filter(
        ReviewTarget::Roadmap {
            roadmap: "a".to_string(),
        },
        ReviewState::Draft,
        None,
        "ed",
    );
    assert!(!review_matches(&roadmap, &filter));
    let phase = review_for_filter(
        ReviewTarget::Phase {
            roadmap: "a".to_string(),
            stem: "phase-1-one".to_string(),
        },
        ReviewState::Draft,
        None,
        "ed",
    );
    assert!(!review_matches(&phase, &filter));
    let filter = ReviewFilter {
        target: Some(task_target("a")),
        target_kind: Some(ReviewTargetKind::Roadmap),
        ..Default::default()
    };
    assert!(!review_matches(&task_a, &filter));
}

#[test]
fn review_filter_by_state() {
    let filter = ReviewFilter {
        state: Some(ReviewState::Submitted),
        ..Default::default()
    };
    let submitted = review_for_filter(
        task_target("a"),
        ReviewState::Submitted,
        Some(Verdict::Comment),
        "ed",
    );
    assert!(review_matches(&submitted, &filter));
    let draft = review_for_filter(task_target("a"), ReviewState::Draft, None, "ed");
    assert!(!review_matches(&draft, &filter));
}

#[test]
fn review_filter_by_verdict() {
    let filter = ReviewFilter {
        verdict: Some(Verdict::RequestChanges),
        ..Default::default()
    };
    let matching = review_for_filter(
        task_target("a"),
        ReviewState::Submitted,
        Some(Verdict::RequestChanges),
        "ed",
    );
    assert!(review_matches(&matching, &filter));
    let approve = review_for_filter(
        task_target("a"),
        ReviewState::Submitted,
        Some(Verdict::Approve),
        "ed",
    );
    assert!(!review_matches(&approve, &filter));
    let no_verdict = review_for_filter(task_target("a"), ReviewState::Draft, None, "ed");
    assert!(!review_matches(&no_verdict, &filter));
}

#[test]
fn review_filter_by_author() {
    let filter = ReviewFilter {
        author: Some("ed".to_string()),
        ..Default::default()
    };
    let ed = review_for_filter(task_target("a"), ReviewState::Draft, None, "ed");
    assert!(review_matches(&ed, &filter));
    let bot = review_for_filter(task_target("a"), ReviewState::Draft, None, "bot");
    assert!(!review_matches(&bot, &filter));
}

#[test]
fn review_filter_combines_criteria_as_and() {
    let filter = ReviewFilter {
        target: Some(task_target("a")),
        target_kind: Some(ReviewTargetKind::Task),
        state: Some(ReviewState::Submitted),
        verdict: Some(Verdict::Approve),
        author: Some("ed".to_string()),
    };
    let all_match = review_for_filter(
        task_target("a"),
        ReviewState::Submitted,
        Some(Verdict::Approve),
        "ed",
    );
    assert!(review_matches(&all_match, &filter));
    let wrong_author = review_for_filter(
        task_target("a"),
        ReviewState::Submitted,
        Some(Verdict::Approve),
        "bot",
    );
    assert!(!review_matches(&wrong_author, &filter));
}

#[test]
fn filter_reviews_keeps_matching_in_order() {
    let reviews = vec![
        (
            "r1".to_string(),
            Document {
                frontmatter: review_for_filter(task_target("a"), ReviewState::Draft, None, "ed"),
                body: String::new(),
            },
        ),
        (
            "r2".to_string(),
            Document {
                frontmatter: review_for_filter(
                    task_target("a"),
                    ReviewState::Submitted,
                    Some(Verdict::Approve),
                    "ed",
                ),
                body: String::new(),
            },
        ),
        (
            "r3".to_string(),
            Document {
                frontmatter: review_for_filter(task_target("a"), ReviewState::Draft, None, "bot"),
                body: String::new(),
            },
        ),
    ];
    let filter = ReviewFilter {
        state: Some(ReviewState::Draft),
        ..Default::default()
    };
    let kept = filter_reviews(reviews, &filter);
    let ids: Vec<&str> = kept.iter().map(|(id, _)| id.as_str()).collect();
    assert_eq!(ids, vec!["r1", "r3"]);
}

fn write_review_with(
    store: &mut MemoryStore,
    id: &str,
    state: ReviewState,
    verdict: Option<Verdict>,
) {
    let mut doc = sample_review(id);
    doc.frontmatter.state = state;
    doc.frontmatter.verdict = verdict;
    io::write_review(store, "test", id, &doc);
}

#[test]
fn change_requests_keeps_only_submitted_request_changes() {
    let mut store = setup_test_store();
    write_review_with(
        &mut store,
        "2026-07-01-0900-aaaa",
        ReviewState::Submitted,
        Some(Verdict::RequestChanges),
    );
    write_review_with(
        &mut store,
        "2026-07-01-1000-bbbb",
        ReviewState::Submitted,
        Some(Verdict::RequestChanges),
    );
    let queue = change_requests(&store, "test").unwrap();
    let ids: Vec<&str> = queue.iter().map(|(id, _)| id.as_str()).collect();
    assert_eq!(ids, vec!["2026-07-01-0900-aaaa", "2026-07-01-1000-bbbb"]);
}

#[test]
fn change_requests_excludes_drafts_approvals_and_terminal_reviews() {
    let mut store = setup_test_store();
    write_review_with(&mut store, "r-draft", ReviewState::Draft, None);
    write_review_with(
        &mut store,
        "r-approve",
        ReviewState::Submitted,
        Some(Verdict::Approve),
    );
    write_review_with(
        &mut store,
        "r-comment",
        ReviewState::Submitted,
        Some(Verdict::Comment),
    );
    write_review_with(
        &mut store,
        "r-addressed",
        ReviewState::Addressed,
        Some(Verdict::RequestChanges),
    );
    write_review_with(
        &mut store,
        "r-dismissed",
        ReviewState::Dismissed,
        Some(Verdict::RequestChanges),
    );
    write_review_with(
        &mut store,
        "r-live",
        ReviewState::Submitted,
        Some(Verdict::RequestChanges),
    );
    let queue = change_requests(&store, "test").unwrap();
    assert_eq!(queue.len(), 1);
    assert_eq!(queue[0].0, "r-live");
}

#[test]
fn change_requests_project_not_found() {
    let store = MemoryStore::new();
    let result = change_requests(&store, "nonexistent");
    assert!(matches!(result, Err(Error::ProjectNotFound(_))));
}

fn setup_store_with_items() -> MemoryStore {
    let mut store = setup_test_store();
    create_roadmap(&mut store, "test", "alpha", "Alpha", None, None).unwrap();
    create_phase(&mut store, "test", "alpha", "one", "One", Some(1), None, None).unwrap();
    create_task(
        &mut store,
        CreateTask {
            project: "test",
            slug: "fix-login",
            title: "Fix login",
            ..Default::default()
        },
    )
    .unwrap();
    store
}

#[test]
fn parse_target_ref_roadmap() {
    let store = setup_store_with_items();
    let target = parse_review_target_ref(&store, "test", "roadmap/alpha").unwrap();
    assert_eq!(
        target,
        ReviewTarget::Roadmap {
            roadmap: "alpha".to_string()
        }
    );
}

#[test]
fn parse_target_ref_task() {
    let store = setup_store_with_items();
    let target = parse_review_target_ref(&store, "test", "task/fix-login").unwrap();
    assert_eq!(
        target,
        ReviewTarget::Task {
            slug: "fix-login".to_string()
        }
    );
}

#[test]
fn parse_target_ref_phase_by_stem() {
    let store = setup_store_with_items();
    let target = parse_review_target_ref(&store, "test", "phase/alpha/phase-1-one").unwrap();
    assert_eq!(
        target,
        ReviewTarget::Phase {
            roadmap: "alpha".to_string(),
            stem: "phase-1-one".to_string(),
        }
    );
}

#[test]
fn parse_target_ref_phase_by_number() {
    let store = setup_store_with_items();
    let target = parse_review_target_ref(&store, "test", "phase/alpha/1").unwrap();
    assert_eq!(
        target,
        ReviewTarget::Phase {
            roadmap: "alpha".to_string(),
            stem: "phase-1-one".to_string(),
        }
    );
}

#[test]
fn parse_target_ref_rejects_malformed() {
    let store = setup_store_with_items();
    for bad in [
        "",
        "alpha",
        "roadmap/",
        "roadmap/a/b",
        "task/",
        "task/a/b",
        "phase/alpha",
        "phase//1",
        "phase/alpha/",
        "phase/alpha/1/extra",
        "widget/alpha",
    ] {
        let err = parse_review_target_ref(&store, "test", bad).unwrap_err();
        assert!(
            matches!(err, Error::InvalidReviewTargetRef(_)),
            "{bad:?} should be invalid, got {err:?}"
        );
        assert!(
            err.message().contains("roadmap/<slug>"),
            "error must show accepted forms: {}",
            err.message()
        );
    }
}

#[test]
fn parse_target_ref_unknown_phase_number_errors() {
    let store = setup_store_with_items();
    let err = parse_review_target_ref(&store, "test", "phase/alpha/9").unwrap_err();
    assert!(matches!(err, Error::PhaseNotFound(_)), "got {err:?}");
}

#[test]
fn parse_comment_doc_ref_by_stem_and_number() {
    let store = setup_store_with_items();
    let doc = parse_comment_doc_ref(&store, "test", "alpha", "phase/phase-1-one").unwrap();
    assert_eq!(doc.stem, "phase-1-one");
    let doc = parse_comment_doc_ref(&store, "test", "alpha", "phase/1").unwrap();
    assert_eq!(doc.stem, "phase-1-one");
    assert_eq!(doc.kind, CommentDocKind::Phase);
}

#[test]
fn parse_comment_doc_ref_rejects_malformed() {
    let store = setup_store_with_items();
    for bad in ["", "phase-1-one", "phase/", "phase/a/b", "task/x"] {
        let err = parse_comment_doc_ref(&store, "test", "alpha", bad).unwrap_err();
        assert!(
            matches!(err, Error::InvalidCommentDocRef(_)),
            "{bad:?} should be invalid, got {err:?}"
        );
    }
}

fn draft_on_fix_login(store: &mut MemoryStore, body: &str) -> String {
    let doc = create_review(
        store,
        CreateReview {
            project: "test",
            author: "ed",
            target: ReviewTarget::Task {
                slug: "fix-login".to_string(),
            },
            body: Some(body),
        },
        &vec![0x1a2b, 0x3c4d],
    )
    .unwrap();
    doc.frontmatter.id.clone()
}

#[test]
fn set_summary_replaces_draft_body() {
    let mut store = setup_store_with_items();
    let id = draft_on_fix_login(&mut store, "first draft");
    let updated = set_summary(
        &mut store,
        "test",
        &id,
        BodyUpdate::SetTo("final summary".to_string()),
    )
    .unwrap();
    assert_eq!(updated.body, "final summary");
}

#[test]
fn set_summary_rejects_empty_clobber_without_clear() {
    let mut store = setup_store_with_items();
    let id = draft_on_fix_login(&mut store, "existing summary");
    let err = set_summary(&mut store, "test", &id, BodyUpdate::SetTo(String::new())).unwrap_err();
    assert!(matches!(err, Error::BodyClobberRefused), "got {err:?}");
    let cleared = set_summary(&mut store, "test", &id, BodyUpdate::Clear).unwrap();
    assert_eq!(cleared.body, "");
}

#[test]
fn set_summary_rejects_submitted_review() {
    let mut store = setup_store_with_items();
    let id = draft_on_fix_login(&mut store, "summary");
    let submitted = submit_review(&mut store, "test", &id, Some(Verdict::Approve)).unwrap();
    assert_eq!(submitted.frontmatter.state, ReviewState::Submitted);
    assert!(submitted.frontmatter.submitted.is_some());
    let err = set_summary(
        &mut store,
        "test",
        &id,
        BodyUpdate::SetTo("late edit".to_string()),
    )
    .unwrap_err();
    assert!(matches!(err, Error::ReviewNotDraft(_)), "got {err:?}");
}

#[test]
fn create_review_id_has_minute_and_suffix_and_skips_taken() {
    let mut store = setup_store_with_items();
    let first = draft_on_fix_login(&mut store, "one");
    assert_eq!(first.len(), "2026-07-01-1430-1a2b".len());
    assert!(first.ends_with("-1a2b"));
    let second = draft_on_fix_login(&mut store, "two");
    if second[..15] == first[..15] {
        assert!(second.ends_with("-3c4d"));
    }
    let missing = create_review(
        &mut store,
        CreateReview {
            project: "test",
            author: "ed",
            target: task_target("nope"),
            body: None,
        },
        &vec![1],
    )
    .unwrap_err();
    assert!(matches!(missing, Error::ReviewTargetMissing(_)));
}

fn counted_review(
    id: &str,
    target: ReviewTarget,
    state: ReviewState,
    comment_statuses: &[ReviewCommentStatus],
) -> (String, Document<Review>) {
    let mut doc = sample_review(id);
    doc.frontmatter.target = target;
    doc.frontmatter.state = state;
    doc.frontmatter.comments = comment_statuses
        .iter()
        .enumerate()
        .map(|(i, status)| ReviewComment {
            id: (i + 1) as u32,
            doc: None,
            status: *status,
            applied_commit: None,
            anchor: None,
            body: "note".to_string(),
            reply: None,
        })
        .collect();
    (id.to_string(), doc)
}

#[test]
fn count_open_reviews_counts_only_submitted() {
    let reviews = vec![
        counted_review("r1", task_target("fix"), ReviewState::Submitted, &[Open, Open]),
        counted_review("r2", task_target("fix"), ReviewState::Draft, &[Open]),
        counted_review("r3", task_target("fix"), ReviewState::Addressed, &[Open]),
        counted_review("r4", task_target("fix"), ReviewState::Dismissed, &[Open]),
    ];
    let counts = count_open_reviews_in(&reviews);
    assert_eq!(
        counts.task("fix"),
        Some(ReviewCounts {
            open_reviews: 1,
            open_comments: 2
        })
    );
}

#[test]
fn count_open_reviews_excludes_terminal_comments() {
    let reviews = vec![counted_review(
        "r1",
        task_target("fix"),
        ReviewState::Submitted,
        &[
            ReviewCommentStatus::Open,
            ReviewCommentStatus::Addressed,
            ReviewCommentStatus::WontFix,
        ],
    )];
    let counts = count_open_reviews_in(&reviews);
    assert_eq!(
        counts.task("fix"),
        Some(ReviewCounts {
            open_reviews: 1,
            open_comments: 1
        })
    );
}

#[test]
fn count_open_reviews_rolls_phase_reviews_into_parent_roadmap() {
    let reviews = vec![
        counted_review(
            "r1",
            ReviewTarget::Roadmap {
                roadmap: "alpha".to_string(),
            },
            ReviewState::Submitted,
            &[Open],
        ),
        counted_review(
            "r2",
            ReviewTarget::Phase {
                roadmap: "alpha".to_string(),
                stem: "phase-1-one".to_string(),
            },
            ReviewState::Submitted,
            &[Open, Open],
        ),
    ];
    let counts = count_open_reviews_in(&reviews);
    assert_eq!(
        counts.roadmap("alpha"),
        Some(ReviewCounts {
            open_reviews: 2,
            open_comments: 3
        })
    );
    assert!(counts.tasks.is_empty());
}

#[test]
fn count_open_reviews_task_and_roadmap_slugs_do_not_collide() {
    let reviews = vec![
        counted_review(
            "r1",
            ReviewTarget::Roadmap {
                roadmap: "same".to_string(),
            },
            ReviewState::Submitted,
            &[Open],
        ),
        counted_review("r2", task_target("same"), ReviewState::Submitted, &[Open, Open]),
    ];
    let counts = count_open_reviews_in(&reviews);
    assert_eq!(counts.roadmap("same").unwrap().open_comments, 1);
    assert_eq!(counts.task("same").unwrap().open_comments, 2);
}

#[test]
fn count_open_reviews_empty_when_no_reviews() {
    let counts = count_open_reviews_in(&Vec::new());
    assert!(counts.roadmaps.is_empty());
    assert!(counts.tasks.is_empty());
}

#[test]
fn count_open_reviews_store_pass_matches_in_memory_pass() {
    let mut store = setup_test_store();
    let (id, doc) = counted_review(
        "2026-07-01-1200-aaaa",
        task_target("fix"),
        ReviewState::Submitted,
        &[ReviewCommentStatus::Open],
    );
    io::write_review(&mut store, "test", &id, &doc);
    let via_store = count_open_reviews(&store, "test").unwrap();
    let via_slice = count_open_reviews_in(&list_reviews(&store, "test").unwrap());
    assert_eq!(via_store.task("fix"), via_slice.task("fix"));
    assert_eq!(via_store.task("fix").unwrap().open_reviews, 1);
}

// -- problem --

use rdm_core::problem::ProblemDetail;

#[test]
fn from_project_not_found() {
    let err = Error::ProjectNotFound("foo".to_string());
    let pd = ProblemDetail::from_error(&err);
    assert_eq!(pd.status, 404);
    assert_eq!(pd.title, "Not Found");
    assert!(pd.detail.as_ref().unwrap().contains("foo"));
}

#[test]
fn from_duplicate_slug() {
    let err = Error::DuplicateSlug("bar".to_string());
    let pd = ProblemDetail::from_error(&err);
    assert_eq!(pd.status, 409);
    assert_eq!(pd.title, "Conflict");
}

#[test]
fn from_project_not_specified() {
    let err = Error::ProjectNotSpecified;
    let pd = ProblemDetail::from_error(&err);
    assert_eq!(pd.status, 400);
    assert_eq!(pd.title, "Bad Request");
}

#[test]
fn from_io_error() {
    let err = Error::Io("oops".to_string());
    let pd = ProblemDetail::from_error(&err);
    assert_eq!(pd.status, 500);
    assert!(pd.detail.is_none(), "should not leak internal details");
}

// -- root --

use rdm_core::root::{resolve_root, GlobalConfig};

#[test]
fn resolve_root_explicit_wins() {
    let global = GlobalConfig {
        root: Some("/global/root".to_string()),
    };
    let result = resolve_root(Some("/explicit/root".to_string()), &global, None).unwrap();
    assert_eq!(result, "/explicit/root");
}

#[test]
fn resolve_root_global_config_wins() {
    let global = GlobalConfig {
        root: Some("/global/root".to_string()),
    };
    let result = resolve_root(None, &global, Some("/home/u/.local/share/rdm".to_string())).unwrap();
    assert_eq!(result, "/global/root");
}

#[test]
fn resolve_root_xdg_fallback() {
    let global = GlobalConfig::default();
    let result = resolve_root(None, &global, Some("/home/u/.local/share/rdm".to_string())).unwrap();
    assert!(result.ends_with("/rdm"));
}

#[test]
fn resolve_root_error_when_nothing() {
    let global = GlobalConfig::default();
    let result = resolve_root(None, &global, None);
    assert!(matches!(result, Err(Error::RootNotDetermined)));
}

// -- backlog --

use rdm_core::ops::backlog::{ReportOptions, DEFAULT_STALE_THRESHOLD_DAYS};

#[test]
fn default_older_than_is_60() {
    assert_eq!(DEFAULT_STALE_THRESHOLD_DAYS, 60);
    assert_eq!(ReportOptions::default().older_than_days, 60);
}
