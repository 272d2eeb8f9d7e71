use rdm_core::error::Error;
use rdm_core::link::{ItemRef, Link, Resolved};
use rdm_core::model::{Priority, Project, Source};
use rdm_core::ops::init::init;
use rdm_core::ops::links::{
    build_web_url, item_ref_path, normalize_item_ref, resolve_code_link, resolve_item_link,
    resolve_link,
};
use rdm_core::ops::phase::create_phase;
use rdm_core::ops::project::create_project;
use rdm_core::ops::roadmap::create_roadmap;
use rdm_core::ops::task::{create_task, CreateTask};
use rdm_core::paths;
use rdm_core::store::MemoryStore;

fn setup() -> MemoryStore {
    let mut store = MemoryStore::new();
    init(&mut store).unwrap();
    create_project(&mut store, "demo", "Demo").unwrap();
    store
}

fn with_task(store: &mut MemoryStore) {
    create_task(
        store,
        CreateTask {
            project: "demo",
            slug: "fix-login",
            title: "Fix login",
            priority: Priority::Medium,
            tags: None,
            body: Some("Body."),
        },
    )
    .unwrap();
}

fn with_auth_design(store: &mut MemoryStore) {
    create_roadmap(store, "demo", "auth", "Auth", None, None).unwrap();
    create_phase(store, "demo", "auth", "design", "Design", Some(1), None, None).unwrap();
}

fn corrupt_design(store: &mut MemoryStore) {
    store
        .write(
            &paths::phase_path("demo", "auth", "phase-1-design"),
            "---\nphase: not-a-number\ntitle: Design\nstatus: not-started\n---\n\nBody.\n".to_string(),
        )
        .unwrap();
}

fn phase(roadmap: &str, stem: &str) -> ItemRef {
    ItemRef::Phase {
        roadmap: roadmap.to_string(),
        stem: stem.to_string(),
    }
}

fn item(target: ItemRef, exists: bool) -> Resolved {
    Resolved::Item { target, exists }
}

#[test]
fn resolve_item_link_existing_task() {
    let mut store = setup();
    with_task(&mut store);
    let target = ItemRef::Task {
        slug: "fix-login".to_string(),
    };
    let resolved = resolve_item_link(&store, "demo", &target).unwrap();
    assert_eq!(resolved, item(target, true));
}

#[test]
fn resolve_item_link_dangling_task_never_errors() {
    let store = setup();
    let target = ItemRef::Task {
        slug: "never-existed".to_string(),
    };
    let resolved = resolve_item_link(&store, "demo", &target).unwrap();
    assert_eq!(resolved, item(target, false));
}

#[test]
fn resolve_item_link_existing_roadmap() {
    let mut store = setup();
    create_roadmap(&mut store, "demo", "auth", "Auth", None, None).unwrap();
    let target = ItemRef::Roadmap {
        roadmap: "auth".to_string(),
    };
    let resolved = resolve_item_link(&store, "demo", &target).unwrap();
    assert_eq!(resolved, item(target, true));
}

#[test]
fn resolve_item_link_dangling_roadmap_never_errors() {
    let store = setup();
    let target = ItemRef::Roadmap {
        roadmap: "ghost".to_string(),
    };
    let resolved = resolve_item_link(&store, "demo", &target).unwrap();
    assert_eq!(resolved, item(target, false));
}

#[test]
fn resolve_item_link_dangling_phase_in_unknown_roadmap_never_errors() {
    let store = setup();
    let target = phase("ghost", "phase-1-design");
    let resolved = resolve_item_link(&store, "demo", &target).unwrap();
    assert_eq!(resolved, item(target, false));
}

#[test]
fn resolve_item_link_dangling_phase_numeric_stem_unknown_roadmap_never_errors() {
    let store = setup();
    let target = phase("ghost", "1");
    let resolved = resolve_item_link(&store, "demo", &target).unwrap();
    assert_eq!(resolved, item(target, false));
}

#[test]
fn resolve_item_link_dangling_phase_numeric_stem_not_found_in_known_roadmap_never_errors() {
    let mut store = setup();
    with_auth_design(&mut store);
    let target = phase("auth", "99");
    let resolved = resolve_item_link(&store, "demo", &target).unwrap();
    assert_eq!(resolved, item(target, false));
}

#[test]
fn resolve_item_link_numeric_phase_stem_propagates_frontmatter_parse_error() {
    let mut store = setup();
    with_auth_design(&mut store);
    corrupt_design(&mut store);
    let err = resolve_item_link(&store, "demo", &phase("auth", "1")).unwrap_err();
    assert!(matches!(err, Error::FrontmatterParse(_)));
}

#[test]
fn normalize_item_ref_numeric_phase_stem_propagates_frontmatter_parse_error() {
    let mut store = setup();
    with_auth_design(&mut store);
    corrupt_design(&mut store);
    let err = normalize_item_ref(&store, "demo", &phase("auth", "1")).unwrap_err();
    assert!(matches!(err, Error::FrontmatterParse(_)));
}

#[test]
fn resolve_item_link_existing_phase_by_stem() {
    let mut store = setup();
    with_auth_design(&mut store);
    let target = phase("auth", "phase-1-design");
    let resolved = resolve_item_link(&store, "demo", &target).unwrap();
    assert_eq!(resolved, item(target, true));
}

#[test]
fn resolve_item_link_existing_phase_by_number() {
    let mut store = setup();
    with_auth_design(&mut store);
    let target = phase("auth", "1");
    let resolved = resolve_item_link(&store, "demo", &target).unwrap();
    assert_eq!(resolved, item(target, true));
}

#[test]
fn item_ref_path_roadmap_and_task() {
    let store = setup();
    assert_eq!(
        item_ref_path(
            &store,
            "demo",
            &ItemRef::Roadmap {
                roadmap: "auth".to_string()
            }
        )
        .unwrap()
        .as_str(),
        "projects/demo/roadmaps/auth/roadmap.md"
    );
    assert_eq!(
        item_ref_path(
            &store,
            "demo",
            &ItemRef::Task {
                slug: "fix-login".to_string()
            }
        )
        .unwrap()
        .as_str(),
        "projects/demo/tasks/fix-login.md"
    );
}

#[test]
fn item_ref_path_normalizes_a_numeric_phase_stem_to_the_canonical_one() {
    let mut store = setup();
    with_auth_design(&mut store);
    let by_number = item_ref_path(&store, "demo", &phase("auth", "1")).unwrap();
    let by_stem = item_ref_path(&store, "demo", &phase("auth", "phase-1-design")).unwrap();
    assert_eq!(by_number, by_stem);
    assert_eq!(by_stem.as_str(), "projects/demo/roadmaps/auth/phase-1-design.md");
}

#[test]
fn item_ref_path_falls_back_to_the_stem_as_written_for_a_dangling_phase_reference() {
    let store = setup();
    let path = item_ref_path(&store, "demo", &phase("ghost", "3")).unwrap();
    assert_eq!(path.as_str(), "projects/demo/roadmaps/ghost/3.md");
}

#[test]
fn resolve_link_dispatches_item_links_to_resolve_item_link() {
    let mut store = setup();
    with_task(&mut store);
    let target = ItemRef::Task {
        slug: "fix-login".to_string(),
    };
    let via_resolve_link = resolve_link(&store, "demo", None, &Link::Item(target.clone())).unwrap();
    let via_resolve_item_link = resolve_item_link(&store, "demo", &target).unwrap();
    assert_eq!(via_resolve_link, via_resolve_item_link);
    assert_eq!(via_resolve_link, item(target, true));
}

#[test]
fn resolve_link_dispatches_code_links_and_threads_containing_commit() {
    let store = setup();
    let link = Link::Code {
        path: "src/a.rs".to_string(),
        rev: None,
        lines: Some((5, Some(12))),
    };
    let resolved = resolve_link(&store, "demo", Some("abc123"), &link).unwrap();
    assert_eq!(
        resolved,
        Resolved::Code {
            path: "src/a.rs".to_string(),
            rev: Some("abc123".to_string()),
            lines: Some((5, Some(12))),
            web_url: None,
        }
    );
}

#[test]
fn resolve_link_dispatches_code_links_and_lets_explicit_rev_win_over_containing_commit() {
    let store = setup();
    let link = Link::Code {
        path: "src/a.rs".to_string(),
        rev: Some("def456".to_string()),
        lines: None,
    };
    let resolved = resolve_link(&store, "demo", Some("abc123"), &link).unwrap();
    assert_eq!(
        resolved,
        Resolved::Code {
            path: "src/a.rs".to_string(),
            rev: Some("def456".to_string()),
            lines: None,
            web_url: None,
        }
    );
}

#[test]
fn resolve_link_code_link_errors_project_not_found() {
    let store = setup();
    let link = Link::Code {
        path: "src/a.rs".to_string(),
        rev: None,
        lines: None,
    };
    let err = resolve_link(&store, "no-such-project", None, &link).unwrap_err();
    assert!(matches!(err, Error::ProjectNotFound(name) if name == "no-such-project"));
}

fn demo_project(source: Option<Source>) -> Project {
    Project {
        name: "demo".to_string(),
        title: "Demo".to_string(),
        source,
    }
}

fn code(path: &str, rev: Option<&str>, lines: Option<(u32, Option<u32>)>, web_url: Option<&str>) -> Resolved {
    Resolved::Code {
        path: path.to_string(),
        rev: rev.map(String::from),
        lines,
        web_url: web_url.map(String::from),
    }
}

#[test]
fn resolve_code_link_falls_back_to_containing_commit() {
    let resolved = resolve_code_link(&demo_project(None), Some("abc123"), "a/b.rs", None, None).unwrap();
    assert_eq!(resolved, code("a/b.rs", Some("abc123"), None, None));
}

#[test]
fn resolve_code_link_explicit_rev_overrides_stamp() {
    let resolved =
        resolve_code_link(&demo_project(None), Some("abc123"), "a/b.rs", Some("def456"), None).unwrap();
    assert_eq!(resolved, code("a/b.rs", Some("def456"), None, None));
}

#[test]
fn resolve_code_link_no_stamp_no_explicit_rev_is_none() {
    let resolved = resolve_code_link(&demo_project(None), None, "a/b.rs", None, None).unwrap();
    assert_eq!(resolved, code("a/b.rs", None, None, None));
}

#[test]
fn build_web_url_trailing_slash_is_normalized() {
    let with_slash = build_web_url("https://github.com/org/repo/", "main", "a/b.rs", None);
    let without_slash = build_web_url("https://github.com/org/repo", "main", "a/b.rs", None);
    assert_eq!(with_slash, without_slash);
    assert_eq!(with_slash, "https://github.com/org/repo/blob/main/a/b.rs");
}

#[test]
fn build_web_url_line_fragment_formats() {
    assert_eq!(
        build_web_url("https://github.com/org/repo", "main", "a.rs", Some((5, None))),
        "https://github.com/org/repo/blob/main/a.rs#L5"
    );
    assert_eq!(
        build_web_url("https://github.com/org/repo", "main", "a.rs", Some((5, Some(5)))),
        "https://github.com/org/repo/blob/main/a.rs#L5"
    );
    assert_eq!(
        build_web_url("https://github.com/org/repo", "main", "a.rs", Some((5, Some(12)))),
        "https://github.com/org/repo/blob/main/a.rs#L5-L12"
    );
}

#[test]
fn resolve_code_link_no_source_yields_no_web_url() {
    let resolved = resolve_code_link(&demo_project(None), Some("abc123"), "a/b.rs", None, None).unwrap();
    assert!(matches!(resolved, Resolved::Code { web_url: None, .. }));
}

#[test]
fn resolve_code_link_with_source_and_rev_builds_url() {
    let project = demo_project(Some(Source {
        repo: "https://github.com/org/repo".to_string(),
        default_branch: None,
    }));
    let resolved = resolve_code_link(&project, Some("abc123"), "a/b.rs", None, Some((5, Some(12)))).unwrap();
    assert_eq!(
        resolved,
        code(
            "a/b.rs",
            Some("abc123"),
            Some((5, Some(12))),
            Some("https://github.com/org/repo/blob/abc123/a/b.rs#L5-L12")
        )
    );
}

#[test]
fn resolve_code_link_with_source_no_rev_falls_back_to_default_branch() {
    let project = demo_project(Some(Source {
        repo: "https://github.com/org/repo".to_string(),
        default_branch: Some("develop".to_string()),
    }));
    let resolved = resolve_code_link(&project, None, "a/b.rs", None, None).unwrap();
    assert_eq!(
        resolved,
        code("a/b.rs", None, None, Some("https://github.com/org/repo/blob/develop/a/b.rs"))
    );
}

#[test]
fn resolve_code_link_with_source_no_rev_no_default_branch_falls_back_to_main() {
    let project = demo_project(Some(Source {
        repo: "https://github.com/org/repo".to_string(),
        default_branch: None,
    }));
    let resolved = resolve_code_link(&project, None, "a/b.rs", None, None).unwrap();
    assert_eq!(
        resolved,
        code("a/b.rs", None, None, Some("https://github.com/org/repo/blob/main/a/b.rs"))
    );
}

#[test]
fn resolve_item_link_plan_reference_checks_the_plan_file() {
    let mut store = setup();
    let target = ItemRef::Plan {
        slug: "impl-auth".to_string(),
    };
    assert_eq!(resolve_item_link(&store, "demo", &target).unwrap(), item(target.clone(), false));
    store
        .write(&paths::plan_path("demo", "impl-auth"), "plan".to_string())
        .unwrap();
    assert_eq!(resolve_item_link(&store, "demo", &target).unwrap(), item(target, true));
}

#[test]
fn normalize_item_ref_keeps_other_references() {
    let mut store = setup();
    with_auth_design(&mut store);
    assert_eq!(
        normalize_item_ref(&store, "demo", &phase("auth", "1")).unwrap(),
        phase("auth", "phase-1-design")
    );
    assert_eq!(
        normalize_item_ref(&store, "demo", &phase("ghost", "2")).unwrap(),
        phase("ghost", "2")
    );
    let task = ItemRef::Task {
        slug: "t".to_string(),
    };
    assert_eq!(normalize_item_ref(&store, "demo", &task).unwrap(), task);
}

#[test]
fn a_change_target_has_no_plan_repo_document() {
    let store = setup();
    let target = ItemRef::Change {
        head: "a".repeat(40),
        base: None,
    };
    assert!(matches!(
        rdm_core::ops::links::resolve_item_link(&store, "demo", &target).unwrap(),
        Resolved::Broken { .. }
    ));
    assert!(matches!(
        rdm_core::ops::links::item_ref_path(&store, "demo", &target).unwrap_err(),
        Error::ChangeTargetHasNoDocument(_)
    ));
    assert!(matches!(
        rdm_core::ops::links::load_document_body(&store, "demo", &target).unwrap_err(),
        Error::ChangeTargetHasNoDocument(_)
    ));
}

#[test]
fn a_change_target_is_labelled_by_its_commits() {
    let store = setup();
    let target = ItemRef::Change { head: "bbb".to_string(), base: Some("aaa".to_string()) };
    assert_eq!(target.label(), "change/aaa..bbb");
    let err = rdm_core::ops::links::load_document_body(&store, "demo", &target).unwrap_err();
    assert_eq!(err, Error::ChangeTargetHasNoDocument("change/aaa..bbb".to_string()));
    assert!(err.message().contains("names commits in the source repository"));
    match rdm_core::ops::links::resolve_item_link(&store, "demo", &ItemRef::Change { head: "bbb".to_string(), base: None }).unwrap() {
        Resolved::Broken { reason } => assert!(reason.starts_with("change/bbb names commits")),
        other => panic!("expected a broken link, got {other:?}"),
    }
}
