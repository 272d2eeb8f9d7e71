
use rdm_core::model::ReviewTarget;
use rdm_core::paths::{
    archived_phase_path, archived_roadmap_dir, archived_roadmap_path, archived_roadmaps_dir,
    config_path, describe_path, phase_path, project_md_path, project_path, review_path,
    reviews_dir, roadmap_dir, roadmap_path, roadmaps_dir, task_path, tasks_dir,
};

#[test]
fn config_path_is_correct() {
    assert_eq!(config_path().as_str(), "rdm.toml");
}

#[test]
fn project_path_is_correct() {
    assert_eq!(project_path("fbm").as_str(), "projects/fbm");
}

#[test]
fn describe_path_uses_the_cli_item_vocabulary() {

    assert_eq!(
        describe_path(task_path("rdm", "fix-bug").as_str()),
        "task/fix-bug"
    );
    assert_eq!(
        describe_path(roadmap_path("rdm", "auth").as_str()),
        "roadmap/auth"
    );
    assert_eq!(
        describe_path(phase_path("rdm", "auth", "phase-1-design").as_str()),
        "phase/auth/phase-1-design"
    );
    assert_eq!(
        describe_path(review_path("rdm", "rv-abc123").as_str()),
        "review/rv-abc123"
    );

    // The spellings must match `ReviewTarget::label` exactly, or the CLI
    // ends up with two vocabularies for the same items.
    assert_eq!(
        describe_path(task_path("rdm", "fix-bug").as_str()),
        ReviewTarget::Task {
            slug: "fix-bug".to_string()
        }
        .label()
    );
    assert_eq!(
        describe_path(roadmap_path("rdm", "auth").as_str()),
        ReviewTarget::Roadmap {
            roadmap: "auth".to_string()
        }
        .label()
    );
    assert_eq!(
        describe_path(phase_path("rdm", "auth", "phase-1-design").as_str()),
        ReviewTarget::Phase {
            roadmap: "auth".to_string(),
            stem: "phase-1-design".to_string()
        }
        .label()
    );
}

#[test]
fn describe_path_maps_archived_items_to_their_own_names() {
    assert_eq!(
        describe_path(archived_roadmap_path("rdm", "auth").as_str()),
        "roadmap/auth"
    );
    assert_eq!(
        describe_path(archived_phase_path("rdm", "auth", "phase-2-ship").as_str()),
        "phase/auth/phase-2-ship"
    );
}

#[test]
fn describe_path_is_total_and_falls_back_to_the_raw_path() {
    // Files rdm does not own, and shapes it does not recognize, answer
    // with the path itself rather than panicking or inventing an item.
    for path in [
        "",
        "rdm.toml",
        ".gitattributes",
        "INDEX.md",
        "projects",
        "projects/rdm",
        "projects/rdm/INDEX.md",
        "projects/rdm/tasks/no-extension",
        "projects/rdm/tasks/nested/deep.md",
        "projects/rdm/roadmaps/auth/nested/deep.md",
        "projects/../rdm/tasks/x.md",
    ] {
        assert_eq!(describe_path(path), path, "unrecognized shape: {path:?}");
    }
}

#[test]
fn project_md_path_is_correct() {
    assert_eq!(project_md_path("fbm").as_str(), "projects/fbm/project.md");
}

#[test]
fn roadmaps_dir_is_correct() {
    assert_eq!(roadmaps_dir("fbm").as_str(), "projects/fbm/roadmaps");
}

#[test]
fn roadmap_dir_is_correct() {
    assert_eq!(
        roadmap_dir("fbm", "two-way-players").as_str(),
        "projects/fbm/roadmaps/two-way-players"
    );
}

#[test]
fn paths_roadmap_path_is_correct() {
    assert_eq!(
        roadmap_path("fbm", "two-way-players").as_str(),
        "projects/fbm/roadmaps/two-way-players/roadmap.md"
    );
}

#[test]
fn paths_phase_path_is_correct() {
    assert_eq!(
        phase_path("fbm", "two-way-players", "phase-1-core-valuation").as_str(),
        "projects/fbm/roadmaps/two-way-players/phase-1-core-valuation.md"
    );
}

#[test]
fn tasks_dir_is_correct() {
    assert_eq!(tasks_dir("fbm").as_str(), "projects/fbm/tasks");
}

#[test]
fn paths_task_path_is_correct() {
    assert_eq!(
        task_path("fbm", "fix-barrel-nulls").as_str(),
        "projects/fbm/tasks/fix-barrel-nulls.md"
    );
}

#[test]
fn reviews_dir_is_correct() {
    assert_eq!(reviews_dir("fbm").as_str(), "projects/fbm/reviews");
}

#[test]
fn review_path_is_correct() {
    assert_eq!(
        review_path("fbm", "2026-07-01-1430-a1b2").as_str(),
        "projects/fbm/reviews/2026-07-01-1430-a1b2.md"
    );
}

#[test]
fn archived_roadmaps_dir_is_correct() {
    assert_eq!(
        archived_roadmaps_dir("fbm").as_str(),
        "projects/fbm/archive/roadmaps"
    );
}

#[test]
fn archived_roadmap_dir_is_correct() {
    assert_eq!(
        archived_roadmap_dir("fbm", "alpha").as_str(),
        "projects/fbm/archive/roadmaps/alpha"
    );
}

#[test]
fn archived_roadmap_path_is_correct() {
    assert_eq!(
        archived_roadmap_path("fbm", "alpha").as_str(),
        "projects/fbm/archive/roadmaps/alpha/roadmap.md"
    );
}

#[test]
fn archived_phase_path_is_correct() {
    assert_eq!(
        archived_phase_path("fbm", "alpha", "phase-1-one").as_str(),
        "projects/fbm/archive/roadmaps/alpha/phase-1-one.md"
    );
}
