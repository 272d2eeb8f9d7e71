use rdm_core::error::Error;
use rdm_core::root::{normalize_absolute, GlobalConfig};

#[test]
fn global_config_reads_root_and_ignores_other_settings() {
    let cfg = GlobalConfig::from_toml("# global\n\nroot = \"/plans\"\neditor = \"vim\"\n").unwrap();
    assert_eq!(cfg.root.as_deref(), Some("/plans"));
}

#[test]
fn global_config_last_root_wins_and_empty_text_has_none() {
    let cfg = GlobalConfig::from_toml("root = \"/a\"\nroot = \"/b\"").unwrap();
    assert_eq!(cfg.root.as_deref(), Some("/b"));
    assert_eq!(GlobalConfig::from_toml("").unwrap(), GlobalConfig::default());
}

#[test]
fn global_config_rejects_a_line_without_a_key() {
    let err = GlobalConfig::from_toml("root = \"/a\"\njunk\n").unwrap_err();
    assert!(matches!(err, Error::ConfigParse(_)));
    let err = GlobalConfig::from_toml("root = /unquoted").unwrap_err();
    assert!(matches!(err, Error::ConfigParse(_)));
}

#[test]
fn normalize_absolute_resolves_dots_and_repeated_slashes() {
    assert_eq!(normalize_absolute("/a/./b/../c//d/"), "/a/c/d");
    assert_eq!(normalize_absolute("/../.."), "/");
    assert_eq!(normalize_absolute("/"), "/");
    assert_eq!(normalize_absolute("/tmp/plans"), "/tmp/plans");
}
