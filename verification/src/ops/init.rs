//! Setting up a new plan repo.
use vstd::prelude::*;

use crate::config::{render_config, Config};
use crate::error::{Error, Result};
use crate::paths::{config_path, index_path};
use crate::store::{EntryView, Files, MemoryStore};
use crate::text::owned;

verus! {

/// The repo index a new repo starts with.
pub open spec fn initial_index() -> Seq<char> {
    "# Plan Index\n\n<!-- This file is auto-generated by rdm. Do not edit by hand. -->\n"@
}

/// What [`init_with_config`] gives: an invalid configuration and an
/// existing `rdm.toml` are refused, otherwise the configuration and the
/// first index are written.
pub open spec fn init_post(m: Files, config: Config, r: Result<()>, m2: Files) -> bool {
    &&& (config.default_format matches Some(f) && !crate::config::known_format(f@)) ==> (r matches Err(
        e,
    ) && e is InvalidConfigValue)
    &&& (!(config.default_format matches Some(f) && !crate::config::known_format(f@))
        && m.contains_key("rdm.toml"@)) ==> (r matches Err(e) && e is AlreadyInitialized)
    &&& r is Err ==> m2 == m
    &&& (!(config.default_format matches Some(f) && !crate::config::known_format(f@))
        && !m.contains_key("rdm.toml"@)) ==> (r is Ok && m2 == m.insert(
        "rdm.toml"@,
        EntryView::Text(render_config(config@)),
    ).insert("INDEX.md"@, EntryView::Text(initial_index())))
}

/// Sets up a repo with `config`: checks it, refuses a repo that already has
/// an `rdm.toml`, writes the configuration and an empty index.
pub fn init_with_config(store: &mut MemoryStore, config: Config) -> (r: Result<()>)
    ensures
        init_post(old(store).files(), config, r, final(store).files()),
{
    config.validate()?;
    if store.file_exists(&config_path()) {
        return Err(Error::AlreadyInitialized);
    }
    let toml_str = config.to_toml()?;
    store.write(&config_path(), toml_str)?;
    store.write(
        &index_path(),
        owned("# Plan Index\n\n<!-- This file is auto-generated by rdm. Do not edit by hand. -->\n"),
    )?;
    Ok(())
}

/// Sets up a repo with the default configuration.
pub fn init(store: &mut MemoryStore) -> (r: Result<()>)
    ensures
        init_post(old(store).files(), Config { default_project: None, default_format: None, stage: None }, r, final(store).files()),
{
    init_with_config(store, Config { default_project: None, default_format: None, stage: None })
}

} // verus!
