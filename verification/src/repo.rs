//! A plan repo: the operations over one store.
use vstd::prelude::*;

use crate::config::{parse_config, render_config, single_line, Config};
use crate::error::{Error, Result};
use crate::io::{phase_at, project_at, roadmap_at, task_at};
use crate::model::{Document, Phase, PhaseStatus, Priority, Project, Roadmap, Task, TaskStatus};
use crate::ops;
use crate::ops::phase::{lists_archived_phases, lists_phases};
use crate::ops::task::{lists_tasks, CreateTask};
use crate::ops::update::{BodyUpdate, TagsUpdate, TitleUpdate};
use crate::paths;
use crate::paths::{
    archived_roadmap_dir_spec, archived_roadmap_path_spec, archived_roadmaps_dir_spec,
    phase_path_spec, project_dir_spec, project_index_spec, project_md_spec, roadmap_dir_spec,
    roadmap_path_spec, roadmaps_dir_spec, task_path_spec, tasks_dir_spec,
};
use crate::store::{EntryView, Files, MemoryStore, RelPath};
use crate::text::owned;

verus! {

/// A plan repo over its store.
pub struct PlanRepo<S> {
    store: S,
}

/// Whether `b` is the body update that an optional new body asks for.
pub open spec fn body_update_for(b: BodyUpdate, body: Option<&str>) -> bool {
    match body {
        Some(s) => b matches BodyUpdate::SetTo(x) && x@ == s@,
        None => b == BodyUpdate::Keep,
    }
}

/// Whether `t` is the tags update that an optional tag list asks for.
pub open spec fn tags_update_for(t: TagsUpdate, tags: Option<Vec<String>>) -> bool {
    match tags {
        Some(v) => t matches TagsUpdate::SetTo(x) && x.deep_view() == v.deep_view(),
        None => t == TagsUpdate::Keep,
    }
}

fn body_update(body: Option<&str>) -> (r: BodyUpdate)
    ensures
        body_update_for(r, body),
{
    match body {
        Some(b) => BodyUpdate::SetTo(owned(b)),
        None => BodyUpdate::Keep,
    }
}

/// What [`PlanRepo::load_config`] gives on `m`.
pub open spec fn load_config_post(m: Files, r: Result<Config>) -> bool {
    &&& !m.contains_key("rdm.toml"@) ==> (r matches Err(Error::ConfigNotFound))
    &&& m.contains_key("rdm.toml"@) ==> (match m["rdm.toml"@] {
        EntryView::Text(t) => match parse_config(t) {
            Some(c) => (r matches Ok(cfg) && cfg@ == c),
            None => (r matches Err(e) && e is ConfigParse),
        },
        _ => (r matches Err(e) && e is Io),
    })
}

impl PlanRepo<MemoryStore> {
    /// The files of the repo.
    pub closed spec fn files(self) -> Files {
        self.store.files()
    }

    /// A repo over `store`, as it is.
    pub fn new(store: MemoryStore) -> (r: PlanRepo<MemoryStore>)
        ensures
            r.files() == store.files(),
    {
        PlanRepo { store }
    }

    /// The store.
    pub fn store(&self) -> (r: &MemoryStore)
        ensures
            r.files() == self.files(),
    {
        &self.store
    }

    /// The store, to change it directly.
    pub fn store_mut(&mut self) -> (r: &mut MemoryStore)
        ensures
            r.files() == old(self).files(),
            final(r).files() == final(self).files(),
    {
        &mut self.store
    }

    /// Commits staged changes; a store in memory has none.
    pub fn commit(&mut self) -> (r: Result<()>)
        ensures
            r is Ok,
            final(self).files() == old(self).files(),
    {
        self.store.commit()
    }

    /// The path of `rdm.toml`.
    pub fn config_path(&self) -> (r: RelPath)
        ensures
            r@ == "rdm.toml"@,
    {
        paths::config_path()
    }

    /// The path of the top-level `INDEX.md`.
    pub fn index_path(&self) -> (r: RelPath)
        ensures
            r@ == "INDEX.md"@,
    {
        paths::index_path()
    }

    /// The directory of a project.
    pub fn project_path(&self, project: &str) -> (r: RelPath)
        ensures
            r@ == project_dir_spec(project@),
    {
        paths::project_path(project)
    }

    /// A project's `INDEX.md`.
    pub fn project_index_path(&self, project: &str) -> (r: RelPath)
        ensures
            r@ == project_index_spec(project@),
    {
        paths::project_index_path(project)
    }

    /// A project's `project.md`.
    pub fn project_md_path(&self, project: &str) -> (r: RelPath)
        ensures
            r@ == project_md_spec(project@),
    {
        paths::project_md_path(project)
    }

    /// A project's roadmaps directory.
    pub fn roadmaps_dir(&self, project: &str) -> (r: RelPath)
        ensures
            r@ == roadmaps_dir_spec(project@),
    {
        paths::roadmaps_dir(project)
    }

    /// A roadmap's directory.
    pub fn roadmap_dir(&self, project: &str, roadmap: &str) -> (r: RelPath)
        ensures
            r@ == roadmap_dir_spec(project@, roadmap@),
    {
        paths::roadmap_dir(project, roadmap)
    }

    /// A roadmap's `roadmap.md`.
    pub fn roadmap_path(&self, project: &str, roadmap: &str) -> (r: RelPath)
        ensures
            r@ == roadmap_path_spec(project@, roadmap@),
    {
        paths::roadmap_path(project, roadmap)
    }

    /// A phase's file in its roadmap's directory.
    pub fn phase_path(&self, project: &str, roadmap: &str, phase_stem: &str) -> (r: RelPath)
        ensures
            r@ == phase_path_spec(project@, roadmap@, phase_stem@),
    {
        paths::phase_path(project, roadmap, phase_stem)
    }

    /// A project's tasks directory.
    pub fn tasks_dir(&self, project: &str) -> (r: RelPath)
        ensures
            r@ == tasks_dir_spec(project@),
    {
        paths::tasks_dir(project)
    }

    /// A task's file.
    pub fn task_path(&self, project: &str, task_slug: &str) -> (r: RelPath)
        ensures
            r@ == task_path_spec(project@, task_slug@),
    {
        paths::task_path(project, task_slug)
    }

    /// A project's archived roadmaps directory.
    pub fn archived_roadmaps_dir(&self, project: &str) -> (r: RelPath)
        ensures
            r@ == archived_roadmaps_dir_spec(project@),
    {
        paths::archived_roadmaps_dir(project)
    }

    /// An archived roadmap's directory.
    pub fn archived_roadmap_dir(&self, project: &str, roadmap: &str) -> (r: RelPath)
        ensures
            r@ == archived_roadmap_dir_spec(project@, roadmap@),
    {
        paths::archived_roadmap_dir(project, roadmap)
    }

    /// An archived roadmap's `roadmap.md`.
    pub fn archived_roadmap_path(&self, project: &str, roadmap: &str) -> (r: RelPath)
        ensures
            r@ == archived_roadmap_path_spec(project@, roadmap@),
    {
        paths::archived_roadmap_path(project, roadmap)
    }

    /// The repo configuration from `rdm.toml`.
    pub fn load_config(&self) -> (r: Result<Config>)
        ensures
            load_config_post(self.files(), r),
    {
        let path = crate::paths::config_path();
        if !self.store.file_exists(&path) {
            return Err(Error::ConfigNotFound);
        }
        let content = self.store.read(&path)?;
        Config::from_toml(content.as_str())
    }

    /// A project's document.
    pub fn load_project(&self, name: &str) -> (r: Result<Document<Project>>)
        ensures
            !self.files().contains_key(project_md_spec(name@)) ==> (r matches Err(
                Error::ProjectNotFound(n),
            ) && n@ == name@),
            self.files().contains_key(project_md_spec(name@)) ==> match project_at(
                self.files(),
                project_md_spec(name@),
            ) {
                Some(d) => (r matches Ok(doc) && doc@ == d),
                None => (r matches Err(e) && e is FrontmatterParse),
            },
    {
        crate::io::load_project(&self.store, name)
    }

    /// A roadmap's document.
    pub fn load_roadmap(&self, project: &str, roadmap: &str) -> (r: Result<Document<Roadmap>>)
        ensures
            !self.files().contains_key(roadmap_path_spec(project@, roadmap@)) ==> (r matches Err(
                Error::RoadmapNotFound(n),
            ) && n@ == roadmap@),
            self.files().contains_key(roadmap_path_spec(project@, roadmap@)) ==> match roadmap_at(
                self.files(),
                roadmap_path_spec(project@, roadmap@),
            ) {
                Some(d) => (r matches Ok(doc) && doc@ == d),
                None => (r matches Err(e) && e is FrontmatterParse),
            },
    {
        crate::io::load_roadmap(&self.store, project, roadmap)
    }

    /// A phase's document by its stem.
    pub fn load_phase(&self, project: &str, roadmap: &str, phase_stem: &str) -> (r: Result<
        Document<Phase>,
    >)
        ensures
            !self.files().contains_key(phase_path_spec(project@, roadmap@, phase_stem@)) ==> (
            r matches Err(e) && e is Io),
            self.files().contains_key(phase_path_spec(project@, roadmap@, phase_stem@)) ==> match phase_at(
                self.files(),
                phase_path_spec(project@, roadmap@, phase_stem@),
            ) {
                Some(d) => (r matches Ok(doc) && doc@ == d),
                None => (r matches Err(e) && e is FrontmatterParse),
            },
    {
        crate::io::load_phase(&self.store, project, roadmap, phase_stem)
    }

    /// A task's document.
    pub fn load_task(&self, project: &str, task_slug: &str) -> (r: Result<Document<Task>>)
        ensures
            !self.files().contains_key(task_path_spec(project@, task_slug@)) ==> (r matches Err(
                Error::TaskNotFound(n),
            ) && n@ == task_slug@),
            self.files().contains_key(task_path_spec(project@, task_slug@)) ==> match task_at(
                self.files(),
                task_path_spec(project@, task_slug@),
            ) {
                Some(d) => (r matches Ok(doc) && doc@ == d),
                None => (r matches Err(e) && e is FrontmatterParse),
            },
    {
        crate::io::load_task(&self.store, project, task_slug)
    }

    /// Stores a roadmap's document.
    pub fn write_roadmap(&mut self, project: &str, roadmap: &str, doc: &Document<Roadmap>) -> (r:
        Result<()>)
        ensures
            r is Ok,
            final(self).files() == old(self).files().insert(
                roadmap_path_spec(project@, roadmap@),
                EntryView::Roadmap(doc@),
            ),
    {
        crate::io::write_roadmap(&mut self.store, project, roadmap, doc);
        Ok(())
    }

    /// Stores a phase's document under its stem.
    pub fn write_phase(
        &mut self,
        project: &str,
        roadmap: &str,
        phase_stem: &str,
        doc: &Document<Phase>,
    ) -> (r: Result<()>)
        ensures
            r is Ok,
            final(self).files() == old(self).files().insert(
                phase_path_spec(project@, roadmap@, phase_stem@),
                EntryView::Phase(doc@),
            ),
    {
        crate::io::write_phase(&mut self.store, project, roadmap, phase_stem, doc);
        Ok(())
    }

    /// Stores a task's document.
    pub fn write_task(&mut self, project: &str, task_slug: &str, doc: &Document<Task>) -> (r: Result<
        (),
    >)
        ensures
            r is Ok,
            final(self).files() == old(self).files().insert(
                task_path_spec(project@, task_slug@),
                EntryView::Task(doc@),
            ),
    {
        crate::io::write_task(&mut self.store, project, task_slug, doc);
        Ok(())
    }

    /// Creates a project.
    pub fn create_project(&mut self, name: &str, title: &str) -> (r: Result<Document<Project>>)
        ensures
            ops::project::create_project_post(old(self).files(), name, title, r, final(self).files()),
    {
        ops::project::create_project(&mut self.store, name, title)
    }

    /// The names of the projects in order.
    pub fn list_projects(&self) -> (r: Result<Vec<String>>)
        ensures
            ops::project::list_projects_post(self.files(), r),
    {
        ops::project::list_projects(&self.store)
    }

    /// Creates a roadmap without a priority.
    pub fn create_roadmap(&mut self, project: &str, slug: &str, title: &str, body: Option<&str>) -> (r:
        Result<Document<Roadmap>>)
        ensures
            ops::roadmap::create_roadmap_post(old(self).files(), project, slug, title, body, None, r, final(self).files()),
    {
        ops::roadmap::create_roadmap(&mut self.store, project, slug, title, body, None)
    }

    /// Replaces a roadmap's body.
    pub fn update_roadmap(&mut self, project: &str, slug: &str, body: Option<&str>) -> (r: Result<
        Document<Roadmap>,
    >)
        ensures
            ops::roadmap::update_roadmap_post(old(self).files(), project, slug, body, None, r, final(self).files()),
    {
        ops::roadmap::update_roadmap(&mut self.store, project, slug, body, None)
    }

    /// The roadmaps of a project in slug order.
    pub fn list_roadmaps(&self, project: &str) -> (r: Result<Vec<Document<Roadmap>>>)
        ensures
            ops::roadmap::list_roadmaps_post(self.files(), project, None, None, r),
    {
        ops::roadmap::list_roadmaps(&self.store, project, None, None)
    }

    /// Makes one roadmap depend on another, refusing cycles.
    pub fn add_dependency(&mut self, project: &str, slug: &str, depends_on: &str) -> (r: Result<
        Document<Roadmap>,
    >)
        ensures
            ops::roadmap::add_dependency_post(old(self).files(), project, slug, depends_on, r, final(self).files()),
    {
        ops::roadmap::add_dependency(&mut self.store, project, slug, depends_on)
    }

    /// Drops a dependency.
    pub fn remove_dependency(&mut self, project: &str, slug: &str, depends_on: &str) -> (r: Result<
        Document<Roadmap>,
    >)
        ensures
            ops::roadmap::remove_dependency_post(old(self).files(), project, slug, depends_on, r, final(self).files()),
    {
        ops::roadmap::remove_dependency(&mut self.store, project, slug, depends_on)
    }

    /// The roadmaps that have dependencies, each with them.
    pub fn dependency_graph(&self, project: &str) -> (r: Result<Vec<(String, Vec<String>)>>)
        ensures
            ops::roadmap::dependency_graph_post(self.files(), project, r),
    {
        ops::roadmap::dependency_graph(&self.store, project)
    }

    /// Deletes a roadmap and its phases.
    pub fn delete_roadmap(&mut self, project: &str, slug: &str) -> (r: Result<()>)
        ensures
            ops::roadmap::delete_roadmap_post(old(self).files(), project, slug, r, final(self).files()),
    {
        ops::roadmap::delete_roadmap(&mut self.store, project, slug)
    }

    /// Moves a roadmap under the archive.
    pub fn archive_roadmap(&mut self, project: &str, slug: &str, force: bool) -> (r: Result<()>)
        ensures
            ops::roadmap::archive_roadmap_post(old(self).files(), project, slug, force, r, final(self).files()),
    {
        ops::roadmap::archive_roadmap(&mut self.store, project, slug, force)
    }

    /// The archived roadmaps of a project in slug order.
    pub fn list_archived_roadmaps(&self, project: &str) -> (r: Result<Vec<Document<Roadmap>>>)
        ensures
            ops::roadmap::list_archived_roadmaps_post(self.files(), project, r),
    {
        ops::roadmap::list_archived_roadmaps(&self.store, project)
    }

    /// The phases of an archived roadmap in number order.
    pub fn list_archived_phases(&self, project: &str, roadmap: &str) -> (r: Result<
        Vec<(String, Document<Phase>)>,
    >)
        ensures
            lists_archived_phases(self.files(), project@, roadmap@, r),
    {
        ops::phase::list_archived_phases(&self.store, project, roadmap)
    }

    /// Moves an archived roadmap back.
    pub fn unarchive_roadmap(&mut self, project: &str, slug: &str) -> (r: Result<()>)
        ensures
            ops::roadmap::unarchive_roadmap_post(old(self).files(), project, slug, r, final(self).files()),
    {
        ops::roadmap::unarchive_roadmap(&mut self.store, project, slug)
    }

    /// Moves phases of a roadmap into a new roadmap.
    pub fn split_roadmap(
        &mut self,
        project: &str,
        source_slug: &str,
        target_slug: &str,
        target_title: &str,
        phase_stems: &[String],
        depends_on: Option<&str>,
    ) -> (r: Result<Document<Roadmap>>)
        ensures
            ops::roadmap::split_roadmap_post(old(self).files(), project, source_slug, target_slug, target_title, phase_stems, depends_on, r, final(self).files()),
    {
        ops::roadmap::split_roadmap(
            &mut self.store,
            project,
            source_slug,
            target_slug,
            target_title,
            phase_stems,
            depends_on,
        )
    }

    /// The phases of a roadmap in number order.
    pub fn list_phases(&self, project: &str, roadmap: &str) -> (r: Result<
        Vec<(String, Document<Phase>)>,
    >)
        ensures
            lists_phases(self.files(), project@, roadmap@, r),
    {
        ops::phase::list_phases(&self.store, project, roadmap)
    }

    /// Creates a phase without tags.
    pub fn create_phase(
        &mut self,
        project: &str,
        roadmap: &str,
        slug: &str,
        title: &str,
        phase_number: Option<u32>,
        body: Option<&str>,
    ) -> (r: Result<Document<Phase>>)
        ensures
            ops::phase::create_phase_post(old(self).files(), project, roadmap, slug, title, phase_number, body, None, r, final(self).files()),
    {
        ops::phase::create_phase(&mut self.store, project, roadmap, slug, title, phase_number, body, None)
    }

    /// Updates a phase's status, body and commit.
    pub fn update_phase(
        &mut self,
        project: &str,
        roadmap: &str,
        phase_stem: &str,
        status: Option<PhaseStatus>,
        body: Option<&str>,
        commit: Option<String>,
    ) -> (r: Result<Document<Phase>>)
        ensures
            exists|b: BodyUpdate|
                body_update_for(b, body) && #[trigger] ops::phase::update_phase_post(
                    old(self).files(),
                    project,
                    roadmap,
                    phase_stem,
                    status,
                    TagsUpdate::Keep,
                    b,
                    commit,
                    None,
                    r,
                    final(self).files(),
                ),
    {
        let b = body_update(body);
        let ghost gb = b;
        let ghost before = self.files();
        let ghost c = commit;
        let r = ops::phase::update_phase(
            &mut self.store,
            project,
            roadmap,
            phase_stem,
            status,
            TagsUpdate::Keep,
            b,
            commit,
            None,
        );
        assert(ops::phase::update_phase_post(before, project, roadmap, phase_stem, status, TagsUpdate::Keep, gb, c, None, r, self.files()));
        r
    }

    /// Deletes a phase.
    pub fn remove_phase(&mut self, project: &str, roadmap: &str, phase_stem: &str) -> (r: Result<()>)
        ensures
            ops::phase::remove_phase_post(old(self).files(), project, roadmap, phase_stem, r, final(self).files()),
    {
        ops::phase::remove_phase(&mut self.store, project, roadmap, phase_stem)
    }

    /// A phase's stem from its number or stem.
    pub fn resolve_phase_stem(&self, project: &str, roadmap: &str, identifier: &str) -> (r: Result<
        String,
    >)
        ensures
            ops::phase::resolve_phase_stem_post(self.files(), project, roadmap, identifier, r),
    {
        ops::phase::resolve_phase_stem(&self.store, project, roadmap, identifier)
    }

    /// Creates a task.
    pub fn create_task(
        &mut self,
        project: &str,
        slug: &str,
        title: &str,
        priority: Priority,
        tags: Option<Vec<String>>,
        body: Option<&str>,
    ) -> (r: Result<Document<Task>>)
        ensures
            ops::task::create_task_post(
                old(self).files(),
                CreateTask { project, slug, title, priority, tags, body },
                r,
                final(self).files(),
            ),
    {
        ops::task::create_task(
            &mut self.store,
            CreateTask { project, slug, title, priority, tags, body },
        )
    }

    /// The tasks of a project in slug order.
    pub fn list_tasks(&self, project: &str) -> (r: Result<Vec<(String, Document<Task>)>>)
        ensures
            lists_tasks(self.files(), project@, r),
    {
        ops::task::list_tasks(&self.store, project)
    }

    /// Updates a task's status, priority, tags, body and commit.
    pub fn update_task(
        &mut self,
        project: &str,
        slug: &str,
        status: Option<TaskStatus>,
        priority: Option<Priority>,
        tags: Option<Vec<String>>,
        body: Option<&str>,
        commit: Option<String>,
    ) -> (r: Result<Document<Task>>)
        ensures
            exists|b: BodyUpdate, t: TagsUpdate|
                body_update_for(b, body) && tags_update_for(t, tags) && #[trigger] ops::task::update_task_post(
                    old(self).files(),
                    project,
                    slug,
                    status,
                    priority,
                    t,
                    b,
                    commit,
                    None,
                    None,
                    TitleUpdate::Keep,
                    r,
                    final(self).files(),
                ),
    {
        let b = body_update(body);
        let t = match tags {
            Some(v) => TagsUpdate::SetTo(v),
            None => TagsUpdate::Keep,
        };
        let ghost gb = b;
        let ghost gt = t;
        let ghost before = self.files();
        let ghost c = commit;
        let r = ops::task::update_task(
            &mut self.store,
            project,
            slug,
            status,
            priority,
            t,
            b,
            commit,
            None,
            None,
            TitleUpdate::Keep,
        );
        assert(ops::task::update_task_post(before, project, slug, status, priority, gt, gb, c, None, None, TitleUpdate::Keep, r, self.files()));
        r
    }

    /// Turns a task into a roadmap.
    pub fn promote_task(&mut self, project: &str, task_slug: &str, roadmap_slug: &str) -> (r: Result<
        Document<Roadmap>,
    >)
        ensures
            ops::task::promote_task_post(old(self).files(), project, task_slug, roadmap_slug, r, final(self).files()),
    {
        ops::task::promote_task(&mut self.store, project, task_slug, roadmap_slug)
    }

    /// Writes a project's `INDEX.md`.
    pub fn generate_project_index(&mut self, project: &str) -> (r: Result<()>)
        ensures
            ops::index::generate_project_index_post(old(self).files(), project, r, final(self).files()),
    {
        ops::index::generate_project_index(&mut self.store, project)
    }

    /// Writes one project's `INDEX.md` and the repo's.
    pub fn generate_index_for_project(&mut self, project: &str) -> (r: Result<()>)
        ensures
            ops::index::generate_index_for_project_post(old(self).files(), project, r, final(self).files()),
    {
        ops::index::generate_index_for_project(&mut self.store, project)
    }

    /// Writes every project's `INDEX.md` and the repo's.
    pub fn generate_index(&mut self) -> (r: Result<()>)
        ensures
            ops::index::generate_index_post(old(self).files(), r, final(self).files()),
    {
        ops::index::generate_index(&mut self.store)
    }

    /// Sets up a repo over `store` with the default configuration.
    pub fn init(store: MemoryStore) -> (r: Result<PlanRepo<MemoryStore>>)
        ensures
            exists|res: Result<()>, m2: Files|
                #[trigger] ops::init::init_post(
                    store.files(),
                    Config { default_project: None, default_format: None, stage: None },
                    res,
                    m2,
                ) && (res is Ok <==> r is Ok) && (r matches Ok(repo) ==> repo.files() == m2),
    {
        let mut store = store;
        match ops::init::init(&mut store) {
            Ok(()) => Ok(PlanRepo { store }),
            Err(e) => Err(e),
        }
    }

    /// Sets up a repo over `store` with `config`.
    pub fn init_with_config(store: MemoryStore, config: Config) -> (r: Result<PlanRepo<MemoryStore>>)
        ensures
            exists|res: Result<()>, m2: Files|
                #[trigger] ops::init::init_post(store.files(), config, res, m2) && (res is Ok
                    <==> r is Ok) && (r matches Ok(repo) ==> repo.files() == m2),
    {
        let mut store = store;
        match ops::init::init_with_config(&mut store, config) {
            Ok(()) => Ok(PlanRepo { store }),
            Err(e) => Err(e),
        }
    }
}

/// Reading back the configuration a repo was set up with gives it back,
/// when each of its text values fits on one line.
pub proof fn lemma_init_then_load_config(m: Files, config: Config, m2: Files, r: Result<Config>)
    requires
        ops::init::init_post(m, config, Ok(()), m2),
        config.default_project matches Some(v) ==> single_line(v@),
        config.default_format matches Some(v) ==> single_line(v@),
        load_config_post(m2, r),
    ensures
        r matches Ok(c) && c@ == config@,
{
    reveal_strlit("rdm.toml");
    reveal_strlit("INDEX.md");
    assert("rdm.toml"@ != "INDEX.md"@) by {
        assert("rdm.toml"@[0] != "INDEX.md"@[0]);
    }
    crate::config::lemma_config_round_trip(config@);
}

/// A roadmap read back after it was written is what was written.
pub proof fn lemma_write_then_load_roadmap(
    m: Files,
    project: Seq<char>,
    roadmap: Seq<char>,
    doc: crate::model::DocView<crate::model::RoadmapView>,
)
    ensures
        roadmap_at(m.insert(roadmap_path_spec(project, roadmap), EntryView::Roadmap(doc)), roadmap_path_spec(project, roadmap))
            == Some(doc),
{
}

/// A phase read back after it was written is what was written.
pub proof fn lemma_write_then_load_phase(
    m: Files,
    project: Seq<char>,
    roadmap: Seq<char>,
    stem: Seq<char>,
    doc: crate::model::DocView<crate::model::PhaseView>,
)
    ensures
        phase_at(m.insert(phase_path_spec(project, roadmap, stem), EntryView::Phase(doc)), phase_path_spec(project, roadmap, stem))
            == Some(doc),
{
}

/// A task read back after it was written is what was written.
pub proof fn lemma_write_then_load_task(
    m: Files,
    project: Seq<char>,
    slug: Seq<char>,
    doc: crate::model::DocView<crate::model::TaskView>,
)
    ensures
        task_at(m.insert(task_path_spec(project, slug), EntryView::Task(doc)), task_path_spec(project, slug))
            == Some(doc),
{
}

} // verus!
