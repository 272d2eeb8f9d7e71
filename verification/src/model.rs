//! The plan-repo data model: projects, roadmaps, phases, tasks, reviews and
//! the small enums their frontmatter carries.
use vstd::prelude::*;

use crate::link::{ItemRef, ItemRefView};

use crate::text::{cat3, decimal, owned, str_eq};

verus! {

/// Priority of a task or roadmap, ordered `Low < Medium < High < Critical`.
#[derive(Clone, Copy, Debug, PartialEq, Eq, Hash, PartialOrd, Ord, Structural)]
pub enum Priority {
    Low,
    Medium,
    High,
    Critical,
}

impl Priority {
    /// The numeric rank that orders priorities (`Low` lowest).
    pub open spec fn rank_spec(self) -> int {
        match self {
            Priority::Low => 0,
            Priority::Medium => 1,
            Priority::High => 2,
            Priority::Critical => 3,
        }
    }

    /// The rank of this priority; see [`Priority::rank_spec`].
    pub fn rank(&self) -> (r: u8)
        ensures
            r == self.rank_spec(),
    {
        match self {
            Priority::Low => 0,
            Priority::Medium => 1,
            Priority::High => 2,
            Priority::Critical => 3,
        }
    }

    /// The lowercase name used in frontmatter and messages.
    pub open spec fn name_spec(self) -> Seq<char> {
        match self {
            Priority::Low => "low"@,
            Priority::Medium => "medium"@,
            Priority::High => "high"@,
            Priority::Critical => "critical"@,
        }
    }

    /// The lowercase name of this priority.
    pub fn as_str(&self) -> (r: &'static str)
        ensures
            r@ == self.name_spec(),
    {
        match self {
            Priority::Low => "low",
            Priority::Medium => "medium",
            Priority::High => "high",
            Priority::Critical => "critical",
        }
    }
}

/// Rank of an optional priority: `None` sorts below every priority.
pub open spec fn opt_priority_rank(p: Option<Priority>) -> int {
    match p {
        Some(q) => q.rank_spec() + 1,
        None => 0,
    }
}

/// How a roadmap listing is ordered: by slug, or by priority (highest
/// first, unprioritized last, ties by slug).
#[derive(Clone, Copy, Debug, PartialEq, Eq, Hash, Structural)]
pub enum RoadmapSort {
    Alpha,
    Priority,
}

/// Rank of an optional priority, used to order by it.
pub fn opt_priority_rank_exec(p: Option<Priority>) -> (r: u8)
    ensures
        r == opt_priority_rank(p),
{
    match p {
        Some(q) => q.rank() + 1,
        None => 0,
    }
}

/// Status of a task.
#[derive(Clone, Copy, Debug, PartialEq, Eq, Hash, Structural)]
pub enum TaskStatus {
    Open,
    InProgress,
    NeedsReview,
    Reviewed,
    Blocked,
    Done,
    WontFix,
}

impl TaskStatus {
    /// Whether the status closes the task (`Done` or `WontFix`).
    pub open spec fn is_terminal_spec(self) -> bool {
        self == TaskStatus::Done || self == TaskStatus::WontFix
    }

    /// Whether the status closes the task (`Done` or `WontFix`).
    pub fn is_terminal(&self) -> (r: bool)
        ensures
            r == self.is_terminal_spec(),
    {
        match self {
            TaskStatus::Done | TaskStatus::WontFix => true,
            _ => false,
        }
    }

    /// The kebab-case name used in frontmatter and listings.
    pub open spec fn name_spec(self) -> Seq<char> {
        match self {
            TaskStatus::Open => "open"@,
            TaskStatus::InProgress => "in-progress"@,
            TaskStatus::NeedsReview => "needs-review"@,
            TaskStatus::Reviewed => "reviewed"@,
            TaskStatus::Blocked => "blocked"@,
            TaskStatus::Done => "done"@,
            TaskStatus::WontFix => "wont-fix"@,
        }
    }

    /// The kebab-case name of this status.
    pub fn as_str(&self) -> (r: &'static str)
        ensures
            r@ == self.name_spec(),
    {
        match self {
            TaskStatus::Open => "open",
            TaskStatus::InProgress => "in-progress",
            TaskStatus::NeedsReview => "needs-review",
            TaskStatus::Reviewed => "reviewed",
            TaskStatus::Blocked => "blocked",
            TaskStatus::Done => "done",
            TaskStatus::WontFix => "wont-fix",
        }
    }
}

/// Status filter for task listings: every status, or one exact status.
#[derive(Clone, Copy, Debug, PartialEq, Eq, Structural)]
pub enum TaskStatusFilter {
    All,
    Status(TaskStatus),
}

/// Status of a roadmap phase.
#[derive(Clone, Copy, Debug, PartialEq, Eq, Hash, Structural)]
pub enum PhaseStatus {
    NotStarted,
    InProgress,
    NeedsReview,
    Reviewed,
    Blocked,
    Done,
    WontFix,
}

impl PhaseStatus {
    /// Whether the status closes the phase (`Done` or `WontFix`).
    pub open spec fn is_terminal_spec(self) -> bool {
        self == PhaseStatus::Done || self == PhaseStatus::WontFix
    }

    /// Whether the status closes the phase (`Done` or `WontFix`).
    pub fn is_terminal(&self) -> (r: bool)
        ensures
            r == self.is_terminal_spec(),
    {
        match self {
            PhaseStatus::Done | PhaseStatus::WontFix => true,
            _ => false,
        }
    }
}

/// Estimated difficulty of a phase.
#[derive(Clone, Copy, Debug, PartialEq, Eq, Hash, Structural)]
pub enum Difficulty {
    Easy,
    Moderate,
    Hard,
}

/// Model tier that should run a phase.
#[derive(Clone, Copy, Debug, PartialEq, Eq, Hash, Structural)]
pub enum ModelTier {
    Small,
    Medium,
    Large,
}

impl Difficulty {
    /// The model tier a difficulty maps to.
    pub open spec fn model_tier_spec(self) -> ModelTier {
        match self {
            Difficulty::Easy => ModelTier::Small,
            Difficulty::Moderate => ModelTier::Medium,
            Difficulty::Hard => ModelTier::Large,
        }
    }

    /// The model tier a difficulty maps to: easy work runs on the small tier,
    /// moderate on the medium tier, hard on the large tier.
    pub fn model_tier(&self) -> (r: ModelTier)
        ensures
            r == self.model_tier_spec(),
    {
        match self {
            Difficulty::Easy => ModelTier::Small,
            Difficulty::Moderate => ModelTier::Medium,
            Difficulty::Hard => ModelTier::Large,
        }
    }
}

/// A calendar date.
#[derive(Clone, Copy, Debug, PartialEq, Eq, Hash, PartialOrd, Ord, Structural)]
pub struct Date {
    pub year: u32,
    pub month: u32,
    pub day: u32,
}

/// Zero-padded decimal rendering to at least `width` digits.
pub open spec fn padded(n: nat, width: nat) -> Seq<char>
    decreases width,
{
    if decimal(n).len() >= width || width == 0 {
        decimal(n)
    } else {
        seq!['0'] + padded(n, (width - 1) as nat)
    }
}

impl Date {
    /// Builds a date from its parts.
    pub fn new(year: u32, month: u32, day: u32) -> (r: Date)
        ensures
            r.year == year && r.month == month && r.day == day,
    {
        Date { year, month, day }
    }

    /// ISO `YYYY-MM-DD` rendering.
    pub open spec fn iso_spec(self) -> Seq<char> {
        padded(self.year as nat, 4) + "-"@ + padded(self.month as nat, 2) + "-"@ + padded(
            self.day as nat,
            2,
        )
    }

    /// The ISO `YYYY-MM-DD` rendering of this date.
    pub fn to_iso(&self) -> (r: String)
        ensures
            r@ == self.iso_spec(),
    {
        let y = pad_decimal(self.year as u64, 4);
        let m = pad_decimal(self.month as u64, 2);
        let d = pad_decimal(self.day as u64, 2);
        let mut s = cat3(y.as_str(), "-", m.as_str());
        s.append("-");
        s.append(d.as_str());
        s
    }
}

/// Zero-padded decimal rendering; see [`padded`].
pub fn pad_decimal(n: u64, width: u64) -> (r: String)
    ensures
        r@ == padded(n as nat, width as nat),
    decreases width,
{
    let d = crate::text::u64_to_decimal(n);
    let len = d.as_str().unicode_len();
    if len as u64 >= width || width == 0 {
        d
    } else {
        let rest = pad_decimal(n, width - 1);
        let mut s = owned("0");
        proof {
            reveal_strlit("0");
        }
        s.append(rest.as_str());
        s
    }
}

/// A project's code repository, used to resolve `rdm:src/` links.
#[derive(Clone, Debug, PartialEq, Eq)]
pub struct Source {
    pub repo: String,
    pub default_branch: Option<String>,
}

/// A project's frontmatter.
#[derive(Clone, Debug, PartialEq, Eq)]
pub struct Project {
    pub name: String,
    pub title: String,
    pub source: Option<Source>,
}

/// A roadmap's frontmatter.
#[derive(Clone, Debug, PartialEq, Eq)]
pub struct Roadmap {
    pub project: String,
    pub roadmap: String,
    pub title: String,
    pub phases: Vec<String>,
    pub dependencies: Option<Vec<String>>,
    pub priority: Option<Priority>,
    pub tags: Option<Vec<String>>,
}

/// A phase's frontmatter.
#[derive(Clone, Debug, PartialEq, Eq)]
pub struct Phase {
    pub phase: u32,
    pub title: String,
    pub status: PhaseStatus,
    pub tags: Option<Vec<String>>,
    pub completed: Option<Date>,
    pub commit: Option<String>,
    pub review_sha: Option<String>,
    pub review_branch: Option<String>,
    pub difficulty: Option<Difficulty>,
    pub model: Option<ModelTier>,
    pub blocked_reason: Option<String>,
}

/// A task's frontmatter.
#[derive(Clone, Debug, PartialEq, Eq)]
pub struct Task {
    pub project: String,
    pub title: String,
    pub status: TaskStatus,
    pub priority: Priority,
    pub created: Date,
    pub tags: Option<Vec<String>>,
    pub completed: Option<Date>,
    pub commit: Option<String>,
    pub review_sha: Option<String>,
    pub review_branch: Option<String>,
    pub close_reason: Option<String>,
}

/// A markdown document: typed frontmatter plus the body below it.
#[derive(Clone, Debug, PartialEq, Eq)]
pub struct Document<T> {
    pub frontmatter: T,
    pub body: String,
}

/// The file stem of a phase: `phase-<number>-<slug>`.
pub open spec fn phase_stem_spec(number: u32, slug: Seq<char>) -> Seq<char> {
    "phase-"@ + decimal(number as nat) + "-"@ + slug
}

/// The file stem of a phase: `phase-<number>-<slug>`.
pub fn phase_stem(number: u32, slug: &str) -> (r: String)
    ensures
        r@ == phase_stem_spec(number, slug@),
{
    let n = crate::text::u64_to_decimal(number as u64);
    let mut s = cat3("phase-", n.as_str(), "-");
    s.append(slug);
    s
}

/// Spec view of a project's source repository.
pub struct SourceView {
    pub repo: Seq<char>,
    pub default_branch: Option<Seq<char>>,
}

/// Spec view of a project.
pub struct ProjectView {
    pub name: Seq<char>,
    pub title: Seq<char>,
    pub source: Option<SourceView>,
}

/// Spec view of a roadmap.
pub struct RoadmapView {
    pub project: Seq<char>,
    pub roadmap: Seq<char>,
    pub title: Seq<char>,
    pub phases: Seq<Seq<char>>,
    pub dependencies: Option<Seq<Seq<char>>>,
    pub priority: Option<Priority>,
    pub tags: Option<Seq<Seq<char>>>,
}

/// Spec view of a phase.
pub struct PhaseView {
    pub phase: u32,
    pub title: Seq<char>,
    pub status: PhaseStatus,
    pub tags: Option<Seq<Seq<char>>>,
    pub completed: Option<Date>,
    pub commit: Option<Seq<char>>,
    pub review_sha: Option<Seq<char>>,
    pub review_branch: Option<Seq<char>>,
    pub difficulty: Option<Difficulty>,
    pub model: Option<ModelTier>,
    pub blocked_reason: Option<Seq<char>>,
}

/// Spec view of a task.
pub struct TaskView {
    pub project: Seq<char>,
    pub title: Seq<char>,
    pub status: TaskStatus,
    pub priority: Priority,
    pub created: Date,
    pub tags: Option<Seq<Seq<char>>>,
    pub completed: Option<Date>,
    pub commit: Option<Seq<char>>,
    pub review_sha: Option<Seq<char>>,
    pub review_branch: Option<Seq<char>>,
    pub close_reason: Option<Seq<char>>,
}

/// Spec view of a document.
pub struct DocView<V> {
    pub frontmatter: V,
    pub body: Seq<char>,
}

impl View for Source {
    type V = SourceView;

    open spec fn view(&self) -> SourceView {
        SourceView { repo: self.repo@, default_branch: self.default_branch.deep_view() }
    }
}

/// View of an optional source.
pub open spec fn opt_source_view(s: Option<Source>) -> Option<SourceView> {
    match s {
        Some(x) => Some(x@),
        None => None,
    }
}

impl View for Project {
    type V = ProjectView;

    open spec fn view(&self) -> ProjectView {
        ProjectView {
            name: self.name@,
            title: self.title@,
            source: opt_source_view(self.source),
        }
    }
}

impl View for Roadmap {
    type V = RoadmapView;

    open spec fn view(&self) -> RoadmapView {
        RoadmapView {
            project: self.project@,
            roadmap: self.roadmap@,
            title: self.title@,
            phases: self.phases.deep_view(),
            dependencies: self.dependencies.deep_view(),
            priority: self.priority,
            tags: self.tags.deep_view(),
        }
    }
}

impl View for Phase {
    type V = PhaseView;

    open spec fn view(&self) -> PhaseView {
        PhaseView {
            phase: self.phase,
            title: self.title@,
            status: self.status,
            tags: self.tags.deep_view(),
            completed: self.completed,
            commit: self.commit.deep_view(),
            review_sha: self.review_sha.deep_view(),
            review_branch: self.review_branch.deep_view(),
            difficulty: self.difficulty,
            model: self.model,
            blocked_reason: self.blocked_reason.deep_view(),
        }
    }
}

impl View for Task {
    type V = TaskView;

    open spec fn view(&self) -> TaskView {
        TaskView {
            project: self.project@,
            title: self.title@,
            status: self.status,
            priority: self.priority,
            created: self.created,
            tags: self.tags.deep_view(),
            completed: self.completed,
            commit: self.commit.deep_view(),
            review_sha: self.review_sha.deep_view(),
            review_branch: self.review_branch.deep_view(),
            close_reason: self.close_reason.deep_view(),
        }
    }
}

impl<T: View> View for Document<T> {
    type V = DocView<T::V>;

    open spec fn view(&self) -> DocView<T::V> {
        DocView { frontmatter: self.frontmatter@, body: self.body@ }
    }
}

/// A copy of a list of strings, element for element.
pub fn copy_strings(v: &Vec<String>) -> (r: Vec<String>)
    ensures
        r.deep_view() == v.deep_view(),
{
    let mut r: Vec<String> = Vec::new();
    let mut i: usize = 0;
    while i < v.len()
        invariant
            i <= v@.len(),
            r.deep_view() == v.deep_view().subrange(0, i as int),
        decreases v@.len() - i,
    {
        let x = v[i].clone();
        let ghost old_r = r.deep_view();
        r.push(x);
        assert(r.deep_view() =~= old_r.push(x@));
        i = i + 1;
        assert(r.deep_view() =~= v.deep_view().subrange(0, i as int));
    }
    assert(r.deep_view() =~= v.deep_view());
    r
}

/// The strings of `v` other than `dep`, in order.
pub fn strings_without(v: &Vec<String>, dep: &str) -> (r: Vec<String>)
    ensures
        r.deep_view() == v.deep_view().filter(|x: Seq<char>| x != dep@),
{
    let ghost pred = |x: Seq<char>| x != dep@;
    let mut out: Vec<String> = Vec::new();
    let mut i: usize = 0;
    while i < v.len()
        invariant
            i <= v.len(),
            pred == (|x: Seq<char>| x != dep@),
            out.deep_view() == v.deep_view().subrange(0, i as int).filter(pred),
        decreases v.len() - i,
    {
        let keep = !str_eq(v[i].as_str(), dep);
        proof {
            let a = v.deep_view().subrange(0, i as int);
            let x = v.deep_view()[i as int];
            assert(v.deep_view().subrange(0, i + 1) =~= a + seq![x]);
            Seq::filter_distributes_over_add(a, seq![x], pred);
            reveal_with_fuel(Seq::filter, 2);
            assert(seq![x].drop_last() =~= Seq::<Seq<char>>::empty());
        }
        if keep {
            let ghost o0 = out.deep_view();
            out.push(v[i].clone());
            assert(out.deep_view() =~= o0 + seq![v.deep_view()[i as int]]);
        } else {
            assert(out.deep_view() =~= out.deep_view() + Seq::<Seq<char>>::empty());
        }
        i = i + 1;
    }
    assert(v.deep_view().subrange(0, v.len() as int) =~= v.deep_view());
    out
}

/// A copy of an optional list of strings.
pub fn copy_opt_strings(v: &Option<Vec<String>>) -> (r: Option<Vec<String>>)
    ensures
        r.deep_view() == v.deep_view(),
{
    match v {
        Some(x) => Some(copy_strings(x)),
        None => None,
    }
}

/// A copy of an optional string.
pub fn copy_opt_string(v: &Option<String>) -> (r: Option<String>)
    ensures
        r.deep_view() == v.deep_view(),
{
    match v {
        Some(x) => Some(x.clone()),
        None => None,
    }
}

impl Source {
    /// An exact copy.
    pub fn duplicate(&self) -> (r: Source)
        ensures
            r@ == self@,
    {
        Source { repo: self.repo.clone(), default_branch: copy_opt_string(&self.default_branch) }
    }
}

impl Project {
    /// An exact copy.
    pub fn duplicate(&self) -> (r: Project)
        ensures
            r@ == self@,
    {
        Project {
            name: self.name.clone(),
            title: self.title.clone(),
            source: match &self.source {
                Some(s) => Some(s.duplicate()),
                None => None,
            },
        }
    }
}

impl Roadmap {
    /// An exact copy.
    pub fn duplicate(&self) -> (r: Roadmap)
        ensures
            r@ == self@,
    {
        Roadmap {
            project: self.project.clone(),
            roadmap: self.roadmap.clone(),
            title: self.title.clone(),
            phases: copy_strings(&self.phases),
            dependencies: copy_opt_strings(&self.dependencies),
            priority: self.priority,
            tags: copy_opt_strings(&self.tags),
        }
    }
}

impl Phase {
    /// An exact copy.
    pub fn duplicate(&self) -> (r: Phase)
        ensures
            r@ == self@,
    {
        Phase {
            phase: self.phase,
            title: self.title.clone(),
            status: self.status,
            tags: copy_opt_strings(&self.tags),
            completed: self.completed,
            commit: copy_opt_string(&self.commit),
            review_sha: copy_opt_string(&self.review_sha),
            review_branch: copy_opt_string(&self.review_branch),
            difficulty: self.difficulty,
            model: self.model,
            blocked_reason: copy_opt_string(&self.blocked_reason),
        }
    }
}

impl Task {
    /// An exact copy.
    pub fn duplicate(&self) -> (r: Task)
        ensures
            r@ == self@,
    {
        Task {
            project: self.project.clone(),
            title: self.title.clone(),
            status: self.status,
            priority: self.priority,
            created: self.created,
            tags: copy_opt_strings(&self.tags),
            completed: self.completed,
            commit: copy_opt_string(&self.commit),
            review_sha: copy_opt_string(&self.review_sha),
            review_branch: copy_opt_string(&self.review_branch),
            close_reason: copy_opt_string(&self.close_reason),
        }
    }
}

impl Document<Project> {
    /// An exact copy.
    pub fn duplicate(&self) -> (r: Document<Project>)
        ensures
            r@ == self@,
    {
        Document { frontmatter: self.frontmatter.duplicate(), body: self.body.clone() }
    }
}

impl Document<Roadmap> {
    /// An exact copy.
    pub fn duplicate(&self) -> (r: Document<Roadmap>)
        ensures
            r@ == self@,
    {
        Document { frontmatter: self.frontmatter.duplicate(), body: self.body.clone() }
    }
}

impl Document<Phase> {
    /// An exact copy.
    pub fn duplicate(&self) -> (r: Document<Phase>)
        ensures
            r@ == self@,
    {
        Document { frontmatter: self.frontmatter.duplicate(), body: self.body.clone() }
    }
}

impl Document<Task> {
    /// An exact copy.
    pub fn duplicate(&self) -> (r: Document<Task>)
        ensures
            r@ == self@,
    {
        Document { frontmatter: self.frontmatter.duplicate(), body: self.body.clone() }
    }
}


/// What a review is of.
#[derive(Clone, Debug, PartialEq, Eq)]
pub enum ReviewTarget {
    Roadmap { roadmap: String },
    Phase { roadmap: String, stem: String },
    Task { slug: String },
}

/// The kind of a review target.
#[derive(Clone, Copy, Debug, PartialEq, Eq, Hash, Structural)]
pub enum ReviewTargetKind {
    Roadmap,
    Phase,
    Task,
}

/// Spec view of a review target.
pub enum TargetView {
    Roadmap { roadmap: Seq<char> },
    Phase { roadmap: Seq<char>, stem: Seq<char> },
    Task { slug: Seq<char> },
}

impl View for ReviewTarget {
    type V = TargetView;

    open spec fn view(&self) -> TargetView {
        match self {
            ReviewTarget::Roadmap { roadmap } => TargetView::Roadmap { roadmap: roadmap@ },
            ReviewTarget::Phase { roadmap, stem } => TargetView::Phase { roadmap: roadmap@, stem: stem@ },
            ReviewTarget::Task { slug } => TargetView::Task { slug: slug@ },
        }
    }
}

/// The kind of a target.
pub open spec fn target_kind(t: TargetView) -> ReviewTargetKind {
    match t {
        TargetView::Roadmap { .. } => ReviewTargetKind::Roadmap,
        TargetView::Phase { .. } => ReviewTargetKind::Phase,
        TargetView::Task { .. } => ReviewTargetKind::Task,
    }
}

/// A target's reference: `roadmap/<r>`, `phase/<r>/<stem>` or `task/<slug>`.
pub open spec fn target_label(t: TargetView) -> Seq<char> {
    match t {
        TargetView::Roadmap { roadmap } => "roadmap/"@ + roadmap,
        TargetView::Phase { roadmap, stem } => "phase/"@ + roadmap + "/"@ + stem,
        TargetView::Task { slug } => "task/"@ + slug,
    }
}

impl ReviewTarget {
    /// The kind of this target.
    pub fn kind(&self) -> (r: ReviewTargetKind)
        ensures
            r == target_kind(self@),
    {
        match self {
            ReviewTarget::Roadmap { .. } => ReviewTargetKind::Roadmap,
            ReviewTarget::Phase { .. } => ReviewTargetKind::Phase,
            ReviewTarget::Task { .. } => ReviewTargetKind::Task,
        }
    }

    /// This target's reference; see [`target_label`].
    pub fn label(&self) -> (r: String)
        ensures
            r@ == target_label(self@),
    {
        match self {
            ReviewTarget::Roadmap { roadmap } => crate::text::cat("roadmap/", roadmap.as_str()),
            ReviewTarget::Phase { roadmap, stem } => {
                let mut s = cat3("phase/", roadmap.as_str(), "/");
                s.append(stem.as_str());
                s
            },
            ReviewTarget::Task { slug } => crate::text::cat("task/", slug.as_str()),
        }
    }

    /// An exact copy.
    pub fn duplicate(&self) -> (r: ReviewTarget)
        ensures
            r@ == self@,
    {
        match self {
            ReviewTarget::Roadmap { roadmap } => ReviewTarget::Roadmap { roadmap: roadmap.clone() },
            ReviewTarget::Phase { roadmap, stem } => ReviewTarget::Phase {
                roadmap: roadmap.clone(),
                stem: stem.clone(),
            },
            ReviewTarget::Task { slug } => ReviewTarget::Task { slug: slug.clone() },
        }
    }
}

/// Where a review is in its life: `draft`, then `submitted`, then
/// `addressed` or `dismissed`.
#[derive(Clone, Copy, Debug, PartialEq, Eq, Hash, Structural)]
pub enum ReviewState {
    Draft,
    Submitted,
    Addressed,
    Dismissed,
}

impl ReviewState {
    /// Whether the state ends the review (`addressed` or `dismissed`).
    pub open spec fn is_terminal_spec(self) -> bool {
        self == ReviewState::Addressed || self == ReviewState::Dismissed
    }

    /// Whether the state ends the review.
    pub fn is_terminal(&self) -> (r: bool)
        ensures
            r == self.is_terminal_spec(),
    {
        match self {
            ReviewState::Addressed | ReviewState::Dismissed => true,
            _ => false,
        }
    }

    /// The state's name.
    pub open spec fn name_spec(self) -> Seq<char> {
        match self {
            ReviewState::Draft => "draft"@,
            ReviewState::Submitted => "submitted"@,
            ReviewState::Addressed => "addressed"@,
            ReviewState::Dismissed => "dismissed"@,
        }
    }

    /// The state's name.
    pub fn as_str(&self) -> (r: &'static str)
        ensures
            r@ == self.name_spec(),
    {
        match self {
            ReviewState::Draft => "draft",
            ReviewState::Submitted => "submitted",
            ReviewState::Addressed => "addressed",
            ReviewState::Dismissed => "dismissed",
        }
    }
}

/// The overall outcome of a submitted review.
#[derive(Clone, Copy, Debug, PartialEq, Eq, Hash, Structural)]
pub enum Verdict {
    Approve,
    RequestChanges,
    Comment,
}

/// Where a review comment stands.
#[derive(Clone, Copy, Debug, PartialEq, Eq, Hash, Structural)]
pub enum ReviewCommentStatus {
    Open,
    Addressed,
    WontFix,
}

impl ReviewCommentStatus {
    /// Whether the status closes the comment (`addressed` or `wont-fix`).
    pub open spec fn is_terminal_spec(self) -> bool {
        self == ReviewCommentStatus::Addressed || self == ReviewCommentStatus::WontFix
    }

    /// Whether the status closes the comment.
    pub fn is_terminal(&self) -> (r: bool)
        ensures
            r == self.is_terminal_spec(),
    {
        match self {
            ReviewCommentStatus::Addressed | ReviewCommentStatus::WontFix => true,
            _ => false,
        }
    }
}

/// The kind of document a comment is scoped to.
#[derive(Clone, Copy, Debug, PartialEq, Eq, Hash, Structural)]
pub enum CommentDocKind {
    Phase,
}

/// A document a comment of a roadmap review is scoped to.
#[derive(Clone, Debug, PartialEq, Eq)]
pub struct CommentDoc {
    pub kind: CommentDocKind,
    pub stem: String,
}

/// Spec view of a comment's document.
pub struct CommentDocView {
    pub kind: CommentDocKind,
    pub stem: Seq<char>,
}

impl View for CommentDoc {
    type V = CommentDocView;

    open spec fn view(&self) -> CommentDocView {
        CommentDocView { kind: self.kind, stem: self.stem@ }
    }
}

/// Where in the target's body a comment points.
#[derive(Clone, Debug, PartialEq, Eq)]
pub enum Anchor {
    /// A quoted passage with the text around it.
    TextQuote { quote: String, prefix: String, suffix: String },
}

/// Spec view of an anchor.
pub enum AnchorView {
    TextQuote { quote: Seq<char>, prefix: Seq<char>, suffix: Seq<char> },
}

impl View for Anchor {
    type V = AnchorView;

    open spec fn view(&self) -> AnchorView {
        match self {
            Anchor::TextQuote { quote, prefix, suffix } => AnchorView::TextQuote {
                quote: quote@,
                prefix: prefix@,
                suffix: suffix@,
            },
        }
    }
}

/// A moment in UTC, to the second.
#[derive(Clone, Copy, Debug, PartialEq, Eq, Hash, PartialOrd, Ord, Structural)]
pub struct Timestamp {
    pub date: Date,
    pub hour: u32,
    pub minute: u32,
    pub second: u32,
}

/// One comment of a review.
#[derive(Clone, Debug, PartialEq, Eq)]
pub struct ReviewComment {
    pub id: u32,
    pub doc: Option<CommentDoc>,
    pub status: ReviewCommentStatus,
    pub applied_commit: Option<String>,
    pub anchor: Option<Anchor>,
    pub body: String,
    pub reply: Option<String>,
}

/// Spec view of a review comment.
pub struct CommentView {
    pub id: u32,
    pub doc: Option<CommentDocView>,
    pub status: ReviewCommentStatus,
    pub applied_commit: Option<Seq<char>>,
    pub anchor: Option<AnchorView>,
    pub body: Seq<char>,
    pub reply: Option<Seq<char>>,
}

/// The view of an optional comment document.
pub open spec fn opt_doc_view(d: Option<CommentDoc>) -> Option<CommentDocView> {
    match d {
        Some(x) => Some(x@),
        None => None,
    }
}

/// The view of an optional anchor.
pub open spec fn opt_anchor_view(a: Option<Anchor>) -> Option<AnchorView> {
    match a {
        Some(x) => Some(x@),
        None => None,
    }
}

impl View for ReviewComment {
    type V = CommentView;

    open spec fn view(&self) -> CommentView {
        CommentView {
            id: self.id,
            doc: opt_doc_view(self.doc),
            status: self.status,
            applied_commit: self.applied_commit.deep_view(),
            anchor: opt_anchor_view(self.anchor),
            body: self.body@,
            reply: self.reply.deep_view(),
        }
    }
}

/// A review's frontmatter.
#[derive(Clone, Debug, PartialEq, Eq)]
pub struct Review {
    pub id: String,
    pub author: String,
    pub target: ReviewTarget,
    pub state: ReviewState,
    pub verdict: Option<Verdict>,
    pub created: Timestamp,
    pub submitted: Option<Timestamp>,
    pub created_commit: Option<String>,
    pub comments: Vec<ReviewComment>,
}

/// Spec view of a review.
pub struct ReviewView {
    pub id: Seq<char>,
    pub author: Seq<char>,
    pub target: TargetView,
    pub state: ReviewState,
    pub verdict: Option<Verdict>,
    pub created: Timestamp,
    pub submitted: Option<Timestamp>,
    pub created_commit: Option<Seq<char>>,
    pub comments: Seq<CommentView>,
}

/// The views of a list of comments.
pub open spec fn comment_views(v: Seq<ReviewComment>) -> Seq<CommentView> {
    v.map_values(|c: ReviewComment| c@)
}

impl View for Review {
    type V = ReviewView;

    open spec fn view(&self) -> ReviewView {
        ReviewView {
            id: self.id@,
            author: self.author@,
            target: self.target@,
            state: self.state,
            verdict: self.verdict,
            created: self.created,
            submitted: self.submitted,
            created_commit: self.created_commit.deep_view(),
            comments: comment_views(self.comments@),
        }
    }
}

impl CommentDoc {
    /// An exact copy.
    pub fn duplicate(&self) -> (r: CommentDoc)
        ensures
            r@ == self@,
    {
        CommentDoc { kind: self.kind, stem: self.stem.clone() }
    }
}

impl Anchor {
    /// An exact copy.
    pub fn duplicate(&self) -> (r: Anchor)
        ensures
            r@ == self@,
    {
        match self {
            Anchor::TextQuote { quote, prefix, suffix } => Anchor::TextQuote {
                quote: quote.clone(),
                prefix: prefix.clone(),
                suffix: suffix.clone(),
            },
        }
    }
}

impl ReviewComment {
    /// An exact copy.
    pub fn duplicate(&self) -> (r: ReviewComment)
        ensures
            r@ == self@,
    {
        ReviewComment {
            id: self.id,
            doc: match &self.doc {
                Some(d) => Some(d.duplicate()),
                None => None,
            },
            status: self.status,
            applied_commit: copy_opt_string(&self.applied_commit),
            anchor: match &self.anchor {
                Some(a) => Some(a.duplicate()),
                None => None,
            },
            body: self.body.clone(),
            reply: copy_opt_string(&self.reply),
        }
    }
}

/// A copy of a list of comments, comment for comment.
pub fn copy_comments(v: &Vec<ReviewComment>) -> (r: Vec<ReviewComment>)
    ensures
        comment_views(r@) == comment_views(v@),
{
    let mut out: Vec<ReviewComment> = Vec::new();
    let mut i: usize = 0;
    while i < v.len()
        invariant
            i <= v.len(),
            comment_views(out@) == comment_views(v@).take(i as int),
        decreases v.len() - i,
    {
        let ghost o = comment_views(out@);
        let c = v[i].duplicate();
        out.push(c);
        assert(comment_views(out@) =~= o.push(c@));
        assert(comment_views(v@).take(i + 1) =~= comment_views(v@).take(i as int).push(v@[i as int]@));
        i = i + 1;
    }
    assert(comment_views(v@).take(v.len() as int) =~= comment_views(v@));
    out
}

impl Review {
    /// An exact copy.
    pub fn duplicate(&self) -> (r: Review)
        ensures
            r@ == self@,
    {
        Review {
            id: self.id.clone(),
            author: self.author.clone(),
            target: self.target.duplicate(),
            state: self.state,
            verdict: self.verdict,
            created: self.created,
            submitted: self.submitted,
            created_commit: copy_opt_string(&self.created_commit),
            comments: copy_comments(&self.comments),
        }
    }
}

impl Document<Review> {
    /// An exact copy.
    pub fn duplicate(&self) -> (r: Document<Review>)
        ensures
            r@ == self@,
    {
        Document { frontmatter: self.frontmatter.duplicate(), body: self.body.clone() }
    }
}

/// Which lane driver opened a run.
#[derive(Clone, Copy, Debug, PartialEq, Eq, Hash, Structural)]
pub enum RunDriver {
    Autopilot,
    DispatchPhase,
}

/// Where a run stands: open, or ended one of two ways.
#[derive(Clone, Copy, Debug, PartialEq, Eq, Hash, Structural)]
pub enum RunStatus {
    Open,
    Closed,
    Abandoned,
}

impl RunStatus {
    /// Whether the run has ended.
    pub open spec fn is_terminal_spec(self) -> bool {
        self != RunStatus::Open
    }

    /// Whether the run has ended.
    pub fn is_terminal(&self) -> (r: bool)
        ensures
            r == self.is_terminal_spec(),
    {
        match self {
            RunStatus::Open => false,
            _ => true,
        }
    }

    /// The status as it is written.
    pub open spec fn name_spec(self) -> Seq<char> {
        match self {
            RunStatus::Open => "open"@,
            RunStatus::Closed => "closed"@,
            RunStatus::Abandoned => "abandoned"@,
        }
    }

    /// The status as it is written; see [`RunStatus::name_spec`].
    pub fn as_str(&self) -> (r: &'static str)
        ensures
            r@ == self.name_spec(),
    {
        match self {
            RunStatus::Open => "open",
            RunStatus::Closed => "closed",
            RunStatus::Abandoned => "abandoned",
        }
    }
}

/// What a run drives: a roadmap or a task, by slug.
#[derive(Clone, Debug, PartialEq, Eq)]
pub enum RunTarget {
    Roadmap(String),
    Task(String),
}

/// Spec view of a [`RunTarget`].
pub enum RunTargetView {
    Roadmap(Seq<char>),
    Task(Seq<char>),
}

impl View for RunTarget {
    type V = RunTargetView;

    open spec fn view(&self) -> RunTargetView {
        match self {
            RunTarget::Roadmap(s) => RunTargetView::Roadmap(s@),
            RunTarget::Task(s) => RunTargetView::Task(s@),
        }
    }
}

impl RunTarget {
    /// The roadmap driven, if the target is one.
    pub fn roadmap(&self) -> (r: Option<&str>)
        ensures
            match self@ {
                RunTargetView::Roadmap(s) => r matches Some(x) && x@ == s,
                RunTargetView::Task(_) => r is None,
            },
    {
        match self {
            RunTarget::Roadmap(s) => Some(s.as_str()),
            RunTarget::Task(_) => None,
        }
    }

    /// The task driven, if the target is one.
    pub fn task(&self) -> (r: Option<&str>)
        ensures
            match self@ {
                RunTargetView::Task(s) => r matches Some(x) && x@ == s,
                RunTargetView::Roadmap(_) => r is None,
            },
    {
        match self {
            RunTarget::Task(s) => Some(s.as_str()),
            RunTarget::Roadmap(_) => None,
        }
    }

    /// An exact copy.
    pub fn duplicate(&self) -> (r: RunTarget)
        ensures
            r@ == self@,
    {
        match self {
            RunTarget::Roadmap(s) => RunTarget::Roadmap(s.clone()),
            RunTarget::Task(s) => RunTarget::Task(s.clone()),
        }
    }
}

/// One dispatched unit of a run: a phase stem or the task slug, which
/// attempt at it this is, its time window and its outcome.
#[derive(Clone, Debug, PartialEq, Eq)]
pub struct RunUnit {
    pub unit: String,
    pub attempt: u32,
    pub started: Timestamp,
    pub ended: Option<Timestamp>,
    pub outcome: Option<String>,
}

/// Spec view of a [`RunUnit`].
pub struct RunUnitView {
    pub unit: Seq<char>,
    pub attempt: u32,
    pub started: Timestamp,
    pub ended: Option<Timestamp>,
    pub outcome: Option<Seq<char>>,
}

impl View for RunUnit {
    type V = RunUnitView;

    open spec fn view(&self) -> RunUnitView {
        RunUnitView {
            unit: self.unit@,
            attempt: self.attempt,
            started: self.started,
            ended: self.ended,
            outcome: self.outcome.deep_view(),
        }
    }
}

impl RunUnit {
    /// Whether the unit has ended.
    pub fn is_complete(&self) -> (r: bool)
        ensures
            r == self.ended is Some,
    {
        self.ended.is_some()
    }

    /// An exact copy.
    pub fn duplicate(&self) -> (r: RunUnit)
        ensures
            r@ == self@,
    {
        RunUnit {
            unit: self.unit.clone(),
            attempt: self.attempt,
            started: self.started,
            ended: self.ended,
            outcome: copy_opt_string(&self.outcome),
        }
    }
}

/// The views of a run's units.
pub open spec fn unit_views(v: Seq<RunUnit>) -> Seq<RunUnitView> {
    v.map_values(|u: RunUnit| u@)
}

/// A run record: what ran, where and when.
#[derive(Clone, Debug, PartialEq, Eq)]
pub struct Run {
    pub id: String,
    pub project: String,
    pub driver: RunDriver,
    pub target: RunTarget,
    pub session_uuid: Option<String>,
    pub args: Option<String>,
    pub status: RunStatus,
    pub started: Timestamp,
    pub ended: Option<Timestamp>,
    pub stop_reason: Option<String>,
    pub units: Vec<RunUnit>,
}

/// Spec view of a [`Run`].
pub struct RunView {
    pub id: Seq<char>,
    pub project: Seq<char>,
    pub driver: RunDriver,
    pub target: RunTargetView,
    pub session_uuid: Option<Seq<char>>,
    pub args: Option<Seq<char>>,
    pub status: RunStatus,
    pub started: Timestamp,
    pub ended: Option<Timestamp>,
    pub stop_reason: Option<Seq<char>>,
    pub units: Seq<RunUnitView>,
}

impl View for Run {
    type V = RunView;

    open spec fn view(&self) -> RunView {
        RunView {
            id: self.id@,
            project: self.project@,
            driver: self.driver,
            target: self.target@,
            session_uuid: self.session_uuid.deep_view(),
            args: self.args.deep_view(),
            status: self.status,
            started: self.started,
            ended: self.ended,
            stop_reason: self.stop_reason.deep_view(),
            units: unit_views(self.units@),
        }
    }
}

/// Whether a run has ended and every unit of it has too.
pub open spec fn run_complete(r: RunView) -> bool {
    &&& r.status.is_terminal_spec()
    &&& forall|i: int| 0 <= i < r.units.len() ==> (#[trigger] r.units[i]).ended is Some
}

impl Run {
    /// Whether the run has ended and every unit of it has too.
    pub fn is_complete(&self) -> (r: bool)
        ensures
            r == run_complete(self@),
    {
        if !self.status.is_terminal() {
            return false;
        }
        let mut i: usize = 0;
        while i < self.units.len()
            invariant
                i <= self.units.len(),
                forall|k: int| 0 <= k < i ==> (#[trigger] unit_views(self.units@)[k]).ended is Some,
            decreases self.units.len() - i,
        {
            assert(unit_views(self.units@)[i as int] == self.units@[i as int]@);
            if !self.units[i].is_complete() {
                return false;
            }
            i = i + 1;
        }
        true
    }

    /// An exact copy.
    pub fn duplicate(&self) -> (r: Run)
        ensures
            r@ == self@,
    {
        let mut units: Vec<RunUnit> = Vec::new();
        let mut i: usize = 0;
        while i < self.units.len()
            invariant
                i <= self.units.len(),
                unit_views(units@) == unit_views(self.units@).take(i as int),
            decreases self.units.len() - i,
        {
            let ghost o = unit_views(units@);
            let u = self.units[i].duplicate();
            units.push(u);
            assert(unit_views(units@) =~= o.push(u@));
            assert(unit_views(self.units@).take(i + 1) =~= unit_views(self.units@).take(i as int).push(self.units@[i as int]@));
            i = i + 1;
        }
        assert(unit_views(self.units@).take(self.units.len() as int) =~= unit_views(self.units@));
        Run {
            id: self.id.clone(),
            project: self.project.clone(),
            driver: self.driver,
            target: self.target.duplicate(),
            session_uuid: copy_opt_string(&self.session_uuid),
            args: copy_opt_string(&self.args),
            status: self.status,
            started: self.started,
            ended: self.ended,
            stop_reason: copy_opt_string(&self.stop_reason),
            units,
        }
    }
}

impl Document<Run> {
    /// An exact copy.
    pub fn duplicate(&self) -> (r: Document<Run>)
        ensures
            r@ == self@,
    {
        Document { frontmatter: self.frontmatter.duplicate(), body: self.body.clone() }
    }
}

/// Where an implementation plan stands.
#[derive(Clone, Copy, Debug, PartialEq, Eq, Hash, Structural)]
pub enum PlanStatus {
    Draft,
    Approved,
    Superseded,
}

/// An implementation plan: the phase or task it implements and the plan it
/// replaces, if any.
#[derive(Clone, Debug, PartialEq, Eq)]
pub struct Plan {
    pub project: String,
    pub plan: String,
    pub title: String,
    pub implements: ItemRef,
    pub supersedes: Option<ItemRef>,
    pub status: PlanStatus,
    pub created: Date,
    pub updated: Date,
}

/// Spec view of a [`Plan`].
pub struct PlanView {
    pub project: Seq<char>,
    pub plan: Seq<char>,
    pub title: Seq<char>,
    pub implements: ItemRefView,
    pub supersedes: Option<ItemRefView>,
    pub status: PlanStatus,
    pub created: Date,
    pub updated: Date,
}

/// The view of an optional reference.
pub open spec fn opt_ref_view(r: Option<ItemRef>) -> Option<ItemRefView> {
    match r {
        Some(x) => Some(x@),
        None => None,
    }
}

impl View for Plan {
    type V = PlanView;

    open spec fn view(&self) -> PlanView {
        PlanView {
            project: self.project@,
            plan: self.plan@,
            title: self.title@,
            implements: self.implements@,
            supersedes: opt_ref_view(self.supersedes),
            status: self.status,
            created: self.created,
            updated: self.updated,
        }
    }
}

impl Plan {
    /// An exact copy.
    pub fn duplicate(&self) -> (r: Plan)
        ensures
            r@ == self@,
    {
        Plan {
            project: self.project.clone(),
            plan: self.plan.clone(),
            title: self.title.clone(),
            implements: self.implements.duplicate(),
            supersedes: match &self.supersedes {
                Some(x) => Some(x.duplicate()),
                None => None,
            },
            status: self.status,
            created: self.created,
            updated: self.updated,
        }
    }
}

impl Document<Plan> {
    /// An exact copy.
    pub fn duplicate(&self) -> (r: Document<Plan>)
        ensures
            r@ == self@,
    {
        Document { frontmatter: self.frontmatter.duplicate(), body: self.body.clone() }
    }
}

} // verus!
