//! The error type shared by every operation.
use vstd::prelude::*;

use crate::model::RunStatus;
use crate::text::{cat, cat3, decimal, owned, u64_to_decimal};

verus! {

/// Everything an operation can refuse or fail with.
#[derive(Debug, Clone, PartialEq, Eq)]
pub enum Error {
    Io(String),
    FrontmatterParse(String),
    FrontmatterMissing,
    ConfigParse(String),
    ConfigNotFound,
    ConfigSerialize(String),
    InvalidConfigValue { key: String, value: String },
    InvalidPath(String),
    ProjectNotFound(String),
    RoadmapNotFound(String),
    PhaseNotFound(String),
    TaskNotFound(String),
    DuplicateSlug(String),
    CyclicDependency(String),
    AlreadyInitialized,
    ProjectNotSpecified,
    InvalidPhaseSelection(String),
    RoadmapHasIncompletePhases(String),
    ConflictingUpdate { field: String },
    BodyClobberRefused,
    EmptyTitle,
    TaskAlreadyConsolidated(String),
    TaskMergeNoSources,
    TaskMergeIntoSelf(String),
    ReviewNotFound(String),
    ReviewNotDraft(String),
    ReviewNotSubmitted(String),
    ReviewMissingVerdict(String),
    ReviewEmpty(String),
    ReviewInvalidTransition { review_id: String, from: String, to: String },
    ReviewOpenComments { review_id: String, open_count: u64 },
    CommentNotFound { review_id: String, comment_id: u32 },
    CommentDocNotApplicable,
    ChangeTargetHasNoDocument(String),
    CommentDocOutOfScope(String),
    InvalidReviewTargetRef(String),
    InvalidCommentDocRef(String),
    ReviewTargetMissing(String),
    ReviewIdExhausted,
    RunIdExhausted,
    RunNotFound(String),
    RunNotOpen { run_id: String, status: RunStatus },
    RunUnitAlreadyOpen { run_id: String, unit: String, attempt: u32 },
    RunUnitMismatch { run_id: String, unit: String, expected: String },
    RunOutcomeEmpty,
    RunNoOpenUnit(String),
    RunStopReasonEmpty,
    PlanExists(String),
    PlanNotFound(String),
    PlanImplementsInvalidKind(String),
    PlanImplementsMissing(String),
    PlanSupersedesInvalidKind(String),
    PlanSupersedesSelf(String),
    PlanSupersedesMissing(String),
    GateOverrideGateDisabled,
    GateOverrideEmptyReason,
    GateNoApprovedPlan(String),
    GateNoApprovedChangeReview { item: String, plans: Vec<String> },
    GateStaleChangeReview { item: String, review_id: String, reviewed_head: String, observed_head: Option<String> },
    GateWorktreeDirty { path: String, paths: Vec<String>, truncated: bool },
    GateWorktreeUnobservable { item: String, cause: String },
    RootNotDetermined,
    RemoteNotFound(String),
    DuplicateRemote(String),
    MergeConflict(String),
    NoMergeInProgress,
    NotConflicted(String),
    PushRejected(String),
    BranchesDiverged(String),
    Git(String),
}

/// The `Err` value an operation's `Result` carries.
pub type Result<T> = core::result::Result<T, Error>;

/// Why a change has no document: `label` names commits in the source
/// repository.
pub open spec fn no_document_message(label: Seq<char>) -> Seq<char> {
    label + " names commits in the source repository, not a plan repo document"@
}

/// Human-readable message of an error.
pub open spec fn message_spec(e: Error) -> Seq<char> {
    match e {
        Error::Io(m) => "I/O error: "@ + m@,
        Error::FrontmatterParse(m) => "frontmatter parse error: "@ + m@,
        Error::FrontmatterMissing => "frontmatter missing"@,
        Error::ConfigParse(m) => "config parse error: "@ + m@,
        Error::ConfigNotFound => "rdm.toml not found"@,
        Error::ConfigSerialize(m) => "config serialize error: "@ + m@,
        Error::InvalidConfigValue { key, value } => "invalid value '"@ + value@
            + "' for config key '"@ + key@ + "'"@,
        Error::InvalidPath(m) => "invalid path: "@ + m@,
        Error::ProjectNotFound(m) => "project not found: "@ + m@,
        Error::RoadmapNotFound(m) => "roadmap not found: "@ + m@,
        Error::PhaseNotFound(m) => "phase not found: "@ + m@,
        Error::TaskNotFound(m) => "task not found: "@ + m@,
        Error::DuplicateSlug(m) => "'"@ + m@ + "' already exists"@,
        Error::CyclicDependency(m) => "cyclic dependency: "@ + m@,
        Error::AlreadyInitialized => "plan repo is already initialized"@,
        Error::ProjectNotSpecified => "no project specified"@,
        Error::InvalidPhaseSelection(m) => "invalid phase selection: "@ + m@,
        Error::RoadmapHasIncompletePhases(m) => "roadmap '"@ + m@
            + "' has incomplete phases"@,
        Error::ConflictingUpdate { field } => "cannot set both '"@ + field@ + "' and 'clear_"@
            + field@ + "'"@,
        Error::BodyClobberRefused => "refusing to replace a non-empty body with an empty one"@,
        Error::EmptyTitle => "title must not be empty"@,
        Error::TaskAlreadyConsolidated(m) => "task already consolidated: "@ + m@,
        Error::TaskMergeNoSources => "no source tasks to merge"@,
        Error::TaskMergeIntoSelf(m) => "cannot merge task into itself: "@ + m@,
        Error::ReviewNotFound(m) => "review not found: "@ + m@,
        Error::ReviewNotDraft(m) => "review is not a draft: "@ + m@,
        Error::ReviewNotSubmitted(m) => "review is not submitted: "@ + m@,
        Error::ReviewMissingVerdict(m) => "missing verdict for review "@ + m@,
        Error::ReviewEmpty(m) => "review has no comments and no summary: "@ + m@,
        Error::ReviewInvalidTransition { review_id, from, to } => "review "@ + review_id@
            + " cannot move from "@ + from@ + " to "@ + to@,
        Error::ReviewOpenComments { review_id, open_count } => "review "@ + review_id@ + " has "@
            + decimal(open_count as nat) + " open comments"@,
        Error::CommentNotFound { review_id, comment_id } => "comment "@ + decimal(
            comment_id as nat,
        ) + " not found in review "@ + review_id@,
        Error::CommentDocNotApplicable => "only roadmap reviews may scope a comment to a document"@,
        Error::ChangeTargetHasNoDocument(m) => no_document_message(m@),
        Error::CommentDocOutOfScope(m) => "comment document out of scope: "@ + m@,
        Error::InvalidReviewTargetRef(m) => "invalid review target '"@ + m@
            + "': expected roadmap/<slug>, phase/<roadmap>/<stem-or-number> or task/<slug>"@,
        Error::InvalidCommentDocRef(m) => "invalid comment document '"@ + m@
            + "': expected phase/<stem-or-number>"@,
        Error::ReviewTargetMissing(m) => "review target missing: "@ + m@,
        Error::ReviewIdExhausted => "could not find a free review id"@,
        Error::RunIdExhausted => "could not find a free run id"@,
        Error::RunNotFound(m) => "run not found: "@ + m@,
        Error::RunNotOpen { run_id, status } => "run "@ + run_id@ + " is "@ + status.name_spec()
            + ", not open"@,
        Error::RunUnitAlreadyOpen { run_id, unit, attempt } => "run "@ + run_id@ + " already has unit "@
            + unit@ + " (attempt "@ + decimal(attempt as nat) + ") open"@,
        Error::RunUnitMismatch { run_id, unit, expected } => "run "@ + run_id@ + " drives task "@
            + expected@ + ", not "@ + unit@,
        Error::RunOutcomeEmpty => "a unit outcome must not be empty"@,
        Error::RunNoOpenUnit(m) => "run "@ + m@ + " has no open unit"@,
        Error::RunStopReasonEmpty => "a stop reason must not be empty"@,
        Error::PlanExists(m) => "plan '"@ + m@ + "' already exists"@,
        Error::PlanNotFound(m) => "plan not found: "@ + m@,
        Error::PlanImplementsInvalidKind(m) => "a plan implements a phase or a task, not '"@ + m@
            + "': use --implements phase/<roadmap>/<stem> or task/<slug>"@,
        Error::PlanImplementsMissing(m) => "implemented item not found: "@ + m@,
        Error::PlanSupersedesInvalidKind(m) => "'"@ + m@ + "' is not a plan: use --supersedes plan/<slug>"@,
        Error::PlanSupersedesSelf(m) => "plan '"@ + m@ + "' cannot supersede itself"@,
        Error::PlanSupersedesMissing(m) => "superseded plan not found: "@ + m@,
        Error::GateOverrideGateDisabled => "an override was given but the reviewed gate is not enabled"@,
        Error::GateOverrideEmptyReason => "an override needs a reason"@,
        Error::GateNoApprovedPlan(m) => "no approved plan implements "@ + m@,
        Error::GateNoApprovedChangeReview { item, plans } => "no approving change review names an approved plan of "@
            + item@,
        Error::GateStaleChangeReview { item, review_id, reviewed_head, observed_head } => "change review "@
            + review_id@ + " of "@ + item@ + " was recorded at "@ + reviewed_head@ + ", not at the checked-out head"@,
        Error::GateWorktreeDirty { path, paths, truncated } => "worktree "@ + path@ + " has uncommitted changes"@,
        Error::GateWorktreeUnobservable { item, cause } => "cannot inspect the worktree of "@ + item@ + ": "@
            + cause@,
        Error::RootNotDetermined => "could not determine the plan repo root"@,
        Error::RemoteNotFound(m) => "remote not found: "@ + m@,
        Error::DuplicateRemote(m) => "remote '"@ + m@ + "' already exists"@,
        Error::MergeConflict(m) => "merge conflict: "@ + m@,
        Error::NoMergeInProgress => "no merge in progress"@,
        Error::NotConflicted(m) => "file '"@ + m@ + "' is not in the unmerged list"@,
        Error::PushRejected(m) => "push rejected: "@ + m@,
        Error::BranchesDiverged(m) => "branches diverged: "@ + m@,
        Error::Git(m) => "git error: "@ + m@,
    }
}

fn cat5(a: &str, b: &str, c: &str, d: &str, e: &str) -> (r: String)
    ensures
        r@ == a@ + b@ + c@ + d@ + e@,
{
    let mut s = cat3(a, b, c);
    s.append(d);
    s.append(e);
    s
}

impl Error {
    /// The human-readable message of this error.
    pub fn message(&self) -> (r: String)
        ensures
            r@ == message_spec(*self),
    {
        match self {
            Error::Io(m) => cat("I/O error: ", m.as_str()),
            Error::FrontmatterParse(m) => cat("frontmatter parse error: ", m.as_str()),
            Error::FrontmatterMissing => owned("frontmatter missing"),
            Error::ConfigParse(m) => cat("config parse error: ", m.as_str()),
            Error::ConfigNotFound => owned("rdm.toml not found"),
            Error::ConfigSerialize(m) => cat("config serialize error: ", m.as_str()),
            Error::InvalidConfigValue { key, value } => cat5(
                "invalid value '",
                value.as_str(),
                "' for config key '",
                key.as_str(),
                "'",
            ),
            Error::InvalidPath(m) => cat("invalid path: ", m.as_str()),
            Error::ProjectNotFound(m) => cat("project not found: ", m.as_str()),
            Error::RoadmapNotFound(m) => cat("roadmap not found: ", m.as_str()),
            Error::PhaseNotFound(m) => cat("phase not found: ", m.as_str()),
            Error::TaskNotFound(m) => cat("task not found: ", m.as_str()),
            Error::DuplicateSlug(m) => cat3("'", m.as_str(), "' already exists"),
            Error::CyclicDependency(m) => cat("cyclic dependency: ", m.as_str()),
            Error::AlreadyInitialized => owned("plan repo is already initialized"),
            Error::ProjectNotSpecified => owned("no project specified"),
            Error::InvalidPhaseSelection(m) => cat("invalid phase selection: ", m.as_str()),
            Error::RoadmapHasIncompletePhases(m) => cat3(
                "roadmap '",
                m.as_str(),
                "' has incomplete phases",
            ),
            Error::ConflictingUpdate { field } => cat5(
                "cannot set both '",
                field.as_str(),
                "' and 'clear_",
                field.as_str(),
                "'",
            ),
            Error::BodyClobberRefused => owned(
                "refusing to replace a non-empty body with an empty one",
            ),
            Error::EmptyTitle => owned("title must not be empty"),
            Error::TaskAlreadyConsolidated(m) => cat("task already consolidated: ", m.as_str()),
            Error::TaskMergeNoSources => owned("no source tasks to merge"),
            Error::TaskMergeIntoSelf(m) => cat("cannot merge task into itself: ", m.as_str()),
            Error::ReviewNotFound(m) => cat("review not found: ", m.as_str()),
            Error::ReviewNotDraft(m) => cat("review is not a draft: ", m.as_str()),
            Error::ReviewNotSubmitted(m) => cat("review is not submitted: ", m.as_str()),
            Error::ReviewMissingVerdict(m) => cat("missing verdict for review ", m.as_str()),
            Error::ReviewEmpty(m) => cat("review has no comments and no summary: ", m.as_str()),
            Error::ReviewInvalidTransition { review_id, from, to } => {
                let mut s = cat5("review ", review_id.as_str(), " cannot move from ", from.as_str(), " to ");
                s.append(to.as_str());
                s
            },
            Error::ReviewOpenComments { review_id, open_count } => {
                let n = u64_to_decimal(*open_count);
                cat5("review ", review_id.as_str(), " has ", n.as_str(), " open comments")
            },
            Error::CommentNotFound { review_id, comment_id } => {
                let n = u64_to_decimal(*comment_id as u64);
                let mut s = cat3("comment ", n.as_str(), " not found in review ");
                s.append(review_id.as_str());
                s
            },
            Error::CommentDocNotApplicable => owned(
                "only roadmap reviews may scope a comment to a document",
            ),
            Error::ChangeTargetHasNoDocument(m) => cat(
                m.as_str(),
                " names commits in the source repository, not a plan repo document",
            ),
            Error::CommentDocOutOfScope(m) => cat("comment document out of scope: ", m.as_str()),
            Error::InvalidReviewTargetRef(m) => cat3(
                "invalid review target '",
                m.as_str(),
                "': expected roadmap/<slug>, phase/<roadmap>/<stem-or-number> or task/<slug>",
            ),
            Error::InvalidCommentDocRef(m) => cat3(
                "invalid comment document '",
                m.as_str(),
                "': expected phase/<stem-or-number>",
            ),
            Error::ReviewTargetMissing(m) => cat("review target missing: ", m.as_str()),
            Error::ReviewIdExhausted => owned("could not find a free review id"),
            Error::RunIdExhausted => owned("could not find a free run id"),
            Error::RunNotFound(m) => cat("run not found: ", m.as_str()),
            Error::RunNotOpen { run_id, status } => cat5("run ", run_id.as_str(), " is ", status.as_str(), ", not open"),
            Error::RunUnitAlreadyOpen { run_id, unit, attempt } => {
                let n = u64_to_decimal(*attempt as u64);
                let mut s = cat5("run ", run_id.as_str(), " already has unit ", unit.as_str(), " (attempt ");
                s.append(n.as_str());
                s.append(") open");
                s
            },
            Error::RunUnitMismatch { run_id, unit, expected } => {
                let mut s = cat5("run ", run_id.as_str(), " drives task ", expected.as_str(), ", not ");
                s.append(unit.as_str());
                s
            },
            Error::RunOutcomeEmpty => owned("a unit outcome must not be empty"),
            Error::RunNoOpenUnit(m) => cat3("run ", m.as_str(), " has no open unit"),
            Error::RunStopReasonEmpty => owned("a stop reason must not be empty"),
            Error::PlanExists(m) => cat3("plan '", m.as_str(), "' already exists"),
            Error::PlanNotFound(m) => cat("plan not found: ", m.as_str()),
            Error::PlanImplementsInvalidKind(m) => cat3(
                "a plan implements a phase or a task, not '",
                m.as_str(),
                "': use --implements phase/<roadmap>/<stem> or task/<slug>",
            ),
            Error::PlanImplementsMissing(m) => cat("implemented item not found: ", m.as_str()),
            Error::PlanSupersedesInvalidKind(m) => cat3("'", m.as_str(), "' is not a plan: use --supersedes plan/<slug>"),
            Error::PlanSupersedesSelf(m) => cat3("plan '", m.as_str(), "' cannot supersede itself"),
            Error::PlanSupersedesMissing(m) => cat("superseded plan not found: ", m.as_str()),
            Error::GateOverrideGateDisabled => owned("an override was given but the reviewed gate is not enabled"),
            Error::GateOverrideEmptyReason => owned("an override needs a reason"),
            Error::GateNoApprovedPlan(m) => cat("no approved plan implements ", m.as_str()),
            Error::GateNoApprovedChangeReview { item, plans } => cat(
                "no approving change review names an approved plan of ",
                item.as_str(),
            ),
            Error::GateStaleChangeReview { item, review_id, reviewed_head, observed_head } => {
                let mut s = cat5("change review ", review_id.as_str(), " of ", item.as_str(), " was recorded at ");
                s.append(reviewed_head.as_str());
                s.append(", not at the checked-out head");
                s
            },
            Error::GateWorktreeDirty { path, paths, truncated } => cat3(
                "worktree ",
                path.as_str(),
                " has uncommitted changes",
            ),
            Error::GateWorktreeUnobservable { item, cause } => {
                let mut s = cat3("cannot inspect the worktree of ", item.as_str(), ": ");
                s.append(cause.as_str());
                s
            },
            Error::RootNotDetermined => owned("could not determine the plan repo root"),
            Error::RemoteNotFound(m) => cat("remote not found: ", m.as_str()),
            Error::DuplicateRemote(m) => cat3("remote '", m.as_str(), "' already exists"),
            Error::MergeConflict(m) => cat("merge conflict: ", m.as_str()),
            Error::NoMergeInProgress => owned("no merge in progress"),
            Error::NotConflicted(m) => cat3("file '", m.as_str(), "' is not in the unmerged list"),
            Error::PushRejected(m) => cat("push rejected: ", m.as_str()),
            Error::BranchesDiverged(m) => cat("branches diverged: ", m.as_str()),
            Error::Git(m) => cat("git error: ", m.as_str()),
        }
    }
}

} // verus!
