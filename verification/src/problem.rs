//! Problem details (RFC 9457) for errors reported over HTTP.
use vstd::prelude::*;

use crate::error::Error;
use crate::text::{cat, cat3, owned};

verus! {

/// A problem-details object.
#[derive(Debug, Clone)]
pub struct ProblemDetail {
    /// A URI reference identifying the problem type.
    pub problem_type: String,
    /// A short summary of the problem.
    pub title: String,
    /// The HTTP status code.
    pub status: u16,
    /// An explanation of this occurrence.
    pub detail: Option<String>,
    /// A URI reference identifying this occurrence.
    pub instance: Option<String>,
}

/// Spec view of a [`ProblemDetail`].
pub struct ProblemView {
    pub problem_type: Seq<char>,
    pub title: Seq<char>,
    pub status: u16,
    pub detail: Option<Seq<char>>,
    pub instance: Option<Seq<char>>,
}

impl View for ProblemDetail {
    type V = ProblemView;

    open spec fn view(&self) -> ProblemView {
        ProblemView {
            problem_type: self.problem_type@,
            title: self.title@,
            status: self.status,
            detail: self.detail.deep_view(),
            instance: self.instance.deep_view(),
        }
    }
}

/// A problem of the blank type with no instance.
pub open spec fn blank_problem(title: Seq<char>, status: u16, detail: Option<Seq<char>>) -> ProblemView {
    ProblemView { problem_type: "about:blank"@, title, status, detail, instance: None }
}

/// "Not Found", 404.
pub open spec fn not_found(detail: Seq<char>) -> ProblemView {
    blank_problem("Not Found"@, 404, Some(detail))
}

/// "Conflict", 409.
pub open spec fn conflict(detail: Seq<char>) -> ProblemView {
    blank_problem("Conflict"@, 409, Some(detail))
}

/// "Bad Request", 400.
pub open spec fn bad_request(detail: Seq<char>) -> ProblemView {
    blank_problem("Bad Request"@, 400, Some(detail))
}

/// The problem reported for an error. Errors on the server's side, and any
/// error not named here, are "Internal Server Error", 500, with no detail,
/// so that nothing internal leaks.
pub open spec fn problem_spec(e: Error) -> ProblemView {
    match e {
        Error::ProjectNotFound(n) => not_found("project not found: "@ + n@),
        Error::RoadmapNotFound(n) => not_found("roadmap not found: "@ + n@),
        Error::PhaseNotFound(n) => not_found("phase not found: "@ + n@),
        Error::TaskNotFound(n) => not_found("task not found: "@ + n@),
        Error::DuplicateSlug(s) => conflict("'"@ + s@ + "' already exists"@),
        Error::CyclicDependency(m) => conflict("cyclic dependency: "@ + m@),
        Error::AlreadyInitialized => conflict("plan repo is already initialized"@),
        Error::ProjectNotSpecified => bad_request(
            "no project specified \u{2014} use the project query parameter"@,
        ),
        Error::InvalidPhaseSelection(m) => bad_request("invalid phase selection: "@ + m@),
        Error::RoadmapHasIncompletePhases(s) => bad_request(
            "roadmap '"@ + s@ + "' has incomplete phases \u{2014} pass --force to archive anyway"@,
        ),
        Error::RemoteNotFound(n) => not_found("remote not found: "@ + n@),
        Error::DuplicateRemote(n) => conflict("remote '"@ + n@ + "' already exists"@),
        Error::MergeConflict(m) => conflict("merge conflict: "@ + m@),
        Error::NoMergeInProgress => conflict("no merge in progress"@),
        Error::NotConflicted(p) => bad_request("file '"@ + p@ + "' is not in the unmerged list"@),
        _ => blank_problem("Internal Server Error"@, 500, None),
    }
}

fn make(title: &str, status: u16, detail: Option<String>) -> (r: ProblemDetail)
    ensures
        r@ == blank_problem(title@, status, detail.deep_view()),
{
    ProblemDetail { problem_type: owned("about:blank"), title: owned(title), status, detail, instance: None }
}

impl ProblemDetail {
    /// The problem reported for `err`; see [`problem_spec`].
    pub fn from_error(err: &Error) -> (r: ProblemDetail)
        ensures
            r@ == problem_spec(*err),
    {
        match err {
            Error::ProjectNotFound(n) => make("Not Found", 404, Some(cat("project not found: ", n.as_str()))),
            Error::RoadmapNotFound(n) => make("Not Found", 404, Some(cat("roadmap not found: ", n.as_str()))),
            Error::PhaseNotFound(n) => make("Not Found", 404, Some(cat("phase not found: ", n.as_str()))),
            Error::TaskNotFound(n) => make("Not Found", 404, Some(cat("task not found: ", n.as_str()))),
            Error::DuplicateSlug(s) => make("Conflict", 409, Some(cat3("'", s.as_str(), "' already exists"))),
            Error::CyclicDependency(m) => make("Conflict", 409, Some(cat("cyclic dependency: ", m.as_str()))),
            Error::AlreadyInitialized => make("Conflict", 409, Some(owned("plan repo is already initialized"))),
            Error::ProjectNotSpecified => make(
                "Bad Request",
                400,
                Some(owned("no project specified \u{2014} use the project query parameter")),
            ),
            Error::InvalidPhaseSelection(m) => make(
                "Bad Request",
                400,
                Some(cat("invalid phase selection: ", m.as_str())),
            ),
            Error::RoadmapHasIncompletePhases(s) => make(
                "Bad Request",
                400,
                Some(cat3("roadmap '", s.as_str(), "' has incomplete phases \u{2014} pass --force to archive anyway")),
            ),
            Error::RemoteNotFound(n) => make("Not Found", 404, Some(cat("remote not found: ", n.as_str()))),
            Error::DuplicateRemote(n) => make("Conflict", 409, Some(cat3("remote '", n.as_str(), "' already exists"))),
            Error::MergeConflict(m) => make("Conflict", 409, Some(cat("merge conflict: ", m.as_str()))),
            Error::NoMergeInProgress => make("Conflict", 409, Some(owned("no merge in progress"))),
            Error::NotConflicted(p) => make(
                "Bad Request",
                400,
                Some(cat3("file '", p.as_str(), "' is not in the unmerged list")),
            ),
            _ => make("Internal Server Error", 500, None),
        }
    }
}

} // verus!
