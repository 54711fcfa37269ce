//! The errors the library reports, with the messages they are shown with.
use vstd::prelude::*;
use vstd::string::StringExecFns;
use crate::text::push_str;

verus! {

broadcast use vstd::string::group_string_axioms;

/// What went wrong.
#[derive(Debug, PartialEq, Eq)]
pub enum GtdError {
    /// A project's list was asked for without the project's name.
    ProjectNameRequired,
    /// A task was to be added with an empty description.
    EmptyDescription,
    /// A due date that is not `YYYY-MM-DD`.
    InvalidDate,
    /// A task was to be added to a project that does not exist.
    NoSuchProjectToAdd(String),
    /// A project to make exists already.
    ProjectExists(String),
    /// A project to open or delete does not exist.
    ProjectMissing(String),
    /// No list holds a task with this id.
    TaskNotFound(String),
    /// A file to edit that is none of the known ones.
    UnknownTarget(String),
}

/// The message of an error.
pub open spec fn message_text(e: GtdError) -> Seq<char> {
    match e {
        GtdError::ProjectNameRequired => "project name required for Project list"@,
        GtdError::EmptyDescription => "Task description cannot be empty"@,
        GtdError::InvalidDate => "Invalid date format. Use YYYY-MM-DD"@,
        GtdError::NoSuchProjectToAdd(p) => "Project '"@ + p@
            + "' does not exist. Create it first with: gtd project new "@ + p@,
        GtdError::ProjectExists(p) => "Project '"@ + p@ + "' already exists"@,
        GtdError::ProjectMissing(p) => "Project '"@ + p@ + "' does not exist"@,
        GtdError::TaskNotFound(id) => "Task with ID '"@ + id@
            + "' not found. Use `gtd list all` to see task IDs."@,
        GtdError::UnknownTarget(t) => "Unknown target '"@ + t@
            + "'. Options: tasks, waiting, someday, intray, archive, project:<name>"@,
    }
}

impl GtdError {
    /// The message this error is shown with.
    pub fn message(&self) -> (s: String)
        ensures
            s@ == message_text(*self),
    {
        match self {
            GtdError::ProjectNameRequired => String::from_str(
                "project name required for Project list",
            ),
            GtdError::EmptyDescription => String::from_str("Task description cannot be empty"),
            GtdError::InvalidDate => String::from_str("Invalid date format. Use YYYY-MM-DD"),
            GtdError::NoSuchProjectToAdd(p) => {
                let mut s = String::from_str("Project '");
                push_str(&mut s, p.as_str());
                push_str(&mut s, "' does not exist. Create it first with: gtd project new ");
                push_str(&mut s, p.as_str());
                s
            },
            GtdError::ProjectExists(p) => {
                let mut s = String::from_str("Project '");
                push_str(&mut s, p.as_str());
                push_str(&mut s, "' already exists");
                s
            },
            GtdError::ProjectMissing(p) => {
                let mut s = String::from_str("Project '");
                push_str(&mut s, p.as_str());
                push_str(&mut s, "' does not exist");
                s
            },
            GtdError::TaskNotFound(id) => {
                let mut s = String::from_str("Task with ID '");
                push_str(&mut s, id.as_str());
                push_str(&mut s, "' not found. Use `gtd list all` to see task IDs.");
                s
            },
            GtdError::UnknownTarget(t) => {
                let mut s = String::from_str("Unknown target '");
                push_str(&mut s, t.as_str());
                push_str(
                    &mut s,
                    "'. Options: tasks, waiting, someday, intray, archive, project:<name>",
                );
                s
            },
        }
    }
}

} // verus!
