//! `gtd edit`: which file to open.
use vstd::prelude::*;
use vstd::string::StringExecFns;
use crate::error::GtdError;
use crate::gtd::{
    archive_file, inbox_file, project_tasks_file, segments, someday_maybe_file, tasks_file,
    waiting_for_file,
};
use crate::text::{chars_of, has_prefix, slice_chars, starts_with, str_eq, string_of};

verus! {

broadcast use vstd::string::group_string_axioms;

/// What `gtd edit TARGET` opens.
pub enum EditTarget {
    /// One of the list files.
    File(Vec<String>),
    /// A project's list: named as `project:NAME` (`explicit`), or a target
    /// that is no list's name, tried as a project's name.
    Project { name: String, explicit: bool },
}

/// `t` is one of the names of a file `gtd edit` opens.
pub open spec fn is_file_name(t: Seq<char>) -> bool {
    t == "tasks"@ || t == "next"@ || t == "waiting"@ || t == "waiting-for"@ || t == "someday"@
        || t == "someday-maybe"@ || t == "intray"@ || t == "inbox"@ || t == "archive"@
}

/// The target is `File` with path `p`.
pub open spec fn is_file_target(e: EditTarget, p: Seq<Seq<char>>) -> bool {
    e matches EditTarget::File(f) && segments(f@) == p
}

/// What `gtd edit TARGET` opens.
pub fn resolve_target(target: &str) -> (e: EditTarget)
    ensures
        (target@ == "tasks"@ || target@ == "next"@) ==> is_file_target(e, seq!["tasks.md"@]),
        (target@ == "waiting"@ || target@ == "waiting-for"@) ==> is_file_target(
            e,
            seq!["waiting-for.md"@],
        ),
        (target@ == "someday"@ || target@ == "someday-maybe"@) ==> is_file_target(
            e,
            seq!["someday-maybe.md"@],
        ),
        (target@ == "intray"@ || target@ == "inbox"@) ==> is_file_target(
            e,
            seq!["in-tray"@, "inbox.md"@],
        ),
        target@ == "archive"@ ==> is_file_target(e, seq!["archive.md"@]),
        !is_file_name(target@) && has_prefix(target@, "project:"@) ==> (e matches EditTarget::Project {
            name,
            explicit,
        } && explicit && name@ == target@.skip(8)),
        !is_file_name(target@) && !has_prefix(target@, "project:"@) ==> (e matches EditTarget::Project {
            name,
            explicit,
        } && !explicit && name@ == target@),
{
    proof {
        reveal_strlit("next");
        reveal_strlit("tasks");
        reveal_strlit("waiting");
        reveal_strlit("waiting-for");
        reveal_strlit("someday");
        reveal_strlit("someday-maybe");
        reveal_strlit("archive");
        reveal_strlit("intray");
        reveal_strlit("inbox");
        reveal_strlit("project:");
        assert("waiting"@.len() == 7 && "waiting-for"@.len() == 11 && "someday"@.len() == 7);
        assert("someday-maybe"@.len() == 13 && "next"@.len() == 4 && "tasks"@.len() == 5);
        assert("archive"@.len() == 7 && "intray"@.len() == 6 && "inbox"@.len() == 5);
        assert("waiting"@[0] == 'w' && "someday"@[0] == 's' && "archive"@[0] == 'a');
        assert("tasks"@[0] == 't' && "inbox"@[0] == 'i');
    }
    if str_eq(target, "tasks") || str_eq(target, "next") {
        EditTarget::File(tasks_file())
    } else if str_eq(target, "waiting") || str_eq(target, "waiting-for") {
        EditTarget::File(waiting_for_file())
    } else if str_eq(target, "someday") || str_eq(target, "someday-maybe") {
        EditTarget::File(someday_maybe_file())
    } else if str_eq(target, "intray") || str_eq(target, "inbox") {
        EditTarget::File(inbox_file())
    } else if str_eq(target, "archive") {
        EditTarget::File(archive_file())
    } else {
        let cs = chars_of(target);
        let prefix = chars_of("project:");
        if starts_with(&cs, &prefix) {
            EditTarget::Project { name: string_of(&slice_chars(&cs, 8, cs.len())), explicit: true }
        } else {
            EditTarget::Project { name: String::from_str(target), explicit: false }
        }
    }
}

impl EditTarget {
    /// The file to open, given whether the project's list exists (for a
    /// project target): a missing project named `project:NAME` is a missing
    /// project; any other missing one is an unknown target, named by
    /// `target` as given.
    pub fn file_to_open(self, target: &str, project_exists: bool) -> (r: Result<
        Vec<String>,
        GtdError,
    >)
        ensures
            match self {
                EditTarget::File(f) => r == Ok::<Vec<String>, GtdError>(f),
                EditTarget::Project { name, explicit } => if project_exists {
                    r matches Ok(p) && segments(p@) == seq!["projects"@, name@, "tasks.md"@]
                } else if explicit {
                    r matches Err(GtdError::ProjectMissing(n)) && n@ == name@
                } else {
                    r matches Err(GtdError::UnknownTarget(t)) && t@ == target@
                },
            },
    {
        match self {
            EditTarget::File(f) => Ok(f),
            EditTarget::Project { name, explicit } => {
                if project_exists {
                    Ok(project_tasks_file(name.as_str()))
                } else if explicit {
                    Err(GtdError::ProjectMissing(name))
                } else {
                    Err(GtdError::UnknownTarget(String::from_str(target)))
                }
            },
        }
    }
}

} // verus!
