//! `gtd add`: a task straight onto a list.
use vstd::prelude::*;
use vstd::string::StringExecFns;
use crate::date::{date_of_parse, parse_date, parsed_ymd, Date};
use crate::error::GtdError;
use crate::gtd::{
    project_tasks_file, segments, someday_maybe_file, tasks_file, waiting_for_file,
};
use crate::markdown::{is_hex_digit, Task};
use crate::text::{push_str, trim_str, trimmed};

verus! {

broadcast use vstd::string::group_string_axioms;

/// The list a new task goes to.
#[derive(Debug, PartialEq, Eq)]
pub enum AddTarget {
    Project(String),
    WaitingFor,
    SomedayMaybe,
    NextActions,
}

impl AddTarget {
    /// The list chosen by the options of `gtd add`: a project where one is
    /// named, else waiting-for, else someday/maybe, else next actions.
    pub fn from_options(waiting: bool, someday: bool, project: Option<&str>) -> (t: AddTarget)
        ensures
            project matches Some(p) ==> t matches AddTarget::Project(q) && q@ == p@,
            project is None && waiting ==> t == AddTarget::WaitingFor,
            project is None && !waiting && someday ==> t == AddTarget::SomedayMaybe,
            project is None && !waiting && !someday ==> t == AddTarget::NextActions,
    {
        match project {
            Some(p) => AddTarget::Project(String::from_str(p)),
            None => if waiting {
                AddTarget::WaitingFor
            } else if someday {
                AddTarget::SomedayMaybe
            } else {
                AddTarget::NextActions
            },
        }
    }

    /// The file of this list.
    pub fn file(&self) -> (p: Vec<String>)
        ensures
            segments(p@) == match *self {
                AddTarget::Project(n) => seq!["projects"@, n@, "tasks.md"@],
                AddTarget::WaitingFor => seq!["waiting-for.md"@],
                AddTarget::SomedayMaybe => seq!["someday-maybe.md"@],
                AddTarget::NextActions => seq!["tasks.md"@],
            },
    {
        match self {
            AddTarget::Project(n) => project_tasks_file(n.as_str()),
            AddTarget::WaitingFor => waiting_for_file(),
            AddTarget::SomedayMaybe => someday_maybe_file(),
            AddTarget::NextActions => tasks_file(),
        }
    }

    /// The name of this list in the confirmation: `project:NAME`,
    /// `waiting-for`, `someday/maybe` or `next-actions`.
    pub fn list_name(&self) -> (s: String)
        ensures
            s@ == match *self {
                AddTarget::Project(n) => "project:"@ + n@,
                AddTarget::WaitingFor => "waiting-for"@,
                AddTarget::SomedayMaybe => "someday/maybe"@,
                AddTarget::NextActions => "next-actions"@,
            },
    {
        match self {
            AddTarget::Project(n) => {
                let mut s = String::from_str("project:");
                push_str(&mut s, n.as_str());
                s
            },
            AddTarget::WaitingFor => String::from_str("waiting-for"),
            AddTarget::SomedayMaybe => String::from_str("someday/maybe"),
            AddTarget::NextActions => String::from_str("next-actions"),
        }
    }
}

/// A task to add and the list it goes to.
pub struct AddPlan {
    pub task: Task,
    pub target: AddTarget,
}

/// The task that `gtd add` makes and where it goes, given the description,
/// the due date as read (`None` when no due date was given, `Some(None)`
/// when one was given that does not read as a date) and the options. The
/// description is trimmed; an empty one is refused first, then a due date
/// that does not read.
pub fn plan_with_due(
    description: &str,
    due: Option<Option<Date>>,
    delegated_to: Option<&str>,
    target: AddTarget,
) -> (r: Result<AddPlan, GtdError>)
    ensures
        trimmed(description@).len() == 0 ==> r == Err::<AddPlan, GtdError>(GtdError::EmptyDescription),
        trimmed(description@).len() > 0 && due == Some(None::<Date>) ==> r == Err::<AddPlan, GtdError>(
            GtdError::InvalidDate,
        ),
        trimmed(description@).len() > 0 && due != Some(None::<Date>) ==> (r matches Ok(plan) && {
            let m = plan.task.meta;
            &&& plan.task.description@ == trimmed(description@)
            &&& !plan.task.done
            &&& m.id@.len() == 8
            &&& forall|i: int| 0 <= i < 8 ==> is_hex_digit(#[trigger] m.id@[i])
            &&& 1 <= m.created.month <= 12
            &&& 1 <= m.created.day <= 31
            &&& !m.reminder
            &&& !m.in_calendar
            &&& m.due == match due {
                Some(d) => d,
                None => None,
            }
            &&& match delegated_to {
                Some(p) => m.delegated_to matches Some(q) && q@ == p@,
                None => m.delegated_to is None,
            }
            &&& plan.target == target
        }),
{
    let desc = trim_str(description);
    if desc.as_str().is_empty() {
        return Err(GtdError::EmptyDescription);
    }
    let mut task = Task::new(desc);
    match due {
        Some(Some(d)) => {
            task.meta.due = Some(d);
        },
        Some(None) => {
            return Err(GtdError::InvalidDate);
        },
        None => {},
    }
    match delegated_to {
        Some(p) => {
            task.meta.delegated_to = Some(String::from_str(p));
        },
        None => {},
    }
    Ok(AddPlan { task, target })
}

/// The task that `gtd add` makes and where it goes: `plan_with_due` with the
/// due date read by chrono as `YYYY-MM-DD`.
pub fn plan(
    description: &str,
    due: Option<&str>,
    delegated_to: Option<&str>,
    waiting: bool,
    someday: bool,
    project: Option<&str>,
) -> (r: Result<AddPlan, GtdError>)
    ensures
        trimmed(description@).len() == 0 ==> r == Err::<AddPlan, GtdError>(GtdError::EmptyDescription),
        trimmed(description@).len() > 0 && (due matches Some(t) && parsed_ymd(t@) is None) ==> r
            == Err::<AddPlan, GtdError>(GtdError::InvalidDate),
        trimmed(description@).len() > 0 && !(due matches Some(t) && parsed_ymd(t@) is None) ==> (
        r matches Ok(plan) && {
            let m = plan.task.meta;
            &&& plan.task.description@ == trimmed(description@)
            &&& !plan.task.done
            &&& m.id@.len() == 8
            &&& forall|i: int| 0 <= i < 8 ==> is_hex_digit(#[trigger] m.id@[i])
            &&& 1 <= m.created.month <= 12
            &&& 1 <= m.created.day <= 31
            &&& !m.reminder
            &&& !m.in_calendar
            &&& m.due == match due {
                Some(t) => date_of_parse(parsed_ymd(t@)),
                None => None,
            }
            &&& match delegated_to {
                Some(p) => m.delegated_to matches Some(q) && q@ == p@,
                None => m.delegated_to is None,
            }
            &&& match project {
                Some(p) => plan.target matches AddTarget::Project(q) && q@ == p@,
                None => if waiting {
                    plan.target == AddTarget::WaitingFor
                } else if someday {
                    plan.target == AddTarget::SomedayMaybe
                } else {
                    plan.target == AddTarget::NextActions
                },
            }
        }),
{
    let target = AddTarget::from_options(waiting, someday, project);
    let parsed = match due {
        Some(t) => Some(parse_date(t)),
        None => None,
    };
    plan_with_due(description, parsed, delegated_to, target)
}

} // verus!
