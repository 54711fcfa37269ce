//! `gtd project`: the counts a project is listed with, and the question
//! asked before deleting it.
use vstd::prelude::*;
use vstd::string::StringExecFns;
use crate::commands::list::{count_open, open_count};
use crate::markdown::Task;
use crate::text::{decimal, push_decimal, push_str};

verus! {

broadcast use vstd::string::group_string_axioms;

/// A project's open and done tasks, counted.
pub fn task_counts(tasks: &[Task]) -> (r: (usize, usize))
    ensures
        r.0 == open_count(tasks@),
        r.1 == tasks@.len() - open_count(tasks@),
{
    let open = count_open(tasks);
    proof {
        crate::commands::list::lemma_open_count_bound(tasks@);
    }
    (open, tasks.len() - open)
}

/// The question asked before a project with open tasks is deleted.
pub fn delete_question(name: &str, open: usize) -> (s: String)
    ensures
        s@ == "Project '"@ + name@ + "' has "@ + decimal(open as nat) + " open tasks. Archive and delete?"@,
{
    let mut s = String::from_str("Project '");
    push_str(&mut s, name);
    push_str(&mut s, "' has ");
    push_decimal(&mut s, open as u64);
    push_str(&mut s, " open tasks. Archive and delete?");
    s
}

} // verus!
