//! `gtd done`: a task ticked and archived.
use vstd::prelude::*;
use crate::gtd::{project_tasks_file, segments, someday_maybe_file, tasks_file, waiting_for_file};
use crate::markdown::Task;

verus! {

/// The task as it goes to the archive: ticked, all else kept.
pub fn completed(task: Task) -> (t: Task)
    ensures
        t.done,
        t.meta == task.meta,
        t.description == task.description,
{
    let mut t = task;
    t.done = true;
    t
}

/// The task lists the id of a task is looked for in: next actions, waiting
/// for, someday/maybe, then each project's list in the order given.
pub fn collect_all_task_files(projects: &[String]) -> (fs: Vec<Vec<String>>)
    ensures
        fs@.len() == 3 + projects@.len(),
        segments(fs@[0]@) == seq!["tasks.md"@],
        segments(fs@[1]@) == seq!["waiting-for.md"@],
        segments(fs@[2]@) == seq!["someday-maybe.md"@],
        forall|i: int|
            0 <= i < projects@.len() ==> segments(#[trigger] fs@[3 + i]@) == seq![
                "projects"@,
                projects@[i]@,
                "tasks.md"@,
            ],
{
    let mut fs = Vec::new();
    fs.push(tasks_file());
    fs.push(waiting_for_file());
    fs.push(someday_maybe_file());
    let mut i: usize = 0;
    while i < projects.len()
        invariant
            i <= projects@.len(),
            fs@.len() == 3 + i,
            segments(fs@[0]@) == seq!["tasks.md"@],
            segments(fs@[1]@) == seq!["waiting-for.md"@],
            segments(fs@[2]@) == seq!["someday-maybe.md"@],
            forall|k: int|
                0 <= k < i ==> segments(#[trigger] fs@[3 + k]@) == seq![
                    "projects"@,
                    projects@[k]@,
                    "tasks.md"@,
                ],
        decreases projects@.len() - i,
    {
        fs.push(project_tasks_file(projects[i].as_str()));
        i = i + 1;
    }
    fs
}

} // verus!
