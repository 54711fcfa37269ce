//! `gtd list`: which tasks are shown, and how a due date reads.
use vstd::prelude::*;
use vstd::string::StringExecFns;
use crate::date::{date_text, is_before, today, Date};
use crate::gtd::{archive_file, segments, someday_maybe_file, tasks_file, waiting_for_file};
use crate::markdown::Task;
use crate::text::{chars_of, has_prefix, push_str, slice_chars, starts_with, str_eq, string_of};

verus! {

broadcast use vstd::string::group_string_axioms;

/// What a filter of `gtd list` shows.
pub enum ListView {
    /// The tasks of a list file under a title, done ones too where `show_all`.
    File { title: String, file: Vec<String>, show_all: bool },
    /// The in-tray.
    InTray,
    /// Every list, and the projects with their open tasks.
    All,
    /// A project's list: named as `project:NAME` (`explicit`), or a filter
    /// that is no list's name, tried as a project's name.
    Project { name: String, explicit: bool },
}

/// The view a filter names.
pub open spec fn is_file_view(
    v: ListView,
    title: Seq<char>,
    file: Seq<Seq<char>>,
    show_all: bool,
) -> bool {
    v matches ListView::File { title: t, file: f, show_all: s } && t@ == title && segments(f@)
        == file && s == show_all
}

/// `filter` is one of the names of a list.
pub open spec fn is_list_name(f: Seq<char>) -> bool {
    f == "next"@ || f == "tasks"@ || f == "waiting"@ || f == "waiting-for"@ || f == "someday"@
        || f == "someday-maybe"@ || f == "archive"@ || f == "intray"@ || f == "inbox"@ || f
        == "all"@
}

/// What `gtd list FILTER` shows.
pub fn resolve_filter(filter: &str, show_all: bool) -> (v: ListView)
    ensures
        (filter@ == "next"@ || filter@ == "tasks"@) ==> is_file_view(
            v,
            "Next Actions"@,
            seq!["tasks.md"@],
            show_all,
        ),
        (filter@ == "waiting"@ || filter@ == "waiting-for"@) ==> is_file_view(
            v,
            "Waiting For"@,
            seq!["waiting-for.md"@],
            show_all,
        ),
        (filter@ == "someday"@ || filter@ == "someday-maybe"@) ==> is_file_view(
            v,
            "Someday / Maybe"@,
            seq!["someday-maybe.md"@],
            show_all,
        ),
        filter@ == "archive"@ ==> is_file_view(v, "Archive"@, seq!["archive.md"@], true),
        (filter@ == "intray"@ || filter@ == "inbox"@) ==> v is InTray,
        filter@ == "all"@ ==> v is All,
        !is_list_name(filter@) && has_prefix(filter@, "project:"@) ==> (v matches ListView::Project {
            name,
            explicit,
        } && explicit && name@ == filter@.skip(8)),
        !is_list_name(filter@) && !has_prefix(filter@, "project:"@) ==> (v matches ListView::Project {
            name,
            explicit,
        } && !explicit && name@ == filter@),
{
    proof {
        reveal_strlit("next");
        reveal_strlit("tasks");
        reveal_strlit("waiting");
        reveal_strlit("waiting-for");
        reveal_strlit("someday");
        reveal_strlit("someday-maybe");
        reveal_strlit("archive");
        reveal_strlit("intray");
        reveal_strlit("inbox");
        reveal_strlit("all");
        assert("waiting"@.len() == 7 && "waiting-for"@.len() == 11 && "someday"@.len() == 7);
        assert("someday-maybe"@.len() == 13 && "next"@.len() == 4 && "tasks"@.len() == 5);
        assert("archive"@.len() == 7 && "intray"@.len() == 6 && "inbox"@.len() == 5);
        assert("all"@.len() == 3);
        assert("waiting"@[0] == 'w' && "someday"@[0] == 's' && "archive"@[0] == 'a');
        assert("tasks"@[0] == 't' && "inbox"@[0] == 'i');
    }
    if str_eq(filter, "next") || str_eq(filter, "tasks") {
        ListView::File { title: String::from_str("Next Actions"), file: tasks_file(), show_all }
    } else if str_eq(filter, "waiting") || str_eq(filter, "waiting-for") {
        ListView::File {
            title: String::from_str("Waiting For"),
            file: waiting_for_file(),
            show_all,
        }
    } else if str_eq(filter, "someday") || str_eq(filter, "someday-maybe") {
        ListView::File {
            title: String::from_str("Someday / Maybe"),
            file: someday_maybe_file(),
            show_all,
        }
    } else if str_eq(filter, "archive") {
        ListView::File { title: String::from_str("Archive"), file: archive_file(), show_all: true }
    } else if str_eq(filter, "intray") || str_eq(filter, "inbox") {
        ListView::InTray
    } else if str_eq(filter, "all") {
        ListView::All
    } else {
        let cs = chars_of(filter);
        let prefix = chars_of("project:");
        proof {
            reveal_strlit("project:");
        }
        if starts_with(&cs, &prefix) {
            ListView::Project { name: string_of(&slice_chars(&cs, 8, cs.len())), explicit: true }
        } else {
            ListView::Project { name: String::from_str(filter), explicit: false }
        }
    }
}

/// The title a project's list is shown under: `Project: NAME`.
pub fn project_title(name: &str) -> (s: String)
    ensures
        s@ == "Project: "@ + name@,
{
    let mut s = String::from_str("Project: ");
    push_str(&mut s, name);
    s
}

/// The tasks of `tasks` that are shown: all where `show_all`, else the open ones.
pub open spec fn shown(tasks: Seq<Task>, show_all: bool) -> Seq<Task> {
    tasks.filter(|t: Task| show_all || !t.done)
}

/// The tasks that are shown, in their order.
pub fn visible_tasks(tasks: Vec<Task>, show_all: bool) -> (r: Vec<Task>)
    ensures
        r@ == shown(tasks@, show_all),
{
    let mut r: Vec<Task> = Vec::new();
    let mut i: usize = 0;
    while i < tasks.len()
        invariant
            i <= tasks@.len(),
            r@ == shown(tasks@.take(i as int), show_all),
        decreases tasks@.len() - i,
    {
        let ghost before = tasks@.take(i as int);
        assert(tasks@.take(i + 1).drop_last() == before);
        assert(tasks@.take(i + 1).last() == tasks@[i as int]);
        reveal_with_fuel(Seq::filter, 1);
        if show_all || !tasks[i].done {
            r.push(tasks[i].duplicate());
        }
        i = i + 1;
    }
    assert(tasks@.take(tasks@.len() as int) == tasks@);
    r
}

/// The number of open tasks.
pub open spec fn open_count(tasks: Seq<Task>) -> nat {
    shown(tasks, false).len()
}

/// The number of tasks not done.
pub fn count_open(tasks: &[Task]) -> (n: usize)
    ensures
        n == open_count(tasks@),
{
    let mut n: usize = 0;
    let mut i: usize = 0;
    while i < tasks.len()
        invariant
            i <= tasks@.len(),
            n == open_count(tasks@.take(i as int)),
            n <= i,
        decreases tasks@.len() - i,
    {
        let ghost before = tasks@.take(i as int);
        assert(tasks@.take(i + 1).drop_last() == before);
        assert(tasks@.take(i + 1).last() == tasks@[i as int]);
        reveal_with_fuel(Seq::filter, 1);
        if !tasks[i].done {
            n = n + 1;
        }
        i = i + 1;
    }
    assert(tasks@.take(tasks@.len() as int) == tasks@);
    n
}

/// No more tasks are open than there are tasks.
pub proof fn lemma_open_count_bound(tasks: Seq<Task>)
    ensures
        open_count(tasks) <= tasks.len(),
    decreases tasks.len(),
{
    reveal_with_fuel(Seq::filter, 1);
    if tasks.len() > 0 {
        lemma_open_count_bound(tasks.drop_last());
        assert(tasks.drop_last().push(tasks.last()) == tasks);
    }
}

/// With `show_all` every task is shown, done ones included, in the order
/// given (as for the archive, or `-a`).
pub proof fn law_show_all_shows_every_task(tasks: Seq<Task>)
    ensures
        shown(tasks, true) == tasks,
    decreases tasks.len(),
{
    reveal_with_fuel(Seq::filter, 1);
    if tasks.len() > 0 {
        law_show_all_shows_every_task(tasks.drop_last());
        assert(tasks.drop_last().push(tasks.last()) == tasks);
    }
}

/// Without `show_all` exactly the open tasks are shown: every task shown
/// is open, every open task is shown, and no more are shown than there are
/// tasks.
pub proof fn law_open_tasks_are_shown(tasks: Seq<Task>)
    ensures
        forall|k: int| 0 <= k < shown(tasks, false).len() ==> !(#[trigger] shown(tasks, false)[k]).done,
        forall|i: int| 0 <= i < tasks.len() && !tasks[i].done ==> shown(tasks, false).contains(
            #[trigger] tasks[i],
        ),
        shown(tasks, false).len() <= tasks.len(),
    decreases tasks.len(),
{
    reveal_with_fuel(Seq::filter, 1);
    if tasks.len() > 0 {
        let rest = tasks.drop_last();
        law_open_tasks_are_shown(rest);
        let r = shown(rest, false);
        assert forall|i: int| 0 <= i < tasks.len() && !tasks[i].done implies shown(
            tasks,
            false,
        ).contains(#[trigger] tasks[i]) by {
            if i < tasks.len() - 1 {
                assert(rest[i] == tasks[i]);
                let w = choose|w: int| 0 <= w < r.len() && r[w] == rest[i];
                assert(shown(tasks, false)[w] == r[w]);
            } else {
                assert(shown(tasks, false)[r.len() as int] == tasks[i]);
            }
        }
        assert forall|k: int| 0 <= k < shown(tasks, false).len() implies !(
        #[trigger] shown(tasks, false)[k]).done by {
            if k < r.len() {
                assert(shown(tasks, false)[k] == r[k]);
            }
        }
    }
}

/// How a due date stands to today.
#[derive(Clone, Copy, Debug, PartialEq, Eq, Structural)]
pub enum DueStatus {
    Overdue,
    Today,
    Upcoming,
}

/// How a due date stands to `today`, and the text it is listed with:
/// ` OVERDUE:DATE`, ` due:TODAY` or ` due:DATE`.
pub open spec fn due_label_of(due: Date, today: Date) -> (DueStatus, Seq<char>) {
    if is_before(due, today) {
        (DueStatus::Overdue, " OVERDUE:"@ + date_text(due))
    } else if due == today {
        (DueStatus::Today, " due:TODAY"@)
    } else {
        (DueStatus::Upcoming, " due:"@ + date_text(due))
    }
}

/// How a due date stands to `today`, and the text it is listed with (see
/// [`due_label_of`]).
pub fn due_label(due: &Date, today: &Date) -> (r: (DueStatus, String))
    ensures
        r.0 == due_label_of(*due, *today).0,
        r.1@ == due_label_of(*due, *today).1,
{
    if due.before(today) {
        let mut s = String::from_str(" OVERDUE:");
        due.push_text(&mut s);
        (DueStatus::Overdue, s)
    } else if due.year == today.year && due.month == today.month && due.day == today.day {
        (DueStatus::Today, String::from_str(" due:TODAY"))
    } else {
        let mut s = String::from_str(" due:");
        due.push_text(&mut s);
        (DueStatus::Upcoming, s)
    }
}

/// A due date is overdue exactly when it comes before today in calendar
/// order (year, then month, then day), due today exactly when it is today,
/// and later otherwise; what is overdue seen from today is upcoming seen the
/// other way round. The label names the date, or `TODAY`.
pub proof fn law_due_status_follows_the_calendar(due: Date, today: Date)
    ensures
        (due_label_of(due, today).0 == DueStatus::Overdue) <==> (due.year < today.year || (due.year
            == today.year && (due.month < today.month || (due.month == today.month && due.day
            < today.day)))),
        (due_label_of(due, today).0 == DueStatus::Today) <==> due == today,
        (due_label_of(due, today).0 == DueStatus::Overdue) <==> (due_label_of(today, due).0
            == DueStatus::Upcoming),
        due_label_of(due, today).0 == DueStatus::Overdue ==> due_label_of(due, today).1
            == " OVERDUE:"@ + date_text(due),
        due_label_of(due, today).0 == DueStatus::Today ==> due_label_of(due, today).1
            == " due:TODAY"@,
        due_label_of(due, today).0 == DueStatus::Upcoming ==> due_label_of(due, today).1 == " due:"@
            + date_text(due),
{
}

/// How a part of a listed task line is coloured.
#[derive(Clone, Copy, Debug, PartialEq, Eq, Structural)]
pub enum Style {
    Plain,
    Green,
    Dimmed,
    RedBold,
    YellowBold,
    Blue,
    Magenta,
    Cyan,
}

/// The colour of a due label: red and bold when overdue, yellow and bold
/// when due today, dimmed later.
pub open spec fn due_style(status: DueStatus) -> Style {
    match status {
        DueStatus::Overdue => Style::RedBold,
        DueStatus::Today => Style::YellowBold,
        DueStatus::Upcoming => Style::Dimmed,
    }
}

/// The parts of the line a task is listed with on `today`, each with its
/// colour: `  `, the checkbox (`[x]` green, `[ ]` plain), the description,
/// the id in brackets (dimmed), the due label where there is a due date
/// (see [`due_label_of`]), `[-> PERSON]` in blue where it is delegated,
/// then ` [R]` in magenta for a reminder and ` [C]` in cyan for a calendar
/// entry.
pub open spec fn task_line_of(task: Task, today: Date) -> Seq<(Seq<char>, Style)> {
    let checkbox = if task.done {
        ("[x]"@, Style::Green)
    } else {
        ("[ ]"@, Style::Plain)
    };
    let head = seq![
        ("  "@, Style::Plain),
        checkbox,
        (" "@, Style::Plain),
        (task.description@, Style::Plain),
        (" "@, Style::Plain),
        ("("@ + task.meta.id@ + ")"@, Style::Dimmed),
    ];
    let due = match task.meta.due {
        Some(d) => seq![(due_label_of(d, today).1, due_style(due_label_of(d, today).0))],
        None => seq![],
    };
    let delegate = match task.meta.delegated_to {
        Some(p) => seq![(" "@, Style::Plain), ("[-> "@ + p@ + "]"@, Style::Blue)],
        None => seq![],
    };
    let reminder = if task.meta.reminder {
        seq![(" [R]"@, Style::Magenta)]
    } else {
        seq![]
    };
    let calendar = if task.meta.in_calendar {
        seq![(" [C]"@, Style::Cyan)]
    } else {
        seq![]
    };
    head + due + delegate + reminder + calendar
}

/// A listed line holds, in order: the checkbox (`[x]` in green for a done
/// task, `[ ]` plain for an open one), the description, the id in brackets
/// dimmed, then one part for the due label coloured by how the date stands
/// to today, two for the delegate (the last `[-> PERSON]` in blue), and
/// one each for the reminder and calendar marks, each only where the task
/// has it.
pub proof fn law_task_line_parts(task: Task, today: Date)
    ensures
        ({
            let parts = task_line_of(task, today);
            let extra = (if task.meta.due is Some { 1int } else { 0int }) + (if task.meta.delegated_to
                is Some { 2int } else { 0int }) + (if task.meta.reminder { 1int } else { 0int }) + (
            if task.meta.in_calendar { 1int } else { 0int });
            &&& parts.len() == 6 + extra
            &&& parts[1] == (if task.done { ("[x]"@, Style::Green) } else { ("[ ]"@, Style::Plain) })
            &&& parts[3] == (task.description@, Style::Plain)
            &&& parts[5] == ("("@ + task.meta.id@ + ")"@, Style::Dimmed)
            &&& task.meta.due matches Some(d) ==> parts[6] == (due_label_of(d, today).1, due_style(
                due_label_of(d, today).0,
            ))
            &&& task.meta.delegated_to matches Some(p) ==> parts[(if task.meta.due is Some { 8int } else { 7int })]
                == ("[-> "@ + p@ + "]"@, Style::Blue)
            &&& task.meta.in_calendar ==> parts.last() == (" [C]"@, Style::Cyan)
            &&& task.meta.reminder && !task.meta.in_calendar ==> parts.last() == (" [R]"@, Style::Magenta)
        }),
{
}

/// The text and colour of each part of a line.
pub open spec fn part_views(parts: Seq<(String, Style)>) -> Seq<(Seq<char>, Style)> {
    parts.map_values(|p: (String, Style)| (p.0@, p.1))
}

/// Appends a part to a line.
fn push_part(parts: &mut Vec<(String, Style)>, text: String, style: Style)
    ensures
        part_views(final(parts)@) == part_views(old(parts)@).push((text@, style)),
{
    let ghost before = parts@;
    parts.push((text, style));
    assert(part_views(parts@) =~= part_views(before).push((text@, style)));
}

/// The parts of the line a task is listed with on `today` (see
/// [`task_line_of`]).
pub fn task_line(task: &Task, today: &Date) -> (parts: Vec<(String, Style)>)
    ensures
        part_views(parts@) == task_line_of(*task, *today),
{
    let mut parts: Vec<(String, Style)> = Vec::new();
    push_part(&mut parts, String::from_str("  "), Style::Plain);
    if task.done {
        push_part(&mut parts, String::from_str("[x]"), Style::Green);
    } else {
        push_part(&mut parts, String::from_str("[ ]"), Style::Plain);
    }
    push_part(&mut parts, String::from_str(" "), Style::Plain);
    push_part(&mut parts, task.description.clone(), Style::Plain);
    push_part(&mut parts, String::from_str(" "), Style::Plain);
    let mut id = String::from_str("(");
    push_str(&mut id, task.meta.id.as_str());
    push_str(&mut id, ")");
    push_part(&mut parts, id, Style::Dimmed);
    match &task.meta.due {
        Some(d) => {
            let (status, text) = due_label(d, today);
            let style = match status {
                DueStatus::Overdue => Style::RedBold,
                DueStatus::Today => Style::YellowBold,
                DueStatus::Upcoming => Style::Dimmed,
            };
            push_part(&mut parts, text, style);
        },
        None => {},
    }
    match &task.meta.delegated_to {
        Some(p) => {
            push_part(&mut parts, String::from_str(" "), Style::Plain);
            let mut who = String::from_str("[-> ");
            push_str(&mut who, p.as_str());
            push_str(&mut who, "]");
            push_part(&mut parts, who, Style::Blue);
        },
        None => {},
    }
    if task.meta.reminder {
        push_part(&mut parts, String::from_str(" [R]"), Style::Magenta);
    }
    if task.meta.in_calendar {
        push_part(&mut parts, String::from_str(" [C]"), Style::Cyan);
    }
    parts
}

/// The parts of the line a task is listed with today, the local date (see
/// [`task_line_of`]); which day today is comes from the clock.
pub fn task_line_today(task: &Task) -> (parts: Vec<(String, Style)>)
    ensures
        exists|t: Date|
            1 <= t.month <= 12 && 1 <= t.day <= 31 && part_views(parts@) == #[trigger] task_line_of(
                *task,
                t,
            ),
{
    let t = today();
    task_line(task, &t)
}

} // verus!
