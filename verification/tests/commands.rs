use gtd::commands::add::{plan, AddTarget};
use gtd::commands::capture::capture_item;
use gtd::commands::done::{collect_all_task_files, completed};
use gtd::commands::edit::{resolve_target, EditTarget};
use gtd::commands::list::{
    count_open, due_label, project_title, resolve_filter, task_line, visible_tasks, DueStatus,
    ListView, Style,
};
use gtd::commands::process::{
    decide, destinations, file_item, intray_after, outcome_of, ItemAction, Outcome,
    Prompt, Step,
};
use gtd::commands::project::{delete_question, task_counts};
use gtd::commands::review::{format_count, project_status, CountStyle};
use gtd::commands::search::{
    highlight_match, mark_match, numbered_hits, query_compiles, search_query, search_text,
};
use gtd::commands::add::plan_with_due;
use gtd::date::Date;
use gtd::error::GtdError;
use gtd::markdown::{parse_tasks_from_str, Task, TaskMeta};

fn words(v: &[&str]) -> Vec<String> {
    v.iter().map(|s| s.to_string()).collect()
}

#[test]
fn add_plans_a_task() {
    let p = plan("  Write report ", Some("2026-04-01"), Some("Ann"), false, false, None).unwrap();
    assert_eq!(p.task.description, "Write report");
    assert_eq!(p.task.meta.due, Some(Date { year: 2026, month: 4, day: 1 }));
    assert_eq!(p.task.meta.delegated_to.as_deref(), Some("Ann"));
    assert_eq!(p.target, AddTarget::NextActions);
    assert_eq!(p.target.list_name(), "next-actions");
    let p = plan("x", None, None, true, true, Some("home")).unwrap();
    assert_eq!(p.target, AddTarget::Project("home".to_string()));
    assert_eq!(p.target.list_name(), "project:home");
    assert_eq!(p.target.file(), words(&["projects", "home", "tasks.md"]));
    assert_eq!(plan("x", None, None, true, true, None).unwrap().target, AddTarget::WaitingFor);
    let s = plan("x", None, None, false, true, None).unwrap().target;
    assert_eq!(s, AddTarget::SomedayMaybe);
    assert_eq!(s.list_name(), "someday/maybe");
    assert_eq!(s.file(), words(&["someday-maybe.md"]));
}

#[test]
fn add_refuses_bad_input() {
    assert_eq!(plan("   ", None, None, false, false, None).err(), Some(GtdError::EmptyDescription));
    assert_eq!(plan("   ", Some("bad"), None, false, false, None).err(), Some(GtdError::EmptyDescription));
    assert_eq!(plan("ok", Some("01/02/2026"), None, false, false, None).err(), Some(GtdError::InvalidDate));
}

#[test]
fn capture_trims() {
    assert_eq!(capture_item("  idea  "), Some("idea".to_string()));
    assert_eq!(capture_item(" \t "), None);
}

#[test]
fn list_filters() {
    match resolve_filter("tasks", false) {
        ListView::File { title, file, show_all } => {
            assert_eq!(title, "Next Actions");
            assert_eq!(file, words(&["tasks.md"]));
            assert!(!show_all);
        }
        _ => panic!("expected a file view"),
    }
    match resolve_filter("archive", false) {
        ListView::File { title, show_all, .. } => {
            assert_eq!(title, "Archive");
            assert!(show_all);
        }
        _ => panic!("expected a file view"),
    }
    match resolve_filter("someday-maybe", true) {
        ListView::File { title, .. } => assert_eq!(title, "Someday / Maybe"),
        _ => panic!("expected a file view"),
    }
    assert!(matches!(resolve_filter("inbox", false), ListView::InTray));
    assert!(matches!(resolve_filter("all", false), ListView::All));
    match resolve_filter("project:garden", false) {
        ListView::Project { name, explicit } => {
            assert_eq!(name, "garden");
            assert!(explicit);
        }
        _ => panic!("expected a project"),
    }
    match resolve_filter("garden", false) {
        ListView::Project { name, explicit } => {
            assert_eq!(name, "garden");
            assert!(!explicit);
        }
        _ => panic!("expected a project"),
    }
    assert_eq!(project_title("garden"), "Project: garden");
}

#[test]
fn shown_tasks_and_counts() {
    let content = "# T\n- [ ] a\n- [x] b\n- [ ] c\n";
    let tasks: Vec<Task> =
        parse_tasks_from_str(content).into_iter().map(|b| Task::from_block(b, None)).collect();
    assert_eq!(count_open(&tasks), 2);
    assert_eq!(task_counts(&tasks), (2, 1));
    let open: Vec<String> =
        visible_tasks(tasks, false).into_iter().map(|t| t.description).collect();
    assert_eq!(open, words(&["a", "c"]));
    assert_eq!(delete_question("home", 2), "Project 'home' has 2 open tasks. Archive and delete?");
}

#[test]
fn due_labels() {
    let today = Date { year: 2026, month: 2, day: 23 };
    let (s, t) = due_label(&Date { year: 2026, month: 2, day: 1 }, &today);
    assert_eq!(s, DueStatus::Overdue);
    assert_eq!(t, " OVERDUE:2026-02-01");
    assert_eq!(due_label(&today, &today), (DueStatus::Today, " due:TODAY".to_string()));
    let (s, t) = due_label(&Date { year: 2027, month: 1, day: 1 }, &today);
    assert_eq!(s, DueStatus::Upcoming);
    assert_eq!(t, " due:2027-01-01");
}

fn line_task(due: Option<Date>, delegated_to: Option<&str>, done: bool) -> Task {
    Task {
        meta: TaskMeta {
            id: "ab12cd34".to_string(),
            created: Date { year: 2026, month: 2, day: 1 },
            due,
            delegated_to: delegated_to.map(|p| p.to_string()),
            reminder: true,
            in_calendar: true,
        },
        description: "Call Ann".to_string(),
        done,
    }
}

#[test]
fn task_lines_are_split_into_coloured_parts() {
    let today = Date { year: 2026, month: 2, day: 23 };
    let t = line_task(Some(Date { year: 2026, month: 2, day: 1 }), Some("Bob"), false);
    let parts = task_line(&t, &today);
    let expected: Vec<(String, Style)> = vec![
        ("  ".to_string(), Style::Plain),
        ("[ ]".to_string(), Style::Plain),
        (" ".to_string(), Style::Plain),
        ("Call Ann".to_string(), Style::Plain),
        (" ".to_string(), Style::Plain),
        ("(ab12cd34)".to_string(), Style::Dimmed),
        (" OVERDUE:2026-02-01".to_string(), Style::RedBold),
        (" ".to_string(), Style::Plain),
        ("[-> Bob]".to_string(), Style::Blue),
        (" [R]".to_string(), Style::Magenta),
        (" [C]".to_string(), Style::Cyan),
    ];
    assert_eq!(parts, expected);
    let done_today = line_task(Some(today), None, true);
    let parts = task_line(&done_today, &today);
    assert_eq!(parts[1], ("[x]".to_string(), Style::Green));
    assert_eq!(parts[6], (" due:TODAY".to_string(), Style::YellowBold));
    assert_eq!(parts.len(), 9);
    let mut plain = line_task(Some(Date { year: 2027, month: 1, day: 1 }), None, false);
    plain.meta.reminder = false;
    plain.meta.in_calendar = false;
    let parts = task_line(&plain, &today);
    assert_eq!(parts.len(), 7);
    assert_eq!(parts[6], (" due:2027-01-01".to_string(), Style::Dimmed));
    let text: String = parts.into_iter().map(|(s, _)| s).collect();
    assert_eq!(text, "  [ ] Call Ann (ab12cd34) due:2027-01-01");
}

#[test]
fn edit_targets() {
    match resolve_target("inbox") {
        EditTarget::File(f) => assert_eq!(f, words(&["in-tray", "inbox.md"])),
        _ => panic!("expected a file"),
    }
    let t = resolve_target("project:garden");
    assert_eq!(
        resolve_target("project:garden").file_to_open("project:garden", true),
        Ok(words(&["projects", "garden", "tasks.md"]))
    );
    assert_eq!(
        t.file_to_open("project:garden", false),
        Err(GtdError::ProjectMissing("garden".to_string()))
    );
    assert_eq!(
        resolve_target("nope").file_to_open("nope", false),
        Err(GtdError::UnknownTarget("nope".to_string()))
    );
}

#[test]
fn done_looks_everywhere() {
    let files = collect_all_task_files(&words(&["a", "b"]));
    assert_eq!(files.len(), 5);
    assert_eq!(files[0], words(&["tasks.md"]));
    assert_eq!(files[4], words(&["projects", "b", "tasks.md"]));
    let t = completed(Task::new("x".to_string()));
    assert!(t.done);
}

#[test]
fn process_decision_tree() {
    assert_eq!(decide(Prompt::Actionable, 0, 0), Step::Ask(Prompt::TwoMinute));
    assert_eq!(decide(Prompt::Actionable, 1, 0), Step::Ask(Prompt::NotActionable));
    assert_eq!(decide(Prompt::Actionable, 2, 0), Step::Finish(ItemAction::Skip));
    assert_eq!(decide(Prompt::Actionable, 3, 0), Step::Finish(ItemAction::Quit));
    assert_eq!(decide(Prompt::NotActionable, 1, 0), Step::Finish(ItemAction::SomedayMaybe));
    assert_eq!(decide(Prompt::TwoMinute, 0, 0), Step::Finish(ItemAction::DoneNow));
    assert_eq!(decide(Prompt::TwoMinute, 1, 0), Step::Ask(Prompt::Delegate));
    assert_eq!(decide(Prompt::Delegate, 1, 0), Step::Ask(Prompt::Destination));
    assert_eq!(decide(Prompt::Destination, 2, 2), Step::Finish(ItemAction::Project(1)));
    assert_eq!(decide(Prompt::Destination, 3, 2), Step::Finish(ItemAction::Nothing));
    assert_eq!(outcome_of(ItemAction::Trash), Outcome::Done);
    assert_eq!(outcome_of(ItemAction::Skip), Outcome::Skip);
    assert_eq!(outcome_of(ItemAction::Quit), Outcome::Quit);
    assert_eq!(destinations(&words(&["home"])), words(&["Next Actions", "Project: home"]));
}

#[test]
fn process_files_items() {
    let projects = words(&["home"]);
    let f = file_item(ItemAction::DoneNow, "call", "", &projects).unwrap();
    assert!(f.task.done);
    assert_eq!(f.file, words(&["archive.md"]));
    let f = file_item(ItemAction::Delegate, "call", "Bob", &projects).unwrap();
    assert_eq!(f.task.meta.delegated_to.as_deref(), Some("Bob"));
    assert_eq!(f.file, words(&["waiting-for.md"]));
    let f = file_item(ItemAction::Project(0), "call", "", &projects).unwrap();
    assert_eq!(f.file, words(&["projects", "home", "tasks.md"]));
    assert!(file_item(ItemAction::Project(1), "call", "", &projects).is_none());
    assert!(file_item(ItemAction::Trash, "call", "", &projects).is_none());
}

#[test]
fn law_intray_reads_back_example() {
    let items = words(&["one", "two", "three"]);
    let text = intray_after(&items, &[Outcome::Done, Outcome::Quit]);
    assert_eq!(text, "# In-Tray\n- [ ] two\n- [ ] three\n");
    let back: Vec<String> =
        parse_tasks_from_str(&text).into_iter().map(|b| b.description).collect();
    assert_eq!(back, words(&["two", "three"]));
    assert_eq!(
        intray_after(&items, &[Outcome::Done, Outcome::Done, Outcome::Done]),
        "# In-Tray\n"
    );
}

#[test]
fn skipped_items_stay_in_the_intray() {
    let items = words(&["a", "b"]);
    // Skip "a", then stop at "b": both stay.
    let text = intray_after(&items, &[Outcome::Skip, Outcome::Quit]);
    assert_eq!(text, "# In-Tray\n- [ ] a\n- [ ] b\n");
    // Skip "a", deal with "b": only "a" stays.
    let text = intray_after(&items, &[Outcome::Skip, Outcome::Done]);
    assert_eq!(text, "# In-Tray\n- [ ] a\n");
    let back: Vec<String> =
        parse_tasks_from_str(&text).into_iter().map(|b| b.description).collect();
    assert_eq!(back, words(&["a"]));
    // Items not reached yet stay as well.
    let text = intray_after(&words(&["a", "b", "c"]), &[Outcome::Done]);
    assert_eq!(text, "# In-Tray\n- [ ] b\n- [ ] c\n");
    assert_eq!(intray_after(&[], &[]), "# In-Tray\n");
}

#[test]
fn review_labels() {
    assert_eq!(format_count(0, true), ("0 (inbox zero!)".to_string(), CountStyle::Good));
    assert_eq!(format_count(0, false), ("0".to_string(), CountStyle::Plain));
    assert_eq!(format_count(42, true), ("42".to_string(), CountStyle::Attention));
    assert_eq!(project_status(0), ("no next action!".to_string(), true));
    assert_eq!(project_status(3), ("3 open".to_string(), false));
}

#[test]
fn search_finds_lines() {
    assert_eq!(search_query(&words(&["  "])), None);
    assert_eq!(search_query(&words(&["buy", "milk"])), Some("buy milk".to_string()));
    assert!(query_compiles("a.b(c"));
    let hits = search_text("MILK", "# T\n- [ ] buy milk\nnothing\nMilk again\n").unwrap();
    let got: Vec<(usize, String)> = hits.into_iter().map(|h| (h.line_number, h.line)).collect();
    assert_eq!(got, vec![(2, "- [ ] buy milk".to_string()), (4, "Milk again".to_string())]);
    assert!(search_text("a.b", "axb\n").unwrap().is_empty());
}

#[test]
fn highlight_marks_the_match() {
    assert_eq!(
        highlight_match("Buy MILK today", "milk"),
        Some(("Buy ".to_string(), "MILK".to_string(), " today".to_string()))
    );
    assert_eq!(highlight_match("nothing here", "milk"), None);
    assert_eq!(
        highlight_match("café au lait", "AU"),
        Some(("café ".to_string(), "au".to_string(), " lait".to_string()))
    );
}

#[test]
fn law_walk_ends_example() {
    // Whatever is answered, at most four questions are asked.
    for a in 0..5 {
        for b in 0..3 {
            for c in 0..3 {
                for d in 0..4 {
                    let mut prompt = Prompt::Actionable;
                    let answers = [a, b, c, d, 0];
                    let mut asked = 0;
                    let finished = loop {
                        match decide(prompt, answers[asked], 2) {
                            Step::Ask(next) => {
                                prompt = next;
                                asked += 1;
                                assert!(asked < 4);
                            }
                            Step::Finish(action) => break action,
                        }
                    };
                    let _ = finished;
                }
            }
        }
    }
}

#[test]
fn hits_are_numbered_from_one() {
    let lines = words(&["a", "b", "c"]);
    let hits = numbered_hits(&lines, &[false, true, true]);
    let got: Vec<(usize, String)> = hits.into_iter().map(|h| (h.line_number, h.line)).collect();
    assert_eq!(got, vec![(2, "b".to_string()), (3, "c".to_string())]);
    assert!(numbered_hits(&[], &[]).is_empty());
}

#[test]
fn marks_use_byte_offsets_of_the_lowercase_line() {
    assert_eq!(
        mark_match("AbC", "b", "abc", "b"),
        Some(("A".to_string(), "b".to_string(), "C".to_string()))
    );
    // The lowercase line is longer in bytes than the line: the offset falls
    // inside a character of the line, which is then shown as it is.
    assert_eq!(mark_match("\u{130}x", "x", "i\u{307}x", "x"), None);
    assert_eq!(mark_match("abc", "z", "abc", "z"), None);
}

#[test]
fn plans_take_the_due_date_as_read() {
    let d = Date { year: 2030, month: 1, day: 2 };
    let p = plan_with_due("x", Some(Some(d)), None, AddTarget::NextActions).unwrap();
    assert_eq!(p.task.meta.due, Some(d));
    assert_eq!(
        plan_with_due("x", Some(None), None, AddTarget::NextActions).err(),
        Some(GtdError::InvalidDate)
    );
    assert_eq!(
        plan_with_due(" ", Some(None), None, AddTarget::NextActions).err(),
        Some(GtdError::EmptyDescription)
    );
}
