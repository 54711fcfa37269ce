use gtd::date::Date;
use gtd::markdown::{
    append_intray_item_text, append_task_text, parse_checkbox_line, parse_tasks_from_str,
    fresh_meta, read_header, remove_task_by_id, write_tasks_text, Task, TaskBlock, TaskMeta,
};

fn task(id: &str, description: &str, done: bool) -> Task {
    Task {
        meta: TaskMeta {
            id: id.to_string(),
            created: Date { year: 2026, month: 2, day: 23 },
            due: None,
            delegated_to: None,
            reminder: false,
            in_calendar: false,
        },
        description: description.to_string(),
        done,
    }
}

fn fm(id: &str) -> String {
    format!("id: {id}\ncreated: 2026-02-23\nreminder: false\nin_calendar: false\n")
}

#[test]
fn to_markdown_writes_the_block() {
    let t = task("abc12345", "Buy milk", false);
    assert_eq!(
        t.to_markdown("id: abc12345\n"),
        "<!-- id:abc12345 -->\n---\nid: abc12345\n---\n- [ ] Buy milk\n"
    );
    let t = task("abc12345", "Buy milk", true);
    assert_eq!(t.to_markdown(""), "<!-- id:abc12345 -->\n---\n---\n- [x] Buy milk\n");
}

#[test]
fn display_line_lists_due_and_delegate() {
    let mut t = task("abc12345", "Call Bob", false);
    assert_eq!(t.display_line(), "- [ ] Call Bob  (abc12345)");
    t.meta.due = Some(Date { year: 2026, month: 3, day: 1 });
    t.meta.delegated_to = Some("Alice".to_string());
    t.done = true;
    assert_eq!(t.display_line(), "- [x] Call Bob (due: 2026-03-01) [-> Alice]  (abc12345)");
}

#[test]
fn parse_reads_blocks_and_bare_items() {
    let content = "# Next Actions\n\n<!-- id:aaaa1111 -->\n---\nid: aaaa1111\ncreated: 2026-02-23\n---\n- [ ] First\n\n<!-- id:bbbb2222 -->\n---\n---\n- [x] Second  \n- [ ] bare item\n- [x] bare done\nplain text\n";
    let blocks = parse_tasks_from_str(content);
    assert_eq!(blocks.len(), 4);
    assert_eq!(blocks[0].id.as_deref(), Some("aaaa1111"));
    assert_eq!(blocks[0].frontmatter, "id: aaaa1111\ncreated: 2026-02-23");
    assert!(!blocks[0].done);
    assert_eq!(blocks[0].description, "First");
    assert_eq!(blocks[1].id.as_deref(), Some("bbbb2222"));
    assert_eq!(blocks[1].frontmatter, "");
    assert!(blocks[1].done);
    assert_eq!(blocks[1].description, "Second");
    assert_eq!(blocks[2].id, None);
    assert_eq!(blocks[2].description, "bare item");
    assert!(!blocks[2].done);
    assert!(blocks[3].done);
    assert_eq!(blocks[3].description, "bare done");
}

#[test]
fn parse_edge_cases() {
    // An id line not followed by a rule is passed over.
    let blocks = parse_tasks_from_str("<!-- id:x -->\n- [ ] loose\n");
    assert_eq!(blocks.len(), 1);
    assert_eq!(blocks[0].id, None);
    // A block without its closing rule is dropped.
    assert!(parse_tasks_from_str("<!-- id:x -->\n---\nid: x\n- [ ] never closed\n").is_empty());
    // A closing rule with no checkbox line after it is dropped.
    assert!(parse_tasks_from_str("<!-- id:x -->\n---\n---\n").is_empty());
    // The line after the rule is the checkbox line, whatever it holds.
    let blocks = parse_tasks_from_str("<!-- id:x -->\n --- \n---\n  not a checkbox  \n");
    assert_eq!(blocks.len(), 1);
    assert_eq!(blocks[0].description, "not a checkbox");
    assert!(!blocks[0].done);
    // Windows line endings.
    let blocks = parse_tasks_from_str("<!-- id:x -->\r\n---\r\na: 1\r\n---\r\n- [x] done\r\n");
    assert_eq!(blocks.len(), 1);
    assert_eq!(blocks[0].id.as_deref(), Some("x"));
    assert_eq!(blocks[0].frontmatter, "a: 1");
    assert!(blocks[0].done);
    assert!(parse_tasks_from_str("").is_empty());
}

#[test]
fn checkbox_lines() {
    assert_eq!(parse_checkbox_line("- [x] done"), (true, "done".to_string()));
    assert_eq!(parse_checkbox_line("  - [ ] open  "), (false, "open".to_string()));
    assert_eq!(parse_checkbox_line("no box"), (false, "no box".to_string()));
    assert_eq!(parse_checkbox_line("- [ ]"), (false, "- [ ]".to_string()));
}

#[test]
fn law_written_file_reads_back_example() {
    let tasks = vec![task("aaaa1111", "One", false), task("bbbb2222", "Two", true)];
    let fms = vec![fm("aaaa1111"), fm("bbbb2222")];
    let text = write_tasks_text("# Next Actions", &tasks, &fms);
    assert!(text.starts_with("# Next Actions\n<!-- id:aaaa1111 -->\n"));
    let blocks = parse_tasks_from_str(&text);
    assert_eq!(blocks.len(), 2);
    for (b, (t, f)) in blocks.iter().zip(tasks.iter().zip(fms.iter())) {
        assert_eq!(b.id.as_deref(), Some(t.meta.id.as_str()));
        assert_eq!(b.frontmatter, f.trim_end_matches('\n'));
        assert_eq!(b.done, t.done);
        assert_eq!(b.description, t.description);
    }
}

#[test]
fn law_appended_task_reads_back_example() {
    let start = "# Waiting For\n";
    let t = task("cccc3333", "Hear back", false);
    let text = append_task_text(start, &t, &fm("cccc3333"));
    assert_eq!(
        text,
        format!("# Waiting For\n\n{}", t.to_markdown(&fm("cccc3333")))
    );
    let blocks = parse_tasks_from_str(&text);
    assert_eq!(blocks.len(), 1);
    assert_eq!(blocks[0].description, "Hear back");
    // A file without a final newline gets one first; an empty one a blank line.
    assert!(append_task_text("# X", &t, "").starts_with("# X\n\n<!-- id:"));
    assert!(append_task_text("", &t, "").starts_with("\n\n<!-- id:"));
    let twice = append_task_text(&text, &task("dddd4444", "Again", true), "");
    let blocks = parse_tasks_from_str(&twice);
    assert_eq!(blocks.len(), 2);
    assert_eq!(blocks[1].description, "Again");
    assert!(blocks[1].done);
}

#[test]
fn law_appended_item_reads_back_example() {
    let text = append_intray_item_text("# In-Tray\n", "call mom");
    assert_eq!(text, "# In-Tray\n- [ ] call mom\n");
    let text = append_intray_item_text(&text, "buy stamps");
    let blocks = parse_tasks_from_str(&text);
    assert_eq!(blocks.len(), 2);
    assert_eq!(blocks[0].description, "call mom");
    assert_eq!(blocks[1].description, "buy stamps");
    assert!(blocks.iter().all(|b| b.id.is_none() && !b.done));
    assert_eq!(append_intray_item_text("# In-Tray", "x"), "# In-Tray\n- [ ] x\n");
}

#[test]
fn headers() {
    assert_eq!(read_header(Some("# Waiting For\nrest\n")), "# Waiting For");
    assert_eq!(read_header(Some("")), "# Tasks");
    assert_eq!(read_header(None), "# Tasks");
}

#[test]
fn remove_by_id_takes_the_first_match() {
    let mut tasks = vec![task("a", "one", false), task("b", "two", false), task("b", "three", false)];
    let removed = remove_task_by_id(&mut tasks, "b").unwrap();
    assert_eq!(removed.description, "two");
    assert_eq!(tasks.len(), 2);
    assert_eq!(tasks[0].description, "one");
    assert_eq!(tasks[1].description, "three");
    assert!(remove_task_by_id(&mut tasks, "zzz").is_none());
    assert_eq!(tasks.len(), 2);
}

#[test]
fn fresh_meta_has_a_short_hex_id() {
    let m = TaskMeta::new();
    assert_eq!(m.id.len(), 8);
    assert!(m.id.chars().all(|c| c.is_ascii_hexdigit() && !c.is_ascii_uppercase()));
    assert!(m.due.is_none() && m.delegated_to.is_none() && !m.reminder && !m.in_calendar);
    assert!((1..=12).contains(&m.created.month));
    let other = TaskMeta::new();
    assert_ne!(m.id, other.id);
    let t = Task::new("x".to_string());
    assert!(!t.done);
    assert_eq!(t.description, "x");
}

#[test]
fn fresh_meta_takes_the_uuid_prefix_and_the_day() {
    let day = Date { year: 2024, month: 3, day: 5 };
    let m = fresh_meta("123e4567-e89b-12d3-a456-426614174000", day);
    assert_eq!(m.id, "123e4567");
    assert_eq!(m.created, day);
    assert!(m.due.is_none() && m.delegated_to.is_none() && !m.reminder && !m.in_calendar);
    let other = fresh_meta("fedcba98-7654-3210-fedc-ba9876543210", day);
    assert_eq!(other.id, "fedcba98");
}

#[test]
fn blocks_become_tasks() {
    let block = TaskBlock {
        id: Some("idid".to_string()),
        frontmatter: String::new(),
        done: true,
        description: "d".to_string(),
    };
    let mut decoded = TaskMeta::new();
    decoded.id = "other".to_string();
    decoded.reminder = true;
    let t = Task::from_block(block, Some(decoded));
    assert_eq!(t.meta.id, "idid");
    assert!(t.meta.reminder);
    assert!(t.done);
    let bare = TaskBlock { id: None, frontmatter: String::new(), done: false, description: "b".to_string() };
    let t = Task::from_block(bare, None);
    assert_eq!(t.meta.id.len(), 8);
    assert_eq!(t.description, "b");
}

#[test]
fn law_written_file_keeps_header_example() {
    let tasks = vec![task("aaaa1111", "One", false)];
    let text = write_tasks_text("# Project: home", &tasks, &[fm("aaaa1111")]);
    assert_eq!(read_header(Some(&text)), "# Project: home");
    let empty = write_tasks_text("# Archive", &[], &[]);
    assert_eq!(empty, "# Archive\n");
    assert_eq!(read_header(Some(&empty)), "# Archive");
}

#[test]
fn fresh_list_files_hold_no_tasks() {
    for header in ["# Next Actions\n", "# Waiting For\n", "# Someday / Maybe\n", "# Archive\n", "# In-Tray\n", "# Project: x\n"] {
        assert!(parse_tasks_from_str(header).is_empty());
    }
}
