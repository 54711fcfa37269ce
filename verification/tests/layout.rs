use gtd::error::GtdError;
use gtd::gtd::{
    archive_file, in_tray_dir, inbox_file, inbox_header, project_dir, project_header,
    project_reference_dir, project_tasks_file, projects_dir, required_dirs, required_files,
    someday_maybe_file, sort_project_names, tasks_file, waiting_for_file, GtdList,
};

fn segs(v: &[&str]) -> Vec<String> {
    v.iter().map(|s| s.to_string()).collect()
}

#[test]
fn files_of_the_data_directory() {
    assert_eq!(tasks_file(), segs(&["tasks.md"]));
    assert_eq!(waiting_for_file(), segs(&["waiting-for.md"]));
    assert_eq!(someday_maybe_file(), segs(&["someday-maybe.md"]));
    assert_eq!(in_tray_dir(), segs(&["in-tray"]));
    assert_eq!(inbox_file(), segs(&["in-tray", "inbox.md"]));
    assert_eq!(projects_dir(), segs(&["projects"]));
    assert_eq!(archive_file(), segs(&["archive.md"]));
    assert_eq!(project_dir("home"), segs(&["projects", "home"]));
    assert_eq!(project_tasks_file("home"), segs(&["projects", "home", "tasks.md"]));
    assert_eq!(project_reference_dir("home"), segs(&["projects", "home", "reference"]));
    assert_eq!(project_header("home"), "# Project: home\n");
    assert_eq!(inbox_header(), "# In-Tray\n");
    assert_eq!(required_dirs().len(), 3);
    let files = required_files();
    assert_eq!(files[0].1, "# Next Actions\n");
    assert_eq!(files[2].1, "# Someday / Maybe\n");
    assert_eq!(files[3].0, segs(&["archive.md"]));
}

#[test]
fn lists_and_their_files() {
    assert_eq!(GtdList::NextActions.file_path(None), Ok(segs(&["tasks.md"])));
    assert_eq!(GtdList::WaitingFor.file_path(Some("x")), Ok(segs(&["waiting-for.md"])));
    assert_eq!(
        GtdList::Project.file_path(Some("garden")),
        Ok(segs(&["projects", "garden", "tasks.md"]))
    );
    assert_eq!(GtdList::Project.file_path(None), Err(GtdError::ProjectNameRequired));
    assert_eq!(GtdList::SomedayMaybe.display_name(), "Someday/Maybe");
    assert_eq!(GtdList::NextActions.display_name(), "Next Actions");
    assert_eq!(GtdList::WaitingFor.display_name(), "Waiting For");
    assert_eq!(GtdList::Project.display_name(), "Project");
}

#[test]
fn project_names_sort_as_strings_do() {
    let names = segs(&["zeta", "Alpha", "alpha", "émile", "beta", "b", "", "alpha"]);
    let mut expected = names.clone();
    expected.sort();
    assert_eq!(sort_project_names(names), expected);
    assert!(sort_project_names(vec![]).is_empty());
}

#[test]
fn error_messages() {
    assert_eq!(
        GtdError::ProjectNameRequired.message(),
        "project name required for Project list"
    );
    assert_eq!(GtdError::EmptyDescription.message(), "Task description cannot be empty");
    assert_eq!(GtdError::InvalidDate.message(), "Invalid date format. Use YYYY-MM-DD");
    assert_eq!(
        GtdError::NoSuchProjectToAdd("x".to_string()).message(),
        "Project 'x' does not exist. Create it first with: gtd project new x"
    );
    assert_eq!(
        GtdError::ProjectExists("x".to_string()).message(),
        "Project 'x' already exists"
    );
    assert_eq!(
        GtdError::ProjectMissing("x".to_string()).message(),
        "Project 'x' does not exist"
    );
    assert_eq!(
        GtdError::TaskNotFound("ab".to_string()).message(),
        "Task with ID 'ab' not found. Use `gtd list all` to see task IDs."
    );
    assert_eq!(
        GtdError::UnknownTarget("q".to_string()).message(),
        "Unknown target 'q'. Options: tasks, waiting, someday, intray, archive, project:<name>"
    );
}
