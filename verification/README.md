# gtd

A command-line Getting Things Done workflow manager: capture thoughts into an
in-tray, process them through the GTD decision tree, keep next actions,
waiting-for and someday/maybe lists and projects as markdown files, and walk
through a weekly review.

## Layout

- `src/` is the library, verified with Verus:
  - `text.rs`: characters, lines, trimming and decimal numbers as std
    defines them;
  - `date.rs`: calendar dates, their `YYYY-MM-DD` text and their order;
  - `markdown.rs`: the task file format (id comment, YAML frontmatter between
    `---` rules, checkbox line), how it is read and how tasks are written
    and appended;
  - `roundtrip.rs`: proofs that reading gives back what was written;
  - `gtd.rs`: the layout of the data directory and the order of projects;
  - `error.rs`: the errors and their messages;
  - `commands/`: the decisions of each subcommand (which list a task goes
    to, which file a filter or target names, the processing decision tree
    and what stays in the in-tray after it, how a task is listed, what a
    search matches and how a match is marked).
- `app/` is the program around it: command-line parsing, the terminal, the
  files on disk, and the YAML form of the frontmatter.
- `tests/` runs the library on concrete cases.
