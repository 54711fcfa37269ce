//! The markdown task file format: one block per task, made of an id
//! comment, a YAML frontmatter between `---` rules and a checkbox line;
//! the in-tray also holds bare checkbox lines.
use vstd::prelude::*;
use vstd::string::StringExecFns;
use crate::date::{date_text, today, Date};
use crate::text::{
    is_white_space,
    chars_eq, chars_of, has_prefix, join_lines, lines_of, push_char, push_chars, split_lines,
    starts_with, string_of, strip_prefix, strip_prefix_chars, strip_suffix, strip_suffix_chars,
    trim, trimmed, views, push_str, slice_chars,
};

verus! {

broadcast use vstd::string::group_string_axioms;

// ---------------------------------------------------------------------------
// Tasks
// ---------------------------------------------------------------------------

/// The frontmatter of a task.
#[derive(Clone, Debug)]
pub struct TaskMeta {
    /// A short id, the first eight hex digits of a random UUID.
    pub id: String,
    /// The day the task was made.
    pub created: Date,
    pub due: Option<Date>,
    pub delegated_to: Option<String>,
    pub reminder: bool,
    pub in_calendar: bool,
}

/// A single task: frontmatter, description and done state.
#[derive(Clone, Debug)]
pub struct Task {
    pub meta: TaskMeta,
    pub description: String,
    pub done: bool,
}

/// A lowercase hexadecimal digit.
pub open spec fn is_hex_digit(c: char) -> bool {
    ('0' <= c <= '9') || ('a' <= c <= 'f')
}

/// The hyphenated lowercase text of a UUID: 36 characters, hyphens at 8, 13,
/// 18 and 23, hex digits elsewhere.
pub open spec fn is_uuid_text(s: Seq<char>) -> bool {
    &&& s.len() == 36
    &&& forall|i: int|
        0 <= i < 36 ==> if i == 8 || i == 13 || i == 18 || i == 23 {
            s[i] == '-'
        } else {
            is_hex_digit(#[trigger] s[i])
        }
}

/// `uuid::Uuid::new_v4().to_string()`: a random UUID in its hyphenated
/// lowercase text form. Which UUID comes out is chance; its form is what
/// uuid's `LowerHex` formatting of a hyphenated UUID writes.
#[verifier::external_body]
fn new_uuid_text() -> (s: String)
    ensures
        is_uuid_text(s@),
{
    uuid::Uuid::new_v4().to_string()
}

/// The frontmatter of a task made now.
pub open spec fn is_fresh_meta(m: TaskMeta) -> bool {
    &&& m.id@.len() == 8
    &&& forall|i: int| 0 <= i < 8 ==> is_hex_digit(#[trigger] m.id@[i])
    &&& 1 <= m.created.month <= 12
    &&& 1 <= m.created.day <= 31
    &&& m.due is None
    &&& m.delegated_to is None
    &&& !m.reminder
    &&& !m.in_calendar
}

/// The frontmatter of a task made on `today` whose id is taken from the UUID
/// text `uuid`: its first eight characters, with nothing else set.
pub open spec fn is_meta_from(m: TaskMeta, uuid: Seq<char>, today: Date) -> bool {
    &&& m.id@ == uuid.take(8)
    &&& m.created == today
    &&& m.due is None
    &&& m.delegated_to is None
    &&& !m.reminder
    &&& !m.in_calendar
}

/// Frontmatter for a task made on `today`, its id the first eight characters
/// of the UUID text `uuid`.
pub fn fresh_meta(uuid: &str, today: Date) -> (m: TaskMeta)
    requires
        is_uuid_text(uuid@),
    ensures
        is_meta_from(m, uuid@, today),
        1 <= today.month <= 12 && 1 <= today.day <= 31 ==> is_fresh_meta(m),
{
    let full = chars_of(uuid);
    let id = string_of(&slice_chars(&full, 0, 8));
    let m = TaskMeta {
        id,
        created: today,
        due: None,
        delegated_to: None,
        reminder: false,
        in_calendar: false,
    };
    assert forall|i: int| 0 <= i < 8 implies is_hex_digit(#[trigger] m.id@[i]) by {
        assert(is_hex_digit(uuid@[i]));
    }
    m
}

impl TaskMeta {
    /// Frontmatter for a new task: the first eight characters of a random
    /// UUID as its id, made today (the local date), with nothing else set
    /// (see [`fresh_meta`]).
    pub fn new() -> (m: TaskMeta)
        ensures
            is_fresh_meta(m),
    {
        let uuid = new_uuid_text();
        fresh_meta(uuid.as_str(), today())
    }
}

/// `[x]` for a done task, `[ ]` for an open one.
pub open spec fn checkbox_text(done: bool) -> Seq<char> {
    if done {
        "[x]"@
    } else {
        "[ ]"@
    }
}

/// The block a task is written as, around its serialized frontmatter:
/// `<!-- id:ID -->`, `---`, the frontmatter, `---`, then the checkbox line.
pub open spec fn markdown_text(
    id: Seq<char>,
    frontmatter: Seq<char>,
    done: bool,
    description: Seq<char>,
) -> Seq<char> {
    "<!-- id:"@ + id + " -->\n---\n"@ + frontmatter + "---\n- "@ + checkbox_text(done) + " "@
        + description + "\n"@
}

/// The text of a task as it is listed.
pub open spec fn display_text(t: Task) -> Seq<char> {
    let due = match t.meta.due {
        Some(d) => " (due: "@ + date_text(d) + ")"@,
        None => seq![],
    };
    let delegated = match t.meta.delegated_to {
        Some(p) => " [-> "@ + p@ + "]"@,
        None => seq![],
    };
    "- "@ + checkbox_text(t.done) + " "@ + t.description@ + due + delegated + "  ("@ + t.meta.id@
        + ")"@
}

/// How a task reads when listed: it starts with `- `, its checkbox, a
/// space and its description; a due date follows the description as
/// ` (due: DATE)`; and it ends with `  (ID)`, just after ` [-> PERSON]` where
/// the task is delegated, whether or not it has a due date.
pub proof fn law_display_shows_each_field(t: Task)
    ensures
        ({
            let head = "- "@ + checkbox_text(t.done) + " "@ + t.description@;
            display_text(t).take(head.len() as int) == head
        }),
        ({
            let head = "- "@ + checkbox_text(t.done) + " "@ + t.description@;
            t.meta.due matches Some(d) ==> {
                let due = " (due: "@ + date_text(d) + ")"@;
                display_text(t).subrange(head.len() as int, (head.len() + due.len()) as int) == due
            }
        }),
        ({
            let tail = match t.meta.delegated_to {
                Some(p) => " [-> "@ + p@ + "]"@ + "  ("@ + t.meta.id@ + ")"@,
                None => "  ("@ + t.meta.id@ + ")"@,
            };
            &&& display_text(t).len() >= tail.len()
            &&& display_text(t).skip(display_text(t).len() - tail.len()) == tail
        }),
{
    let head = "- "@ + checkbox_text(t.done) + " "@ + t.description@;
    let due = match t.meta.due {
        Some(d) => " (due: "@ + date_text(d) + ")"@,
        None => seq![],
    };
    let delegated = match t.meta.delegated_to {
        Some(p) => " [-> "@ + p@ + "]"@,
        None => seq![],
    };
    let id = "  ("@ + t.meta.id@ + ")"@;
    let tail = delegated + id;
    let text = display_text(t);
    assert(text == head + due + tail);
    assert(text.take(head.len() as int) == head);
    assert(text.subrange(head.len() as int, (head.len() + due.len()) as int) == due);
    assert(text.skip(text.len() - tail.len()) == tail);
    match t.meta.delegated_to {
        Some(p) => {
            assert(tail == " [-> "@ + p@ + "]"@ + "  ("@ + t.meta.id@ + ")"@);
        },
        None => {
            assert(tail == id);
        },
    }
}

impl TaskMeta {
    /// A copy of this frontmatter.
    pub fn duplicate(&self) -> (m: TaskMeta)
        ensures
            m == *self,
    {
        TaskMeta {
            id: self.id.clone(),
            created: self.created,
            due: self.due,
            delegated_to: match &self.delegated_to {
                Some(p) => Some(p.clone()),
                None => None,
            },
            reminder: self.reminder,
            in_calendar: self.in_calendar,
        }
    }
}

impl Task {
    /// A copy of the task.
    pub fn duplicate(&self) -> (t: Task)
        ensures
            t == *self,
    {
        Task { meta: self.meta.duplicate(), description: self.description.clone(), done: self.done }
    }

    /// A new open task with fresh frontmatter.
    pub fn new(description: String) -> (t: Task)
        ensures
            t.description == description,
            !t.done,
            is_fresh_meta(t.meta),
    {
        Task { meta: TaskMeta::new(), description, done: false }
    }

    /// The markdown block of the task, around `frontmatter`, the YAML text
    /// of its metadata (see [`markdown_text`]).
    pub fn to_markdown(&self, frontmatter: &str) -> (s: String)
        ensures
            s@ == markdown_text(self.meta.id@, frontmatter@, self.done, self.description@),
    {
        let mut s = String::new();
        push_str(&mut s, "<!-- id:");
        push_str(&mut s, self.meta.id.as_str());
        push_str(&mut s, " -->\n---\n");
        push_str(&mut s, frontmatter);
        push_str(&mut s, "---\n- ");
        push_str(&mut s, if self.done { "[x]" } else { "[ ]" });
        push_str(&mut s, " ");
        push_str(&mut s, self.description.as_str());
        push_str(&mut s, "\n");
        s
    }

    /// The text of the task as it is listed: checkbox, description, due
    /// date, delegate and id (see [`display_text`]).
    pub fn display_line(&self) -> (s: String)
        ensures
            s@ == display_text(*self),
    {
        let mut s = String::new();
        push_str(&mut s, "- ");
        push_str(&mut s, if self.done { "[x]" } else { "[ ]" });
        push_str(&mut s, " ");
        push_str(&mut s, self.description.as_str());
        match &self.meta.due {
            Some(d) => {
                push_str(&mut s, " (due: ");
                d.push_text(&mut s);
                push_str(&mut s, ")");
            },
            None => {},
        }
        match &self.meta.delegated_to {
            Some(p) => {
                push_str(&mut s, " [-> ");
                push_str(&mut s, p.as_str());
                push_str(&mut s, "]");
            },
            None => {},
        }
        push_str(&mut s, "  (");
        push_str(&mut s, self.meta.id.as_str());
        push_str(&mut s, ")");
        s
    }
}

// ---------------------------------------------------------------------------
// What a task file holds
// ---------------------------------------------------------------------------

/// One task as read from a task file, before its frontmatter is decoded.
pub struct TaskBlock {
    /// The id of the `<!-- id:... -->` comment; `None` for a bare checkbox line.
    pub id: Option<String>,
    /// The frontmatter lines joined with `\n` (empty for a bare checkbox line).
    pub frontmatter: String,
    /// Whether the checkbox is ticked.
    pub done: bool,
    /// The text after the checkbox.
    pub description: String,
}

/// The mathematical value of a [`TaskBlock`].
pub struct BlockView {
    pub id: Option<Seq<char>>,
    pub frontmatter: Seq<char>,
    pub done: bool,
    pub description: Seq<char>,
}

pub open spec fn opt_view(o: Option<String>) -> Option<Seq<char>> {
    match o {
        Some(s) => Some(s@),
        None => None,
    }
}

impl View for TaskBlock {
    type V = BlockView;

    open spec fn view(&self) -> BlockView {
        BlockView {
            id: opt_view(self.id),
            frontmatter: self.frontmatter@,
            done: self.done,
            description: self.description@,
        }
    }
}

pub open spec fn block_views(bs: Seq<TaskBlock>) -> Seq<BlockView> {
    bs.map_values(|b: TaskBlock| b@)
}

// ---------------------------------------------------------------------------
// The format, line by line
// ---------------------------------------------------------------------------

/// The id in an `<!-- id:ID -->` line.
pub open spec fn id_of(line: Seq<char>) -> Option<Seq<char>> {
    match strip_prefix(line, "<!-- id:"@) {
        Some(rest) => strip_suffix(rest, " -->"@),
        None => None,
    }
}

/// A `---` rule, white space around it allowed.
pub open spec fn is_rule(line: Seq<char>) -> bool {
    trimmed(line) == "---"@
}

/// A line that opens with a checkbox, as bare in-tray items do.
pub open spec fn is_checkbox_start(line: Seq<char>) -> bool {
    has_prefix(line, "- [ ] "@) || has_prefix(line, "- [x] "@)
}

/// The done state and description of a checkbox line: the line is trimmed,
/// then `- [x] ` or `- [ ] ` is taken off; a line with neither is a
/// description as it stands.
pub open spec fn checkbox_of(line: Seq<char>) -> (bool, Seq<char>) {
    let t = trimmed(line);
    match strip_prefix(t, "- [x] "@) {
        Some(d) => (true, d),
        None => match strip_prefix(t, "- [ ] "@) {
            Some(d) => (false, d),
            None => (false, t),
        },
    }
}

/// The index of the first rule in `ls`, or `ls.len()` if there is none.
pub open spec fn rule_index(ls: Seq<Seq<char>>) -> nat
    decreases ls.len(),
{
    if ls.len() == 0 {
        0
    } else if is_rule(ls[0]) {
        0
    } else {
        1 + rule_index(ls.drop_first())
    }
}

/// The tasks held by the lines `ls`.
///
/// An id line directly followed by a rule opens a block: the lines up to the
/// next rule are its frontmatter and the line after that rule its checkbox
/// line (a block cut short by the end of the text is dropped). An id line
/// followed by anything else, and any other line, is passed over, but for a
/// line that opens with a checkbox, which is a bare task.
pub open spec fn parse_lines(ls: Seq<Seq<char>>) -> Seq<BlockView>
    decreases ls.len(),
{
    if ls.len() == 0 {
        seq![]
    } else {
        match id_of(ls[0]) {
            Some(id) => {
                if ls.len() > 1 && is_rule(ls[1]) {
                    let rest = ls.skip(2);
                    let k = rule_index(rest);
                    if k + 1 < rest.len() {
                        let (done, desc) = checkbox_of(rest[k + 1int]);
                        seq![
                            BlockView {
                                id: Some(id),
                                frontmatter: join_lines(rest.take(k as int)),
                                done,
                                description: desc,
                            },
                        ] + parse_lines(rest.skip(k + 2int))
                    } else {
                        seq![]
                    }
                } else {
                    parse_lines(ls.drop_first())
                }
            },
            None => {
                if is_checkbox_start(ls[0]) {
                    let (done, desc) = checkbox_of(ls[0]);
                    seq![BlockView { id: None, frontmatter: seq![], done, description: desc }]
                        + parse_lines(ls.drop_first())
                } else {
                    parse_lines(ls.drop_first())
                }
            },
        }
    }
}

/// The tasks held by the text of a task file.
pub open spec fn parse_text(content: Seq<char>) -> Seq<BlockView> {
    parse_lines(lines_of(content))
}

/// Every block that the lines `ls` open is closed within them: no id line
/// followed by a rule is left without its closing rule and checkbox line.
pub open spec fn is_clean(ls: Seq<Seq<char>>) -> bool
    decreases ls.len(),
{
    if ls.len() == 0 {
        true
    } else if id_of(ls[0]) is Some && ls.len() > 1 && is_rule(ls[1]) {
        let rest = ls.skip(2);
        let k = rule_index(rest);
        k + 1 < rest.len() && is_clean(rest.skip(k + 2int))
    } else {
        is_clean(ls.drop_first())
    }
}

/// `s` holds no line break.
pub open spec fn no_newline(s: Seq<char>) -> bool {
    forall|i: int| 0 <= i < s.len() ==> s[i] != '\n'
}

/// A description that a checkbox line gives back as it is: one line, not
/// empty, not ending in white space.
pub open spec fn is_line_item(d: Seq<char>) -> bool {
    &&& no_newline(d)
    &&& d.len() > 0
    &&& !is_white_space(d.last())
}

/// A task with its serialized frontmatter that its written block gives back:
/// id and description on one line each, the description a line item, and a
/// frontmatter of whole lines none of which is a `---` rule.
pub open spec fn is_writable(t: Task, frontmatter: Seq<char>) -> bool {
    &&& no_newline(t.meta.id@)
    &&& is_line_item(t.description@)
    &&& (frontmatter.len() == 0 || frontmatter.last() == '\n')
    &&& forall|i: int| 0 <= i < lines_of(frontmatter).len() ==> !is_rule(#[trigger] lines_of(frontmatter)[i])
}

/// The block that reading gives back for `t` written with `frontmatter`.
pub open spec fn written_block(t: Task, frontmatter: Seq<char>) -> BlockView {
    BlockView {
        id: Some(t.meta.id@),
        frontmatter: join_lines(lines_of(frontmatter)),
        done: t.done,
        description: t.description@,
    }
}

/// The block that reading gives back for an in-tray item.
pub open spec fn item_block(description: Seq<char>) -> BlockView {
    BlockView { id: None, frontmatter: seq![], done: false, description }
}

// ---------------------------------------------------------------------------
// Reading
// ---------------------------------------------------------------------------

proof fn lemma_rule_index(ls: Seq<Seq<char>>, k: int)
    requires
        0 <= k <= ls.len(),
        forall|m: int| 0 <= m < k ==> !is_rule(#[trigger] ls[m]),
        k == ls.len() || is_rule(ls[k]),
    ensures
        rule_index(ls) == k,
    decreases k,
{
    if k > 0 {
        let t = ls.drop_first();
        assert forall|m: int| 0 <= m < k - 1 implies !is_rule(#[trigger] t[m]) by {
            assert(t[m] == ls[m + 1]);
        }
        if k < ls.len() {
            assert(t[k - 1] == ls[k]);
        }
        lemma_rule_index(t, k - 1);
    }
}

/// The id of an `<!-- id:ID -->` line.
fn line_id(line: &[char], open: &[char], close: &[char]) -> (r: Option<Vec<char>>)
    requires
        open@ == "<!-- id:"@,
        close@ == " -->"@,
    ensures
        r matches Some(v) ==> id_of(line@) == Some(v@),
        r is None ==> id_of(line@) is None,
{
    match strip_prefix_chars(line, open) {
        Some(rest) => strip_suffix_chars(&rest, close),
        None => None,
    }
}

/// The done state and description of a checkbox line, held as characters.
pub fn checkbox_parts(line: &[char]) -> (r: (bool, String))
    ensures
        r.0 == checkbox_of(line@).0,
        r.1@ == checkbox_of(line@).1,
{
    let t = trim(line);
    let ticked = chars_of("- [x] ");
    let open = chars_of("- [ ] ");
    match strip_prefix_chars(&t, &ticked) {
        Some(d) => (true, string_of(&d)),
        None => match strip_prefix_chars(&t, &open) {
            Some(d) => (false, string_of(&d)),
            None => (false, string_of(&t)),
        },
    }
}

/// The done state and description of a checkbox line (see [`checkbox_of`]).
pub fn parse_checkbox_line(line: &str) -> (r: (bool, String))
    ensures
        r.0 == checkbox_of(line@).0,
        r.1@ == checkbox_of(line@).1,
{
    checkbox_parts(&chars_of(line))
}

/// Parses the tasks of a task file's text (see [`parse_lines`]).
#[verifier::spinoff_prover]
#[verifier::rlimit(40)]
pub fn parse_tasks_from_str(content: &str) -> (blocks: Vec<TaskBlock>)
    ensures
        block_views(blocks@) == parse_text(content@),
{
    let cs = chars_of(content);
    let ls = split_lines(&cs);
    let open = chars_of("<!-- id:");
    let close = chars_of(" -->");
    let rule = chars_of("---");
    let ticked = chars_of("- [x] ");
    let unticked = chars_of("- [ ] ");
    let ghost all = views(ls@);
    let n = ls.len();
    let mut out: Vec<TaskBlock> = Vec::new();
    let mut i: usize = 0;
    assert(all.skip(0) == all);
    while i < n
        invariant
            n == ls@.len(),
            all == views(ls@),
            all.len() == n,
            i <= n,
            open@ == "<!-- id:"@,
            close@ == " -->"@,
            rule@ == "---"@,
            ticked@ == "- [x] "@,
            unticked@ == "- [ ] "@,
            parse_lines(all) == block_views(out@) + parse_lines(all.skip(i as int)),
        decreases n - i,
    {
        let ghost before = out@;
        let ghost cur = all.skip(i as int);
        assert(cur[0] == all[i as int]);
        assert(cur.drop_first() == all.skip(i + 1));
        assert(all[i as int] == ls@[i as int]@);
        match line_id(&ls[i], &open, &close) {
            Some(id) => {
                let is_open = i + 1 < n && chars_eq(&trim(&ls[i + 1]), &rule);
                if is_open {
                    assert(cur[1] == all[i + 1]);
                    assert(all[i + 1] == ls@[i + 1]@);
                    let ghost rest = cur.skip(2);
                    assert(rest == all.skip(i + 2));
                    let mut frontmatter = String::new();
                    let mut j: usize = i + 2;
                    assert(all.subrange(i + 2, j as int) == Seq::<Seq<char>>::empty());
                    while j < n
                        invariant
                            n == ls@.len(),
                            all == views(ls@),
                            all.len() == n,
                            i + 2 <= j <= n,
                            rule@ == "---"@,
                            forall|m: int| i + 2 <= m < j ==> !is_rule(#[trigger] all[m]),
                            frontmatter@ == join_lines(all.subrange(i + 2, j as int)),
                        ensures
                            i + 2 <= j <= n,
                            forall|m: int| i + 2 <= m < j ==> !is_rule(#[trigger] all[m]),
                            frontmatter@ == join_lines(all.subrange(i + 2, j as int)),
                            j == n || is_rule(all[j as int]),
                        decreases n - j,
                    {
                        assert(all[j as int] == ls@[j as int]@);
                        if chars_eq(&trim(&ls[j]), &rule) {
                            break;
                        }
                        let ghost sub = all.subrange(i + 2, j + 1);
                        assert(sub.drop_last() == all.subrange(i + 2, j as int));
                        assert(sub.last() == all[j as int]);
                        if j > i + 2 {
                            push_char(&mut frontmatter, '\n');
                        } else {
                            assert(sub.len() == 1);
                        }
                        push_chars(&mut frontmatter, &ls[j]);
                        j = j + 1;
                    }
                    let ghost k = j - (i + 2);
                    proof {
                        assert forall|m: int| 0 <= m < k implies !is_rule(#[trigger] rest[m]) by {
                            assert(rest[m] == all[i + 2 + m]);
                        }
                        if j < n {
                            assert(rest[k] == all[j as int]);
                        }
                        lemma_rule_index(rest, k);
                        assert(rest.take(k) == all.subrange(i + 2, j as int));
                    }
                    if n - j > 1 {
                        assert(rest[k + 1] == all[j + 1]);
                        assert(all[j + 1] == ls@[j + 1]@);
                        assert(rest.skip(k + 2) == all.skip(j + 2));
                        let (done, description) = checkbox_parts(&ls[j + 1]);
                        let block = TaskBlock {
                            id: Some(string_of(&id)),
                            frontmatter,
                            done,
                            description,
                        };
                        out.push(block);
                        assert(block_views(out@) == block_views(before).push(block@));
                        i = j + 2;
                    } else {
                        assert(all.skip(n as int) == Seq::<Seq<char>>::empty());
                        i = n;
                    }
                } else {
                    i = i + 1;
                }
            },
            None => {
                if starts_with(&ls[i], &unticked) || starts_with(&ls[i], &ticked) {
                    let (done, description) = checkbox_parts(&ls[i]);
                    let block = TaskBlock { id: None, frontmatter: String::new(), done, description };
                    out.push(block);
                    assert(block_views(out@) == block_views(before).push(block@));
                }
                i = i + 1;
            },
        }
    }
    assert(all.skip(n as int) == Seq::<Seq<char>>::empty());
    out
}

// ---------------------------------------------------------------------------
// From blocks to tasks
// ---------------------------------------------------------------------------

impl Task {
    /// The task that a block stands for, given what its frontmatter decoded
    /// to. A block with an id keeps the decoded frontmatter, or fresh
    /// frontmatter where it did not decode, and takes the block's id; a bare
    /// checkbox line becomes a new task.
    pub fn from_block(block: TaskBlock, decoded: Option<TaskMeta>) -> (t: Task)
        ensures
            t.description@ == block.description@,
            t.done == block.done,
            block.id matches Some(id) ==> t.meta.id@ == id@,
            block.id is Some && decoded is Some ==> ({
                let m = decoded->0;
                &&& t.meta.created == m.created
                &&& t.meta.due == m.due
                &&& t.meta.delegated_to == m.delegated_to
                &&& t.meta.reminder == m.reminder
                &&& t.meta.in_calendar == m.in_calendar
            }),
            block.id is Some && decoded is None ==> ({
                let m = t.meta;
                &&& 1 <= m.created.month <= 12
                &&& 1 <= m.created.day <= 31
                &&& m.due is None
                &&& m.delegated_to is None
                &&& !m.reminder
                &&& !m.in_calendar
            }),
            block.id is None ==> is_fresh_meta(t.meta),
    {
        match block.id {
            Some(id) => {
                let mut meta = match decoded {
                    Some(m) => m,
                    None => TaskMeta::new(),
                };
                meta.id = id;
                Task { meta, description: block.description, done: block.done }
            },
            None => {
                let mut t = Task::new(block.description);
                t.done = block.done;
                t
            },
        }
    }
}

/// Removes the first task with id `id` and hands it back; the others stay,
/// in their order.
pub fn remove_task_by_id(tasks: &mut Vec<Task>, id: &str) -> (removed: Option<Task>)
    ensures
        match removed {
            Some(t) => exists|i: int|
                0 <= i < old(tasks)@.len() && old(tasks)@[i].meta.id@ == id@ && (forall|j: int|
                    0 <= j < i ==> #[trigger] old(tasks)@[j].meta.id@ != id@) && t == old(
                    tasks,
                )@[i] && final(tasks)@ == old(tasks)@.remove(i),
            None => final(tasks)@ == old(tasks)@ && forall|j: int|
                0 <= j < old(tasks)@.len() ==> #[trigger] old(tasks)@[j].meta.id@ != id@,
        },
{
    let want = chars_of(id);
    let mut i: usize = 0;
    while i < tasks.len()
        invariant
            tasks@ == old(tasks)@,
            want@ == id@,
            i <= tasks@.len(),
            forall|j: int| 0 <= j < i ==> #[trigger] tasks@[j].meta.id@ != id@,
        decreases tasks@.len() - i,
    {
        if chars_eq(&chars_of(tasks[i].meta.id.as_str()), &want) {
            let t = tasks.remove(i);
            return Some(t);
        }
        i = i + 1;
    }
    None
}

// ---------------------------------------------------------------------------
// Writing
// ---------------------------------------------------------------------------

/// The header of a task file: its first line, or `# Tasks` where the file
/// could not be read or has no line.
pub open spec fn header_text(content: Option<Seq<char>>) -> Seq<char> {
    match content {
        Some(c) => if lines_of(c).len() > 0 {
            lines_of(c)[0]
        } else {
            "# Tasks"@
        },
        None => "# Tasks"@,
    }
}

/// The header to keep when a task file is written again.
pub fn read_header(content: Option<&str>) -> (h: String)
    ensures
        h@ == header_text(match content {
            Some(c) => Some(c@),
            None => None,
        }),
{
    match content {
        Some(c) => {
            let ls = split_lines(&chars_of(c));
            if ls.len() > 0 {
                assert(views(ls@)[0] == ls@[0]@);
                string_of(&ls[0])
            } else {
                String::from_str("# Tasks")
            }
        },
        None => String::from_str("# Tasks"),
    }
}

/// A task file: the header line, then each task's block followed by a blank
/// line.
pub open spec fn tasks_file_text(header: Seq<char>, blocks: Seq<Seq<char>>) -> Seq<char>
    decreases blocks.len(),
{
    if blocks.len() == 0 {
        header + "\n"@
    } else {
        tasks_file_text(header, blocks.drop_last()) + blocks.last() + "\n"@
    }
}

/// The blocks of `tasks`, the `i`th around frontmatter `fms[i]`.
pub open spec fn task_markdowns(tasks: Seq<Task>, fms: Seq<Seq<char>>) -> Seq<Seq<char>> {
    Seq::new(
        tasks.len(),
        |i: int| markdown_text(tasks[i].meta.id@, fms[i], tasks[i].done, tasks[i].description@),
    )
}

/// The text a task file is written with: `header`, then the tasks, the
/// `i`th with the serialized frontmatter `frontmatters[i]`.
pub fn write_tasks_text(header: &str, tasks: &[Task], frontmatters: &[String]) -> (s: String)
    requires
        tasks@.len() == frontmatters@.len(),
    ensures
        s@ == tasks_file_text(header@, task_markdowns(tasks@, frontmatters@.map_values(|f: String| f@))),
{
    let ghost fms = frontmatters@.map_values(|f: String| f@);
    let ghost mds = task_markdowns(tasks@, fms);
    let mut s = String::new();
    push_str(&mut s, header);
    push_str(&mut s, "\n");
    let mut i: usize = 0;
    assert(mds.take(0) == Seq::<Seq<char>>::empty());
    while i < tasks.len()
        invariant
            tasks@.len() == frontmatters@.len(),
            i <= tasks@.len(),
            fms == frontmatters@.map_values(|f: String| f@),
            mds == task_markdowns(tasks@, fms),
            s@ == tasks_file_text(header@, mds.take(i as int)),
        decreases tasks@.len() - i,
    {
        let md = tasks[i].to_markdown(frontmatters[i].as_str());
        push_str(&mut s, md.as_str());
        push_str(&mut s, "\n");
        assert(mds.take(i + 1).drop_last() == mds.take(i as int));
        i = i + 1;
    }
    assert(mds.take(tasks@.len() as int) == mds);
    s
}

/// The text with `\n` added unless it already ends with one (an empty text gets one too).
pub open spec fn ending_line(existing: Seq<char>) -> Seq<char> {
    if existing.len() > 0 && existing.last() == '\n' {
        existing
    } else {
        existing.push('\n')
    }
}

/// A task file's text with a task block appended after a blank line.
pub open spec fn appended_task_text(existing: Seq<char>, markdown: Seq<char>) -> Seq<char> {
    ending_line(existing) + "\n"@ + markdown
}

/// An in-tray's text with a bare checkbox line appended.
pub open spec fn appended_item_text(existing: Seq<char>, description: Seq<char>) -> Seq<char> {
    ending_line(existing) + "- [ ] "@ + description + "\n"@
}

fn end_line(s: &mut String)
    ensures
        final(s)@ == ending_line(old(s)@),
{
    let cs = chars_of(s.as_str());
    if !(cs.len() > 0 && cs[cs.len() - 1] == '\n') {
        push_char(s, '\n');
    }
}

/// The text of a task file (empty where it could not be read) with `task`
/// appended, its frontmatter serialized as `frontmatter`.
pub fn append_task_text(existing: &str, task: &Task, frontmatter: &str) -> (s: String)
    ensures
        s@ == appended_task_text(
            existing@,
            markdown_text(task.meta.id@, frontmatter@, task.done, task.description@),
        ),
{
    let mut s = String::from_str(existing);
    end_line(&mut s);
    push_str(&mut s, "\n");
    let md = task.to_markdown(frontmatter);
    push_str(&mut s, md.as_str());
    s
}

/// The text of an in-tray (empty where it could not be read) with a bare
/// item appended.
pub fn append_intray_item_text(existing: &str, description: &str) -> (s: String)
    ensures
        s@ == appended_item_text(existing@, description@),
{
    let mut s = String::from_str(existing);
    end_line(&mut s);
    push_str(&mut s, "- [ ] ");
    push_str(&mut s, description);
    push_str(&mut s, "\n");
    s
}

} // verus!
