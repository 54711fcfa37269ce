//! The layout of the GTD data directory: which files hold which lists, the
//! header a new file starts with, and the projects it holds.
use vstd::prelude::*;
use vstd::string::StringExecFns;
use crate::error::GtdError;
use crate::text::{chars_of, push_str};

verus! {

broadcast use vstd::string::group_string_axioms;

/// The text of each path segment.
pub open spec fn segments(v: Seq<String>) -> Seq<Seq<char>> {
    v.map_values(|s: String| s@)
}

fn one_segment(a: &str) -> (v: Vec<String>)
    ensures
        segments(v@) == seq![a@],
{
    let mut v = Vec::new();
    v.push(String::from_str(a));
    assert(segments(v@) =~= seq![a@]);
    v
}

/// The next-actions list, relative to the data directory.
pub fn tasks_file() -> (p: Vec<String>)
    ensures
        segments(p@) == seq!["tasks.md"@],
{
    one_segment("tasks.md")
}

/// The waiting-for list.
pub fn waiting_for_file() -> (p: Vec<String>)
    ensures
        segments(p@) == seq!["waiting-for.md"@],
{
    one_segment("waiting-for.md")
}

/// The someday/maybe list.
pub fn someday_maybe_file() -> (p: Vec<String>)
    ensures
        segments(p@) == seq!["someday-maybe.md"@],
{
    one_segment("someday-maybe.md")
}

/// The in-tray directory.
pub fn in_tray_dir() -> (p: Vec<String>)
    ensures
        segments(p@) == seq!["in-tray"@],
{
    one_segment("in-tray")
}

/// The in-tray file, where captured items go.
pub fn inbox_file() -> (p: Vec<String>)
    ensures
        segments(p@) == seq!["in-tray"@, "inbox.md"@],
{
    let mut p = in_tray_dir();
    let ghost before = p@;
    p.push(String::from_str("inbox.md"));
    assert(segments(p@) =~= segments(before).push("inbox.md"@));
    p
}

/// The directory that holds the projects.
pub fn projects_dir() -> (p: Vec<String>)
    ensures
        segments(p@) == seq!["projects"@],
{
    one_segment("projects")
}

/// The archive of done tasks.
pub fn archive_file() -> (p: Vec<String>)
    ensures
        segments(p@) == seq!["archive.md"@],
{
    one_segment("archive.md")
}

/// The directory of project `name`.
pub fn project_dir(name: &str) -> (p: Vec<String>)
    ensures
        segments(p@) == seq!["projects"@, name@],
{
    let mut p = projects_dir();
    let ghost before = p@;
    p.push(String::from_str(name));
    assert(segments(p@) =~= segments(before).push(name@));
    p
}

/// The task list of project `name`.
pub fn project_tasks_file(name: &str) -> (p: Vec<String>)
    ensures
        segments(p@) == seq!["projects"@, name@, "tasks.md"@],
{
    let mut p = project_dir(name);
    let ghost before = p@;
    p.push(String::from_str("tasks.md"));
    assert(segments(p@) =~= segments(before).push("tasks.md"@));
    p
}

/// The reference directory of project `name`.
pub fn project_reference_dir(name: &str) -> (p: Vec<String>)
    ensures
        segments(p@) == seq!["projects"@, name@, "reference"@],
{
    let mut p = project_dir(name);
    let ghost before = p@;
    p.push(String::from_str("reference"));
    assert(segments(p@) =~= segments(before).push("reference"@));
    p
}

/// The header a new project's task list starts with: `# Project: NAME`.
pub open spec fn project_header_text(name: Seq<char>) -> Seq<char> {
    "# Project: "@ + name + "\n"@
}

/// The text a new project's task list is made with.
pub fn project_header(name: &str) -> (s: String)
    ensures
        s@ == project_header_text(name@),
{
    let mut s = String::from_str("# Project: ");
    push_str(&mut s, name);
    push_str(&mut s, "\n");
    s
}

/// The text a new in-tray is made with.
pub fn inbox_header() -> (s: String)
    ensures
        s@ == "# In-Tray\n"@,
{
    String::from_str("# In-Tray\n")
}

/// The directories the data directory must hold: itself, the in-tray and the
/// projects directory.
pub fn required_dirs() -> (ds: Vec<Vec<String>>)
    ensures
        ds@.len() == 3,
        segments(ds@[0]@) == Seq::<Seq<char>>::empty(),
        segments(ds@[1]@) == seq!["in-tray"@],
        segments(ds@[2]@) == seq!["projects"@],
{
    let mut ds = Vec::new();
    let root: Vec<String> = Vec::new();
    assert(segments(root@) =~= Seq::<Seq<char>>::empty());
    ds.push(root);
    ds.push(in_tray_dir());
    ds.push(projects_dir());
    ds
}

/// The list files the data directory must hold, each with the text it is
/// made with where it is missing.
pub fn required_files() -> (fs: Vec<(Vec<String>, String)>)
    ensures
        fs@.len() == 4,
        segments(fs@[0].0@) == seq!["tasks.md"@] && fs@[0].1@ == "# Next Actions\n"@,
        segments(fs@[1].0@) == seq!["waiting-for.md"@] && fs@[1].1@ == "# Waiting For\n"@,
        segments(fs@[2].0@) == seq!["someday-maybe.md"@] && fs@[2].1@ == "# Someday / Maybe\n"@,
        segments(fs@[3].0@) == seq!["archive.md"@] && fs@[3].1@ == "# Archive\n"@,
{
    let mut fs = Vec::new();
    fs.push((tasks_file(), String::from_str("# Next Actions\n")));
    fs.push((waiting_for_file(), String::from_str("# Waiting For\n")));
    fs.push((someday_maybe_file(), String::from_str("# Someday / Maybe\n")));
    fs.push((archive_file(), String::from_str("# Archive\n")));
    fs
}

/// The lists a task can belong to.
#[derive(Clone, Copy, Debug, PartialEq, Eq, Structural)]
pub enum GtdList {
    NextActions,
    WaitingFor,
    SomedayMaybe,
    Project,
}

impl GtdList {
    /// The file of this list; a project's list needs the project's name.
    pub fn file_path(&self, project_name: Option<&str>) -> (r: Result<Vec<String>, GtdError>)
        ensures
            match r {
                Ok(p) => match *self {
                    GtdList::NextActions => segments(p@) == seq!["tasks.md"@],
                    GtdList::WaitingFor => segments(p@) == seq!["waiting-for.md"@],
                    GtdList::SomedayMaybe => segments(p@) == seq!["someday-maybe.md"@],
                    GtdList::Project => project_name matches Some(n) && segments(p@) == seq![
                        "projects"@,
                        n@,
                        "tasks.md"@,
                    ],
                },
                Err(e) => *self == GtdList::Project && project_name is None && e
                    == GtdError::ProjectNameRequired,
            },
    {
        match self {
            GtdList::NextActions => Ok(tasks_file()),
            GtdList::WaitingFor => Ok(waiting_for_file()),
            GtdList::SomedayMaybe => Ok(someday_maybe_file()),
            GtdList::Project => match project_name {
                Some(name) => Ok(project_tasks_file(name)),
                None => Err(GtdError::ProjectNameRequired),
            },
        }
    }

    /// The name of this list as it is shown.
    pub fn display_name(&self) -> (s: &'static str)
        ensures
            s@ == match *self {
                GtdList::NextActions => "Next Actions"@,
                GtdList::WaitingFor => "Waiting For"@,
                GtdList::SomedayMaybe => "Someday/Maybe"@,
                GtdList::Project => "Project"@,
            },
    {
        match self {
            GtdList::NextActions => "Next Actions",
            GtdList::WaitingFor => "Waiting For",
            GtdList::SomedayMaybe => "Someday/Maybe",
            GtdList::Project => "Project",
        }
    }
}

// ---------------------------------------------------------------------------
// Project names, in the order `str`'s `Ord` puts them
// ---------------------------------------------------------------------------

/// `a` comes before `b` in the order of `str`: lexicographic by character,
/// which is the order of their UTF-8 bytes.
pub open spec fn text_lt(a: Seq<char>, b: Seq<char>) -> bool
    decreases a.len(),
{
    if a.len() == 0 {
        b.len() > 0
    } else if b.len() == 0 {
        false
    } else if (a[0] as u32) < (b[0] as u32) {
        true
    } else if a[0] == b[0] {
        text_lt(a.drop_first(), b.drop_first())
    } else {
        false
    }
}

/// Each name in `s` comes no later than the names after it.
pub open spec fn is_sorted(s: Seq<String>) -> bool {
    forall|i: int, j: int| 0 <= i < j < s.len() ==> !text_lt(#[trigger] s[j]@, #[trigger] s[i]@)
}

/// The order is transitive.
pub proof fn lemma_text_lt_transitive(a: Seq<char>, b: Seq<char>, c: Seq<char>)
    requires
        text_lt(a, b),
        text_lt(b, c),
    ensures
        text_lt(a, c),
    decreases a.len(),
{
    if a.len() > 0 && b.len() > 0 && c.len() > 0 && a[0] == b[0] && b[0] == c[0] {
        lemma_text_lt_transitive(a.drop_first(), b.drop_first(), c.drop_first());
    }
}

/// No text comes before itself.
pub proof fn lemma_text_lt_irreflexive(a: Seq<char>)
    ensures
        !text_lt(a, a),
    decreases a.len(),
{
    if a.len() > 0 {
        lemma_text_lt_irreflexive(a.drop_first());
    }
}

proof fn lemma_text_lt_skip(a: Seq<char>, b: Seq<char>, i: int)
    requires
        0 <= i <= a.len(),
        i <= b.len(),
        a.take(i) == b.take(i),
    ensures
        text_lt(a, b) == text_lt(a.skip(i), b.skip(i)),
    decreases i,
{
    if i > 0 {
        assert(a[0] == a.take(i)[0]);
        assert(b[0] == b.take(i)[0]);
        assert(a.drop_first().take(i - 1) == a.take(i).drop_first());
        assert(b.drop_first().take(i - 1) == b.take(i).drop_first());
        lemma_text_lt_skip(a.drop_first(), b.drop_first(), i - 1);
        assert(a.drop_first().skip(i - 1) == a.skip(i));
        assert(b.drop_first().skip(i - 1) == b.skip(i));
    } else {
        assert(a.skip(0) == a);
        assert(b.skip(0) == b);
    }
}

/// Whether `a` comes before `b` in the order of `str`.
pub fn chars_lt(a: &[char], b: &[char]) -> (r: bool)
    ensures
        r == text_lt(a@, b@),
{
    let mut i: usize = 0;
    while i < a.len() && i < b.len() && a[i] == b[i]
        invariant
            i <= a@.len(),
            i <= b@.len(),
            a@.take(i as int) == b@.take(i as int),
        decreases a@.len() - i,
    {
        assert(a@.take(i + 1) == a@.take(i as int).push(a@[i as int]));
        assert(b@.take(i + 1) == b@.take(i as int).push(b@[i as int]));
        i = i + 1;
    }
    proof {
        lemma_text_lt_skip(a@, b@, i as int);
        if i < a@.len() && i < b@.len() {
            assert(a@.skip(i as int)[0] == a@[i as int]);
            assert(b@.skip(i as int)[0] == b@[i as int]);
        }
    }
    if i == a.len() {
        i < b.len()
    } else if i == b.len() {
        false
    } else {
        (a[i] as u32) < (b[i] as u32)
    }
}

/// Project names sorted as `[String]::sort` sorts them.
pub fn sort_project_names(names: Vec<String>) -> (sorted: Vec<String>)
    ensures
        is_sorted(sorted@),
        sorted@.to_multiset() == names@.to_multiset(),
{
    broadcast use vstd::seq_lib::group_to_multiset_ensures;

    let mut out: Vec<String> = Vec::new();
    let mut n: usize = 0;
    while n < names.len()
        invariant
            n <= names@.len(),
            is_sorted(out@),
            out@.to_multiset() == names@.take(n as int).to_multiset(),
        decreases names@.len() - n,
    {
        let name = names[n].clone();
        let key = chars_of(name.as_str());
        let mut p: usize = 0;
        while p < out.len()
            invariant
                p <= out@.len(),
                key@ == name@,
                forall|i: int| 0 <= i < p ==> !text_lt(name@, #[trigger] out@[i]@),
            ensures
                p <= out@.len(),
                forall|i: int| 0 <= i < p ==> !text_lt(name@, #[trigger] out@[i]@),
                p < out@.len() ==> text_lt(name@, out@[p as int]@),
            decreases out@.len() - p,
        {
            if chars_lt(&key, &chars_of(out[p].as_str())) {
                break;
            }
            p = p + 1;
        }
        let ghost before = out@;
        out.insert(p, name.clone());
        proof {
            vstd::seq_lib::to_multiset_insert(before, p as int, name);
            vstd::seq_lib::to_multiset_build(names@.take(n as int), names@[n as int]);
            assert(names@.take(n + 1) == names@.take(n as int).push(names@[n as int]));
            assert(out@ == before.insert(p as int, name));
            assert forall|i: int, j: int| 0 <= i < j < out@.len() implies !text_lt(
                #[trigger] out@[j]@,
                #[trigger] out@[i]@,
            ) by {
                if j == p {
                    assert(out@[i] == before[i]);
                    assert(out@[j] == name);
                } else if i == p {
                    assert(out@[i] == name);
                    assert(out@[j] == before[j - 1]);
                    if text_lt(before[j - 1]@, name@) {
                        lemma_text_lt_transitive(before[j - 1]@, name@, before[p as int]@);
                        if j - 1 == p {
                            lemma_text_lt_irreflexive(before[p as int]@);
                        } else {
                            assert(!text_lt(before[j - 1]@, before[p as int]@));
                        }
                    }
                } else {
                    let bi = if i < p { i } else { i - 1 };
                    let bj = if j < p { j } else { j - 1 };
                    assert(out@[i] == before[bi]);
                    assert(out@[j] == before[bj]);
                    assert(!text_lt(before[bj]@, before[bi]@));
                }
            }
        }
        n = n + 1;
    }
    assert(names@.take(names@.len() as int) == names@);
    out
}

} // verus!
