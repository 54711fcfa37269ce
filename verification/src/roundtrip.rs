//! What reading gives back of what writing wrote: task files written from
//! tasks, tasks appended to a file, and items appended to the in-tray.
use vstd::prelude::*;
use crate::markdown::{
    header_text,
    appended_item_text, appended_task_text, checkbox_of, checkbox_text, ending_line, id_of,
    is_checkbox_start, is_clean, is_line_item, is_rule, is_writable, item_block, markdown_text,
    no_newline, parse_lines, parse_text, rule_index, task_markdowns, tasks_file_text, written_block,
    BlockView, Task,
};
use crate::text::{
    is_white_space, join_lines, lemma_lines_concat, lemma_lines_one, lemma_trim_first,
    lemma_trim_fixed, lines_of, strip_cr, strip_prefix, trimmed,
};

verus! {

broadcast use vstd::string::group_string_axioms;

/// The characters of the literals the format is written with.
proof fn reveal_literals()
    ensures
        "<!-- id:"@ == seq!['<', '!', '-', '-', ' ', 'i', 'd', ':'],
        " -->"@ == seq![' ', '-', '-', '>'],
        "---"@ == seq!['-', '-', '-'],
        "- "@ == seq!['-', ' '],
        "[x]"@ == seq!['[', 'x', ']'],
        "[ ]"@ == seq!['[', ' ', ']'],
        " "@ == seq![' '],
        "\n"@ == seq!['\n'],
        " -->\n---\n"@ == seq![' ', '-', '-', '>', '\n', '-', '-', '-', '\n'],
        "---\n- "@ == seq!['-', '-', '-', '\n', '-', ' '],
        "- [x] "@ == seq!['-', ' ', '[', 'x', ']', ' '],
        "- [ ] "@ == seq!['-', ' ', '[', ' ', ']', ' '],
{
    reveal_strlit("<!-- id:");
    reveal_strlit(" -->");
    reveal_strlit("---");
    reveal_strlit("- ");
    reveal_strlit("[x]");
    reveal_strlit("[ ]");
    reveal_strlit(" ");
    reveal_strlit("\n");
    reveal_strlit(" -->\n---\n");
    reveal_strlit("---\n- ");
    reveal_strlit("- [x] ");
    reveal_strlit("- [ ] ");
}

/// The id line of a block.
spec fn id_line(id: Seq<char>) -> Seq<char> {
    "<!-- id:"@ + id + " -->"@
}

/// The checkbox line of a block.
spec fn checkbox_line(done: bool, description: Seq<char>) -> Seq<char> {
    "- "@ + checkbox_text(done) + " "@ + description
}

proof fn lemma_rule_is_rule()
    ensures
        is_rule("---"@),
        "---"@.len() == 3,
        "---"@[0] == '-',
        "---"@[1] == '-',
{
    reveal_literals();
    lemma_trim_fixed("---"@);
}

/// A line starting with a character that is neither white space nor `-` is
/// no rule.
proof fn lemma_not_rule(line: Seq<char>)
    requires
        line.len() > 0,
        !is_white_space(line[0]),
        line[0] != '-',
    ensures
        !is_rule(line),
{
    lemma_trim_first(line);
    lemma_rule_is_rule();
}

proof fn lemma_empty_not_rule()
    ensures
        !is_rule(Seq::<char>::empty()),
        id_of(Seq::<char>::empty()) is None,
        !is_checkbox_start(Seq::<char>::empty()),
{
    reveal_literals();
    assert(trimmed(Seq::<char>::empty()) == Seq::<char>::empty());
}

proof fn lemma_rule_index_concat(a: Seq<Seq<char>>, b: Seq<Seq<char>>)
    ensures
        (forall|i: int| 0 <= i < a.len() ==> !is_rule(#[trigger] a[i])) ==> rule_index(a + b)
            == a.len() + rule_index(b),
        rule_index(a) < a.len() ==> rule_index(a + b) == rule_index(a),
    decreases a.len(),
{
    if a.len() == 0 {
        assert(a + b == b);
    } else {
        let ab = a + b;
        assert(ab[0] == a[0]);
        assert(ab.drop_first() == a.drop_first() + b);
        lemma_rule_index_concat(a.drop_first(), b);
        if forall|i: int| 0 <= i < a.len() ==> !is_rule(#[trigger] a[i]) {
            assert(!is_rule(a[0]));
            assert forall|i: int| 0 <= i < a.drop_first().len() implies !is_rule(
                #[trigger] a.drop_first()[i],
            ) by {
                assert(a.drop_first()[i] == a[i + 1]);
            }
        }
    }
}

/// Reading text after lines whose blocks are all closed reads the two parts
/// on their own, unless the second part starts with a rule.
proof fn lemma_parse_concat(a: Seq<Seq<char>>, b: Seq<Seq<char>>)
    requires
        is_clean(a),
        b.len() == 0 || !is_rule(b[0]),
    ensures
        parse_lines(a + b) == parse_lines(a) + parse_lines(b),
        is_clean(b) ==> is_clean(a + b),
    decreases a.len(),
{
    if a.len() == 0 {
        assert(a + b == b);
    } else {
        let ab = a + b;
        assert(ab[0] == a[0]);
        assert(ab.drop_first() == a.drop_first() + b);
        if id_of(a[0]) is Some && a.len() > 1 && is_rule(a[1]) {
            assert(ab[1] == a[1]);
            let rest = a.skip(2);
            let k = rule_index(rest) as int;
            assert(ab.skip(2) == rest + b);
            lemma_rule_index_concat(rest, b);
            assert((rest + b)[k + 1] == rest[k + 1]);
            assert((rest + b).take(k as int) == rest.take(k as int));
            assert((rest + b).skip(k + 2) == rest.skip(k + 2) + b);
            lemma_parse_concat(rest.skip(k + 2), b);
        } else if id_of(a[0]) is Some && a.len() == 1 {
            assert(a.drop_first() + b == b);
            assert(parse_lines(a.drop_first()) == Seq::<BlockView>::empty());
            if b.len() > 0 {
                assert(ab[1] == b[0]);
            }
        } else {
            if a.len() > 1 {
                assert(ab[1] == a[1]);
            }
            lemma_parse_concat(a.drop_first(), b);
        }
    }
}

/// A line that is neither an id line nor opens with a checkbox reads as
/// nothing.
proof fn lemma_parse_inert(line: Seq<char>, r: Seq<Seq<char>>)
    requires
        !is_checkbox_start(line),
        id_of(line) is None || r.len() == 0 || !is_rule(r[0]),
    ensures
        parse_lines(seq![line] + r) == parse_lines(r),
        is_clean(r) ==> is_clean(seq![line] + r),
{
    let ls = seq![line] + r;
    assert(ls[0] == line);
    assert(ls.drop_first() == r);
    if r.len() > 0 {
        assert(ls[1] == r[0]);
    }
}

/// A block read from its lines.
proof fn lemma_parse_block(
    id: Seq<char>,
    f: Seq<Seq<char>>,
    cb: Seq<char>,
    r: Seq<Seq<char>>,
)
    requires
        forall|i: int| 0 <= i < f.len() ==> !is_rule(#[trigger] f[i]),
    ensures
        ({
            let ls = seq![id_line(id), "---"@] + f + seq!["---"@, cb] + r;
            &&& parse_lines(ls) == seq![
                BlockView {
                    id: Some(id),
                    frontmatter: join_lines(f),
                    done: checkbox_of(cb).0,
                    description: checkbox_of(cb).1,
                },
            ] + parse_lines(r)
            &&& is_clean(r) ==> is_clean(ls)
        }),
{
    reveal_literals();
    lemma_rule_is_rule();
    let idl = id_line(id);
    let ls = seq![idl, "---"@] + f + seq!["---"@, cb] + r;
    assert(idl.take(8) == "<!-- id:"@);
    assert(idl.skip(8) == id + " -->"@);
    assert((id + " -->"@).skip(id.len() as int) == " -->"@);
    assert((id + " -->"@).take(id.len() as int) == id);
    assert(id_of(idl) == Some(id));
    assert(ls[0] == idl);
    assert(ls[1] == "---"@);
    let rest = ls.skip(2);
    assert(rest == f + (seq!["---"@, cb] + r));
    lemma_rule_index_concat(f, seq!["---"@, cb] + r);
    assert((seq!["---"@, cb] + r)[0] == "---"@);
    assert(rule_index(seq!["---"@, cb] + r) == 0);
    let k = rule_index(rest) as int;
    assert(k == f.len());
    assert(rest[k + 1] == cb);
    assert(rest.take(k as int) == f);
    assert(rest.skip(k + 2) == r);
}

/// The lines of a written block.
proof fn lemma_markdown_lines(t: Task, fm: Seq<char>)
    requires
        is_writable(t, fm),
    ensures
        lines_of(markdown_text(t.meta.id@, fm, t.done, t.description@)) == seq![
            id_line(t.meta.id@),
            "---"@,
        ] + lines_of(fm) + seq!["---"@, checkbox_line(t.done, t.description@)],
        checkbox_of(checkbox_line(t.done, t.description@)) == (t.done, t.description@),
{
    reveal_literals();
    let id = t.meta.id@;
    let d = t.description@;
    let idl = id_line(id);
    let cbl = checkbox_line(t.done, d);
    let p1 = idl.push('\n');
    let p2 = "---"@.push('\n');
    let p4 = cbl.push('\n');
    assert(markdown_text(id, fm, t.done, d) == p1 + (p2 + (fm + (p2 + p4))));
    assert forall|i: int| 0 <= i < idl.len() implies idl[i] != '\n' by {
        if 8 <= i < 8 + id.len() {
            assert(idl[i] == id[i - 8]);
        }
    }
    assert forall|i: int| 0 <= i < cbl.len() implies cbl[i] != '\n' by {
        if 6 <= i {
            assert(cbl[i] == d[i - 6]);
        }
    }
    lemma_lines_one(idl);
    lemma_lines_one("---"@);
    lemma_lines_one(cbl);
    assert(cbl.last() == d.last());
    assert(strip_cr(idl) == idl);
    assert(strip_cr("---"@) == "---"@);
    assert(strip_cr(cbl) == cbl);
    lemma_lines_concat(p2, p4);
    lemma_lines_concat(fm, p2 + p4);
    lemma_lines_concat(p2, fm + (p2 + p4));
    lemma_lines_concat(p1, p2 + (fm + (p2 + p4)));
    lemma_trim_fixed(cbl);
    if t.done {
        assert(cbl.take(6) == "- [x] "@);
        assert(cbl.skip(6) == d);
    } else {
        assert(cbl[3] != "- [x] "@[3]);
        assert(cbl.take(6) != "- [x] "@);
        assert(cbl.take(6) == "- [ ] "@);
        assert(cbl.skip(6) == d);
    }
}

/// A written block, followed by a blank line, reads as its task.
proof fn lemma_block_reads_back(t: Task, fm: Seq<char>, r: Seq<Seq<char>>)
    requires
        is_writable(t, fm),
        is_clean(r),
        r.len() == 0 || !is_rule(r[0]),
    ensures
        ({
            let ls = lines_of(markdown_text(t.meta.id@, fm, t.done, t.description@)) + r;
            &&& parse_lines(ls) == seq![written_block(t, fm)] + parse_lines(r)
            &&& is_clean(ls)
            &&& ls.len() > 0
            &&& !is_rule(ls[0])
        }),
{
    reveal_literals();
    lemma_markdown_lines(t, fm);
    let f = lines_of(fm);
    let cbl = checkbox_line(t.done, t.description@);
    lemma_parse_block(t.meta.id@, f, cbl, r);
    let ls = seq![id_line(t.meta.id@), "---"@] + f + seq!["---"@, cbl];
    assert(ls + r == seq![id_line(t.meta.id@), "---"@] + f + seq!["---"@, cbl] + r);
    assert((ls + r)[0] == id_line(t.meta.id@));
    assert(id_line(t.meta.id@)[0] == '<');
    lemma_not_rule(id_line(t.meta.id@));
}

proof fn lemma_file_prefix(header: Seq<char>, tasks: Seq<Task>, fms: Seq<Seq<char>>, n: int)
    requires
        tasks.len() == fms.len(),
        0 <= n <= tasks.len(),
        no_newline(header),
        !is_checkbox_start(strip_cr(header)),
        forall|i: int| 0 <= i < tasks.len() ==> is_writable(#[trigger] tasks[i], fms[i]),
    ensures
        ({
            let text = tasks_file_text(header, task_markdowns(tasks, fms).take(n));
            &&& parse_text(text) == Seq::new(n as nat, |i: int| written_block(tasks[i], fms[i]))
            &&& is_clean(lines_of(text))
            &&& text.len() > 0
            &&& text.last() == '\n'
        }),
    decreases n,
{
    reveal_literals();
    let mds = task_markdowns(tasks, fms);
    let text = tasks_file_text(header, mds.take(n));
    if n == 0 {
        assert(mds.take(0) == Seq::<Seq<char>>::empty());
        assert(text == header.push('\n'));
        lemma_lines_one(header);
        let h = strip_cr(header);
        lemma_parse_inert(h, Seq::<Seq<char>>::empty());
        assert(seq![h] + Seq::<Seq<char>>::empty() == seq![h]);
        assert(Seq::new(0, |i: int| written_block(tasks[i], fms[i])) == Seq::<BlockView>::empty());
    } else {
        lemma_file_prefix(header, tasks, fms, n - 1);
        let prev = tasks_file_text(header, mds.take(n - 1));
        assert(mds.take(n).drop_last() == mds.take(n - 1));
        let md = mds[n - 1];
        assert(mds.take(n).last() == md);
        let t = tasks[n - 1];
        let fm = fms[n - 1];
        assert(is_writable(t, fm));
        assert(md == markdown_text(t.meta.id@, fm, t.done, t.description@));
        assert(md.last() == '\n');
        assert(text == prev + (md + "\n"@));
        lemma_lines_concat(prev, md + "\n"@);
        lemma_lines_concat(md, "\n"@);
        assert("\n"@ == Seq::<char>::empty().push('\n'));
        lemma_lines_one(Seq::<char>::empty());
        let blank: Seq<Seq<char>> = seq![Seq::<char>::empty()];
        assert(strip_cr(Seq::<char>::empty()) == Seq::<char>::empty());
        lemma_empty_not_rule();
        lemma_parse_inert(Seq::<char>::empty(), Seq::<Seq<char>>::empty());
        assert(blank == seq![Seq::<char>::empty()] + Seq::<Seq<char>>::empty());
        lemma_block_reads_back(t, fm, blank);
        let bl = lines_of(md) + blank;
        lemma_parse_concat(lines_of(prev), bl);
        assert(Seq::new(n as nat, |i: int| written_block(tasks[i], fms[i])) == Seq::new(
            (n - 1) as nat,
            |i: int| written_block(tasks[i], fms[i]),
        ) + seq![written_block(t, fm)]);
        assert(text.last() == '\n');
    }
}

/// Reading a task file written from `tasks`, the `i`th with serialized
/// frontmatter `fms[i]`, gives back each task's id, frontmatter lines, done
/// state and description, in order; the text written ends with a line
/// break and leaves no block open, so tasks can be appended to it.
pub proof fn law_written_file_reads_back(header: Seq<char>, tasks: Seq<Task>, fms: Seq<Seq<char>>)
    requires
        tasks.len() == fms.len(),
        no_newline(header),
        !is_checkbox_start(strip_cr(header)),
        forall|i: int| 0 <= i < tasks.len() ==> is_writable(#[trigger] tasks[i], fms[i]),
    ensures
        ({
            let text = tasks_file_text(header, task_markdowns(tasks, fms));
            &&& parse_text(text) == Seq::new(tasks.len(), |i: int| written_block(tasks[i], fms[i]))
            &&& is_clean(lines_of(text))
            &&& text.last() == '\n'
        }),
{
    lemma_file_prefix(header, tasks, fms, tasks.len() as int);
    assert(task_markdowns(tasks, fms).take(tasks.len() as int) == task_markdowns(tasks, fms));
}

proof fn lemma_ending_line(existing: Seq<char>)
    requires
        existing.len() == 0 || existing.last() == '\n',
        is_clean(lines_of(existing)),
    ensures
        parse_lines(lines_of(ending_line(existing))) == parse_text(existing),
        is_clean(lines_of(ending_line(existing))),
        ending_line(existing).len() > 0,
        ending_line(existing).last() == '\n',
{
    if existing.len() == 0 {
        assert(ending_line(existing) == Seq::<char>::empty().push('\n'));
        lemma_lines_one(Seq::<char>::empty());
        assert(strip_cr(Seq::<char>::empty()) == Seq::<char>::empty());
        lemma_empty_not_rule();
        lemma_parse_inert(Seq::<char>::empty(), Seq::<Seq<char>>::empty());
        assert(seq![Seq::<char>::empty()] + Seq::<Seq<char>>::empty() == seq![
            Seq::<char>::empty(),
        ]);
        assert(lines_of(existing) == Seq::<Seq<char>>::empty());
    }
}

/// Appending a task to a task file that ends with a line break and leaves no
/// block open reads back as the file's tasks followed by that task; the
/// result again ends with a line break and leaves no block open.
pub proof fn law_appended_task_reads_back(existing: Seq<char>, t: Task, fm: Seq<char>)
    requires
        existing.len() == 0 || existing.last() == '\n',
        is_clean(lines_of(existing)),
        is_writable(t, fm),
    ensures
        ({
            let text = appended_task_text(
                existing,
                markdown_text(t.meta.id@, fm, t.done, t.description@),
            );
            &&& parse_text(text) == parse_text(existing).push(written_block(t, fm))
            &&& is_clean(lines_of(text))
            &&& text.last() == '\n'
        }),
{
    reveal_literals();
    let md = markdown_text(t.meta.id@, fm, t.done, t.description@);
    let e = ending_line(existing);
    let text = appended_task_text(existing, md);
    lemma_ending_line(existing);
    assert("\n"@ == Seq::<char>::empty().push('\n'));
    assert(text == e + ("\n"@ + md));
    lemma_lines_concat(e, "\n"@ + md);
    lemma_lines_concat("\n"@, md);
    lemma_lines_one(Seq::<char>::empty());
    assert(strip_cr(Seq::<char>::empty()) == Seq::<char>::empty());
    lemma_empty_not_rule();
    lemma_block_reads_back(t, fm, Seq::<Seq<char>>::empty());
    assert(lines_of(md) + Seq::<Seq<char>>::empty() == lines_of(md));
    let bl = seq![Seq::<char>::empty()] + lines_of(md);
    lemma_parse_inert(Seq::<char>::empty(), lines_of(md));
    assert(bl[0] == Seq::<char>::empty());
    lemma_parse_concat(lines_of(e), bl);
    assert(md.last() == '\n');
    assert(text.last() == md.last());
}

/// Appending an item to an in-tray that ends with a line break and leaves no
/// block open reads back as the in-tray's items followed by that item; the
/// result again ends with a line break and leaves no block open.
pub proof fn law_appended_item_reads_back(existing: Seq<char>, description: Seq<char>)
    requires
        existing.len() == 0 || existing.last() == '\n',
        is_clean(lines_of(existing)),
        is_line_item(description),
    ensures
        ({
            let text = appended_item_text(existing, description);
            &&& parse_text(text) == parse_text(existing).push(item_block(description))
            &&& is_clean(lines_of(text))
            &&& text.last() == '\n'
        }),
{
    reveal_literals();
    let e = ending_line(existing);
    let line = "- [ ] "@ + description;
    let text = appended_item_text(existing, description);
    lemma_ending_line(existing);
    assert(text == e + line.push('\n'));
    assert forall|i: int| 0 <= i < line.len() implies line[i] != '\n' by {
        if 6 <= i {
            assert(line[i] == description[i - 6]);
        }
    }
    lemma_lines_concat(e, line.push('\n'));
    lemma_lines_one(line);
    assert(line.last() == description.last());
    assert(strip_cr(line) == line);
    lemma_trim_fixed(line);
    lemma_rule_is_rule();
    assert(line[1] != "---"@[1]);
    assert(!is_rule(line));
    assert(line.take(6) == "- [ ] "@);
    assert(is_checkbox_start(line));
    assert(line[3] != "- [x] "@[3]);
    assert(line.take(6) != "- [x] "@);
    assert(line.skip(6) == description);
    assert(checkbox_of(line) == (false, description));
    assert(strip_prefix(line, "<!-- id:"@) is None) by {
        if line.len() >= 8 {
            assert(line.take(8)[0] != "<!-- id:"@[0]);
        }
    }
    assert(id_of(line) is None);
    let one = seq![line];
    assert(one.drop_first() == Seq::<Seq<char>>::empty());
    assert(one[0] == line);
    assert(parse_lines(one) == seq![item_block(description)] + parse_lines(Seq::<Seq<char>>::empty()));
    assert(parse_lines(one) == seq![item_block(description)]);
    assert(is_clean(one.drop_first()));
    assert(is_clean(one));
    assert(lines_of(text) == lines_of(e) + one);
    lemma_parse_concat(lines_of(e), one);
    assert(parse_text(text) == parse_text(existing) + seq![item_block(description)]);
    assert(text.last() == '\n');
}

proof fn lemma_file_starts_with_header(header: Seq<char>, mds: Seq<Seq<char>>)
    ensures
        tasks_file_text(header, mds).len() >= header.len() + 1,
        tasks_file_text(header, mds).take(header.len() + 1int) == header.push('\n'),
    decreases mds.len(),
{
    reveal_literals();
    if mds.len() > 0 {
        lemma_file_starts_with_header(header, mds.drop_last());
        let prev = tasks_file_text(header, mds.drop_last());
        let text = tasks_file_text(header, mds);
        assert(text == prev + mds.last() + "\n"@);
        assert(text.take(header.len() + 1int) == prev.take(header.len() + 1int));
    } else {
        assert(header + "\n"@ == header.push('\n'));
    }
}

/// Writing a task file keeps its header: reading the header of the written
/// text gives back the header line it was written with.
pub proof fn law_written_file_keeps_header(header: Seq<char>, mds: Seq<Seq<char>>)
    requires
        no_newline(header),
    ensures
        header_text(Some(tasks_file_text(header, mds))) == strip_cr(header),
{
    let text = tasks_file_text(header, mds);
    lemma_file_starts_with_header(header, mds);
    let first = header.push('\n');
    let rest = text.skip(header.len() + 1int);
    assert(text == first + rest);
    lemma_lines_concat(first, rest);
    lemma_lines_one(header);
}

} // verus!
