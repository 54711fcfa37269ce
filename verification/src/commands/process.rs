//! `gtd process`: each in-tray item walked through the GTD decision tree.
//! The prompts are asked elsewhere; here each answer is turned into the next
//! prompt or into what becomes of the item.
use vstd::prelude::*;
use vstd::string::StringExecFns;
use crate::gtd::{
    archive_file, project_tasks_file, segments, someday_maybe_file, tasks_file, waiting_for_file,
};
use crate::markdown::{
    appended_item_text, ending_line, is_checkbox_start, is_clean, is_hex_digit, is_line_item,
    item_block, parse_text, tasks_file_text, task_markdowns, Task,
};
use crate::roundtrip::{law_appended_item_reads_back, law_written_file_reads_back};
use crate::text::{lines_of, push_str, strip_cr, string_views};

verus! {

broadcast use vstd::string::group_string_axioms;

/// A question asked of an item.
#[derive(Clone, Copy, Debug, PartialEq, Eq, Structural)]
pub enum Prompt {
    /// Is it actionable? Yes, No, Skip, Quit.
    Actionable,
    /// What to do with it? Trash it, Someday/Maybe, Reference.
    NotActionable,
    /// Can you do it in under 2 minutes? Yes, No.
    TwoMinute,
    /// Should someone else do it? Yes, No.
    Delegate,
    /// Add to which list? Next Actions, then each project.
    Destination,
}

/// What becomes of an item.
#[derive(Clone, Copy, Debug, PartialEq, Eq, Structural)]
pub enum ItemAction {
    Trash,
    SomedayMaybe,
    Reference,
    Skip,
    Quit,
    /// Done on the spot and archived.
    DoneNow,
    /// Handed to someone and put on the waiting-for list.
    Delegate,
    NextActions,
    /// Added to the project with this index.
    Project(usize),
    /// An answer that leads nowhere.
    Nothing,
}

/// The next step after an answer.
#[derive(Clone, Copy, Debug, PartialEq, Eq, Structural)]
pub enum Step {
    Ask(Prompt),
    Finish(ItemAction),
}

/// How processing goes on after an item.
#[derive(Clone, Copy, Debug, PartialEq, Eq, Structural)]
pub enum Outcome {
    /// The item was dealt with.
    Done,
    /// The item stays for now.
    Skip,
    /// Processing stops here.
    Quit,
}

/// The step that answer `choice` (the index of the option picked) to
/// `prompt` leads to, with `project_count` projects to add to.
pub open spec fn next_step(prompt: Prompt, choice: nat, project_count: nat) -> Step {
    match prompt {
        Prompt::Actionable => if choice == 1 {
            Step::Ask(Prompt::NotActionable)
        } else if choice == 2 {
            Step::Finish(ItemAction::Skip)
        } else if choice == 3 {
            Step::Finish(ItemAction::Quit)
        } else {
            Step::Ask(Prompt::TwoMinute)
        },
        Prompt::NotActionable => if choice == 0 {
            Step::Finish(ItemAction::Trash)
        } else if choice == 1 {
            Step::Finish(ItemAction::SomedayMaybe)
        } else if choice == 2 {
            Step::Finish(ItemAction::Reference)
        } else {
            Step::Finish(ItemAction::Nothing)
        },
        Prompt::TwoMinute => if choice == 0 {
            Step::Finish(ItemAction::DoneNow)
        } else {
            Step::Ask(Prompt::Delegate)
        },
        Prompt::Delegate => if choice == 0 {
            Step::Finish(ItemAction::Delegate)
        } else {
            Step::Ask(Prompt::Destination)
        },
        Prompt::Destination => if choice == 0 {
            Step::Finish(ItemAction::NextActions)
        } else if choice - 1 < project_count {
            Step::Finish(ItemAction::Project((choice - 1) as usize))
        } else {
            Step::Finish(ItemAction::Nothing)
        },
    }
}

/// The step that an answer leads to (see [`next_step`]).
pub fn decide(prompt: Prompt, choice: usize, project_count: usize) -> (s: Step)
    ensures
        s == next_step(prompt, choice as nat, project_count as nat),
{
    match prompt {
        Prompt::Actionable => if choice == 1 {
            Step::Ask(Prompt::NotActionable)
        } else if choice == 2 {
            Step::Finish(ItemAction::Skip)
        } else if choice == 3 {
            Step::Finish(ItemAction::Quit)
        } else {
            Step::Ask(Prompt::TwoMinute)
        },
        Prompt::NotActionable => if choice == 0 {
            Step::Finish(ItemAction::Trash)
        } else if choice == 1 {
            Step::Finish(ItemAction::SomedayMaybe)
        } else if choice == 2 {
            Step::Finish(ItemAction::Reference)
        } else {
            Step::Finish(ItemAction::Nothing)
        },
        Prompt::TwoMinute => if choice == 0 {
            Step::Finish(ItemAction::DoneNow)
        } else {
            Step::Ask(Prompt::Delegate)
        },
        Prompt::Delegate => if choice == 0 {
            Step::Finish(ItemAction::Delegate)
        } else {
            Step::Ask(Prompt::Destination)
        },
        Prompt::Destination => if choice == 0 {
            Step::Finish(ItemAction::NextActions)
        } else if choice - 1 < project_count {
            Step::Finish(ItemAction::Project(choice - 1))
        } else {
            Step::Finish(ItemAction::Nothing)
        },
    }
}

/// The prompts in the order they can be asked.
pub open spec fn prompt_rank(p: Prompt) -> nat {
    match p {
        Prompt::Actionable => 0,
        Prompt::NotActionable => 4,
        Prompt::TwoMinute => 1,
        Prompt::Delegate => 2,
        Prompt::Destination => 3,
    }
}

/// Every answer moves on to a later prompt or ends the walk, so an item is
/// asked at most four questions; the not-actionable and destination prompts
/// always end it.
pub proof fn law_walk_ends(prompt: Prompt, choice: nat, project_count: nat)
    ensures
        next_step(prompt, choice, project_count) matches Step::Ask(q) ==> prompt_rank(q)
            > prompt_rank(prompt),
        prompt == Prompt::NotActionable || prompt == Prompt::Destination ==> next_step(
            prompt,
            choice,
            project_count,
        ) is Finish,
{
}

/// How many options `prompt` offers, with `project_count` projects.
pub open spec fn option_count(prompt: Prompt, project_count: nat) -> nat {
    match prompt {
        Prompt::Actionable => 4,
        Prompt::NotActionable => 3,
        Prompt::TwoMinute => 2,
        Prompt::Delegate => 2,
        Prompt::Destination => project_count + 1,
    }
}

/// An action that puts the item on a list.
pub open spec fn files_on_a_list(action: ItemAction) -> bool {
    match action {
        ItemAction::DoneNow | ItemAction::SomedayMaybe | ItemAction::Delegate
        | ItemAction::NextActions | ItemAction::Project(_) => true,
        _ => false,
    }
}

/// Every option offered leads on: to another prompt or to an action, never
/// to nothing. Only trashing, keeping as reference, skipping and stopping
/// leave an item off every list; every other offered answer that ends the
/// walk files it.
pub proof fn law_every_option_leads_somewhere(prompt: Prompt, choice: nat, project_count: nat)
    requires
        choice < option_count(prompt, project_count),
        project_count <= usize::MAX,
    ensures
        next_step(prompt, choice, project_count) != Step::Finish(ItemAction::Nothing),
        next_step(prompt, choice, project_count) matches Step::Finish(a) ==> (files_on_a_list(a)
            || a == ItemAction::Trash || a == ItemAction::Reference || a == ItemAction::Skip || a
            == ItemAction::Quit),
{
}

/// At "Add to which list?" the first option, Next Actions, files the item on
/// the next-actions list and option `k` (from 1) on the `k`-th project; only
/// an answer past the last project files nothing.
pub proof fn law_destination_options(choice: nat, project_count: nat)
    requires
        project_count <= usize::MAX,
    ensures
        choice == 0 ==> next_step(Prompt::Destination, choice, project_count) == Step::Finish(
            ItemAction::NextActions,
        ),
        1 <= choice <= project_count ==> next_step(Prompt::Destination, choice, project_count)
            == Step::Finish(ItemAction::Project((choice - 1) as usize)),
        next_step(Prompt::Destination, choice, project_count) == Step::Finish(ItemAction::Nothing)
            <==> choice > project_count,
{
}

/// The action that answering `answers` in turn, starting at `prompt`,
/// ends with; `None` where the answers run out before the walk ends.
pub open spec fn walk(prompt: Prompt, answers: Seq<nat>, project_count: nat) -> Option<ItemAction>
    decreases answers.len(),
{
    if answers.len() == 0 {
        None
    } else {
        match next_step(prompt, answers[0], project_count) {
            Step::Finish(a) => Some(a),
            Step::Ask(q) => walk(q, answers.drop_first(), project_count),
        }
    }
}

/// The paths through the decision tree, from "Is it actionable?": Yes then
/// "under 2 minutes" does it now; Yes, longer, "someone else" delegates it;
/// Yes, longer, "I'll do it" puts it on Next Actions or on project `k`; No
/// then trashes it, makes it someday/maybe or keeps it as reference; Skip
/// skips it and Quit stops.
pub proof fn law_decision_paths(n: nat, k: nat)
    requires
        k < n,
        n <= usize::MAX,
    ensures
        walk(Prompt::Actionable, seq![0nat, 0nat], n) == Some(ItemAction::DoneNow),
        walk(Prompt::Actionable, seq![0nat, 1nat, 0nat], n) == Some(ItemAction::Delegate),
        walk(Prompt::Actionable, seq![0nat, 1nat, 1nat, 0nat], n) == Some(ItemAction::NextActions),
        walk(Prompt::Actionable, seq![0nat, 1nat, 1nat, k + 1], n) == Some(
            ItemAction::Project(k as usize),
        ),
        walk(Prompt::Actionable, seq![1nat, 0nat], n) == Some(ItemAction::Trash),
        walk(Prompt::Actionable, seq![1nat, 1nat], n) == Some(ItemAction::SomedayMaybe),
        walk(Prompt::Actionable, seq![1nat, 2nat], n) == Some(ItemAction::Reference),
        walk(Prompt::Actionable, seq![2nat], n) == Some(ItemAction::Skip),
        walk(Prompt::Actionable, seq![3nat], n) == Some(ItemAction::Quit),
{
    reveal_with_fuel(walk, 5);
    assert(seq![0nat, 0nat].drop_first() == seq![0nat]);
    assert(seq![0nat, 1nat, 0nat].drop_first() == seq![1nat, 0nat]);
    assert(seq![1nat, 0nat].drop_first() == seq![0nat]);
    assert(seq![0nat, 1nat, 1nat, 0nat].drop_first() == seq![1nat, 1nat, 0nat]);
    assert(seq![1nat, 1nat, 0nat].drop_first() == seq![1nat, 0nat]);
    assert(seq![0nat, 1nat, 1nat, k + 1].drop_first() == seq![1nat, 1nat, k + 1]);
    assert(seq![1nat, 1nat, k + 1].drop_first() == seq![1nat, k + 1]);
    assert(seq![1nat, k + 1].drop_first() == seq![k + 1]);
    assert(seq![1nat, 1nat].drop_first() == seq![1nat]);
    assert(seq![1nat, 2nat].drop_first() == seq![2nat]);
}

/// How processing goes on after an item met `action`.
pub fn outcome_of(action: ItemAction) -> (o: Outcome)
    ensures
        action == ItemAction::Skip ==> o == Outcome::Skip,
        action == ItemAction::Quit ==> o == Outcome::Quit,
        action != ItemAction::Skip && action != ItemAction::Quit ==> o == Outcome::Done,
{
    match action {
        ItemAction::Skip => Outcome::Skip,
        ItemAction::Quit => Outcome::Quit,
        _ => Outcome::Done,
    }
}

/// The options of the destination prompt: `Next Actions`, then
/// `Project: NAME` for each project.
pub fn destinations(projects: &[String]) -> (d: Vec<String>)
    ensures
        d@.len() == projects@.len() + 1,
        d@[0]@ == "Next Actions"@,
        forall|i: int| 0 <= i < projects@.len() ==> #[trigger] d@[i + 1]@ == "Project: "@ + projects@[i]@,
{
    let mut d = Vec::new();
    d.push(String::from_str("Next Actions"));
    let mut i: usize = 0;
    while i < projects.len()
        invariant
            i <= projects@.len(),
            d@.len() == i + 1,
            d@[0]@ == "Next Actions"@,
            forall|k: int| 0 <= k < i ==> #[trigger] d@[k + 1]@ == "Project: "@ + projects@[k]@,
        decreases projects@.len() - i,
    {
        let mut s = String::from_str("Project: ");
        push_str(&mut s, projects[i].as_str());
        d.push(s);
        i = i + 1;
    }
    d
}

/// A task to write and the list file it goes to.
pub struct Filing {
    pub file: Vec<String>,
    pub task: Task,
}

/// Where an item goes when `action` became of it, and as what task: done
/// now to the archive, ticked; someday/maybe, delegated (to `person`) and
/// next actions to their lists; a project to the project's list, where the
/// index names one. Nothing is written for the other actions.
pub fn file_item(action: ItemAction, item: &str, person: &str, projects: &[String]) -> (r: Option<
    Filing,
>)
    ensures
        match r {
            Some(f) => {
                &&& f.task.description@ == item@
                &&& f.task.meta.id@.len() == 8
                &&& forall|i: int| 0 <= i < 8 ==> is_hex_digit(#[trigger] f.task.meta.id@[i])
                &&& 1 <= f.task.meta.created.month <= 12
                &&& 1 <= f.task.meta.created.day <= 31
                &&& !f.task.meta.reminder && !f.task.meta.in_calendar
                &&& f.task.meta.due is None
                &&& match action {
                    ItemAction::DoneNow => f.task.done && segments(f.file@) == seq!["archive.md"@]
                        && f.task.meta.delegated_to is None,
                    ItemAction::SomedayMaybe => !f.task.done && segments(f.file@) == seq![
                        "someday-maybe.md"@,
                    ] && f.task.meta.delegated_to is None,
                    ItemAction::Delegate => !f.task.done && segments(f.file@) == seq![
                        "waiting-for.md"@,
                    ] && (f.task.meta.delegated_to matches Some(p) && p@ == person@),
                    ItemAction::NextActions => !f.task.done && segments(f.file@) == seq![
                        "tasks.md"@,
                    ] && f.task.meta.delegated_to is None,
                    ItemAction::Project(i) => !f.task.done && i < projects@.len() && segments(
                        f.file@,
                    ) == seq!["projects"@, projects@[i as int]@, "tasks.md"@]
                        && f.task.meta.delegated_to is None,
                    _ => false,
                }
            },
            None => match action {
                ItemAction::DoneNow | ItemAction::SomedayMaybe | ItemAction::Delegate
                | ItemAction::NextActions => false,
                ItemAction::Project(i) => i >= projects@.len(),
                _ => true,
            },
        },
{
    match action {
        ItemAction::DoneNow => {
            let mut task = Task::new(String::from_str(item));
            task.done = true;
            Some(Filing { file: archive_file(), task })
        },
        ItemAction::SomedayMaybe => Some(
            Filing { file: someday_maybe_file(), task: Task::new(String::from_str(item)) },
        ),
        ItemAction::Delegate => {
            let mut task = Task::new(String::from_str(item));
            task.meta.delegated_to = Some(String::from_str(person));
            Some(Filing { file: waiting_for_file(), task })
        },
        ItemAction::NextActions => Some(
            Filing { file: tasks_file(), task: Task::new(String::from_str(item)) },
        ),
        ItemAction::Project(i) => {
            if i < projects.len() {
                Some(
                    Filing {
                        file: project_tasks_file(projects[i].as_str()),
                        task: Task::new(String::from_str(item)),
                    },
                )
            } else {
                None
            }
        },
        _ => None,
    }
}

/// An in-tray holding `items` as bare checkbox lines under its header.
pub open spec fn intray_text(items: Seq<Seq<char>>) -> Seq<char>
    decreases items.len(),
{
    if items.len() == 0 {
        "# In-Tray\n"@
    } else {
        intray_text(items.drop_last()) + "- [ ] "@ + items.last() + "\n"@
    }
}

/// What stays in the in-tray of `items` once the first of them met
/// `outcomes`, one each, in order: an item dealt with leaves it, a skipped
/// one stays, and from the item at which processing stopped (or the first
/// one not reached) on, every item stays.
pub open spec fn kept(items: Seq<Seq<char>>, outcomes: Seq<Outcome>) -> Seq<Seq<char>>
    decreases items.len(),
{
    if items.len() == 0 {
        seq![]
    } else if outcomes.len() == 0 {
        items
    } else {
        match outcomes[0] {
            Outcome::Done => kept(items.drop_first(), outcomes.drop_first()),
            Outcome::Skip => seq![items[0]] + kept(items.drop_first(), outcomes.drop_first()),
            Outcome::Quit => items,
        }
    }
}

/// Processing did not stop at any of `outcomes`.
pub open spec fn no_quit(outcomes: Seq<Outcome>) -> bool {
    forall|k: int| 0 <= k < outcomes.len() ==> #[trigger] outcomes[k] != Outcome::Quit
}

/// Where no item of `a` stopped processing, what stays of `a + b` is what
/// stays of `a`, then what stays of `b`.
proof fn lemma_kept_split(
    a: Seq<Seq<char>>,
    oa: Seq<Outcome>,
    b: Seq<Seq<char>>,
    ob: Seq<Outcome>,
)
    requires
        a.len() == oa.len(),
        no_quit(oa),
    ensures
        kept(a + b, oa + ob) == kept(a, oa) + kept(b, ob),
    decreases a.len(),
{
    if a.len() > 0 {
        assert(oa[0] != Outcome::Quit);
        assert forall|k: int| 0 <= k < oa.drop_first().len() implies #[trigger] oa.drop_first()[k]
            != Outcome::Quit by {
            assert(oa.drop_first()[k] == oa[k + 1]);
        }
        lemma_kept_split(a.drop_first(), oa.drop_first(), b, ob);
        assert((a + b).drop_first() == a.drop_first() + b);
        assert((oa + ob).drop_first() == oa.drop_first() + ob);
        assert((a + b)[0] == a[0]);
        assert((oa + ob)[0] == oa[0]);
    } else {
        assert(a + b == b);
        assert(oa + ob == ob);
    }
}

/// Every item that stays is one of `items`.
proof fn lemma_kept_within(items: Seq<Seq<char>>, outcomes: Seq<Outcome>)
    ensures
        forall|i: int| 0 <= i < kept(items, outcomes).len() ==> items.contains(
            #[trigger] kept(items, outcomes)[i],
        ),
    decreases items.len(),
{
    if items.len() > 0 && outcomes.len() > 0 && outcomes[0] != Outcome::Quit {
        let rest = items.drop_first();
        lemma_kept_within(rest, outcomes.drop_first());
        assert forall|i: int| 0 <= i < kept(items, outcomes).len() implies items.contains(
            #[trigger] kept(items, outcomes)[i],
        ) by {
            let k = kept(rest, outcomes.drop_first());
            if outcomes[0] == Outcome::Skip && i == 0 {
                assert(items[0] == kept(items, outcomes)[i]);
            } else {
                let j = if outcomes[0] == Outcome::Skip {
                    i - 1
                } else {
                    i
                };
                assert(kept(items, outcomes)[i] == k[j]);
                let w = choose|w: int| 0 <= w < rest.len() && rest[w] == k[j];
                assert(items[w + 1] == rest[w]);
            }
        }
    } else if items.len() > 0 {
        assert forall|i: int| 0 <= i < kept(items, outcomes).len() implies items.contains(
            #[trigger] kept(items, outcomes)[i],
        ) by {
            assert(kept(items, outcomes)[i] == items[i]);
        }
    }
}

/// Appends `- [ ] ITEM` and a line break for each of `items[from..]`.
fn push_intray_lines(s: &mut String, items: &[String], from: usize)
    requires
        from <= items@.len(),
    ensures
        forall|k: Seq<Seq<char>>| old(s)@ == #[trigger] intray_text(k) ==> final(s)@ == intray_text(
            k + string_views(items@).skip(from as int),
        ),
{
    let ghost all = string_views(items@);
    let ghost start = s@;
    let mut i: usize = from;
    while i < items.len()
        invariant
            from <= i <= items@.len(),
            all == string_views(items@),
            forall|k: Seq<Seq<char>>| start == #[trigger] intray_text(k) ==> s@ == intray_text(
                k + all.subrange(from as int, i as int),
            ),
        decreases items@.len() - i,
    {
        push_str(s, "- [ ] ");
        push_str(s, items[i].as_str());
        push_str(s, "\n");
        assert forall|k: Seq<Seq<char>>| start == #[trigger] intray_text(k) implies s@ == intray_text(
            k + all.subrange(from as int, i + 1),
        ) by {
            let next = k + all.subrange(from as int, i + 1);
            assert(next.drop_last() == k + all.subrange(from as int, i as int));
            assert(next.last() == items@[i as int]@);
        }
        i = i + 1;
    }
    assert(all.subrange(from as int, items@.len() as int) == all.skip(from as int));
}

/// The in-tray text after a run over `items` in which the first of them met
/// `outcomes`, in order (see [`kept`]): what is to be written back.
pub fn intray_after(items: &[String], outcomes: &[Outcome]) -> (s: String)
    ensures
        s@ == intray_text(kept(string_views(items@), outcomes@)),
{
    let ghost all = string_views(items@);
    let ghost outs = outcomes@;
    let mut s = String::from_str("# In-Tray\n");
    let ghost mut acc: Seq<Seq<char>> = seq![];
    let mut i: usize = 0;
    while i < items.len()
        invariant
            i <= items@.len(),
            i <= outs.len(),
            all == string_views(items@),
            outs == outcomes@,
            no_quit(outs.take(i as int)),
            acc == kept(all.take(i as int), outs.take(i as int)),
            s@ == intray_text(acc),
        ensures
            i <= items@.len(),
            i <= outs.len(),
            no_quit(outs.take(i as int)),
            acc == kept(all.take(i as int), outs.take(i as int)),
            s@ == intray_text(acc),
            i < items@.len() ==> i == outs.len() || outs[i as int] == Outcome::Quit,
        decreases items@.len() - i,
    {
        if i >= outcomes.len() {
            break;
        }
        let o = outcomes[i];
        if o == Outcome::Quit {
            break;
        }
        let ghost prev = acc;
        if o == Outcome::Skip {
            push_str(&mut s, "- [ ] ");
            push_str(&mut s, items[i].as_str());
            push_str(&mut s, "\n");
            proof {
                acc = acc.push(all[i as int]);
                assert(acc.drop_last() == prev);
            }
        }
        proof {
            let one = seq![all[i as int]];
            let o1 = seq![outs[i as int]];
            lemma_kept_split(all.take(i as int), outs.take(i as int), one, o1);
            assert(all.take(i + 1) == all.take(i as int) + one);
            assert(outs.take(i + 1) == outs.take(i as int) + o1);
            assert(one.drop_first() == Seq::<Seq<char>>::empty());
            assert(o1[0] == o);
            assert(kept(one.drop_first(), o1.drop_first()) == Seq::<Seq<char>>::empty());
            if o == Outcome::Skip {
                assert(seq![one[0]] + Seq::<Seq<char>>::empty() == one);
                assert(kept(one, o1) == one);
            } else {
                assert(kept(one, o1) == Seq::<Seq<char>>::empty());
            }
            assert(acc == kept(all.take(i as int), outs.take(i as int)) + kept(one, o1));
            assert forall|k: int| 0 <= k < outs.take(i + 1).len() implies #[trigger] outs.take(
                i + 1,
            )[k] != Outcome::Quit by {
                if k < i {
                    assert(outs.take(i + 1)[k] == outs.take(i as int)[k]);
                }
            }
        }
        i = i + 1;
    }
    proof {
        let rest = all.skip(i as int);
        let orest = outs.skip(i as int);
        lemma_kept_split(all.take(i as int), outs.take(i as int), rest, orest);
        assert(all.take(i as int) + rest == all);
        assert(outs.take(i as int) + orest == outs);
        if i < all.len() && i < outs.len() {
            assert(orest[0] == Outcome::Quit);
        }
        assert(kept(rest, orest) == rest);
    }
    push_intray_lines(&mut s, items, i);
    s
}

/// An item skipped before processing stopped stays in the in-tray.
pub proof fn law_skipped_item_stays(items: Seq<Seq<char>>, outcomes: Seq<Outcome>, j: int)
    requires
        0 <= j < items.len(),
        j < outcomes.len(),
        outcomes[j] == Outcome::Skip,
        no_quit(outcomes.take(j)),
    ensures
        kept(items, outcomes).contains(items[j]),
    decreases j,
{
    if j == 0 {
        assert(kept(items, outcomes)[0] == items[0]);
    } else {
        assert(outcomes[0] == outcomes.take(j)[0]);
        assert forall|k: int| 0 <= k < outcomes.drop_first().take(j - 1).len() implies
            #[trigger] outcomes.drop_first().take(j - 1)[k] != Outcome::Quit by {
            assert(outcomes.drop_first().take(j - 1)[k] == outcomes.take(j)[k + 1]);
        }
        law_skipped_item_stays(items.drop_first(), outcomes.drop_first(), j - 1);
        let k = kept(items.drop_first(), outcomes.drop_first());
        let w = choose|w: int| 0 <= w < k.len() && k[w] == items[j];
        if outcomes[0] == Outcome::Skip {
            assert(kept(items, outcomes)[w + 1] == k[w]);
        } else {
            assert(kept(items, outcomes)[w] == k[w]);
        }
    }
}

/// When processing stops at item `q`, that item and every later one stay,
/// in order, at the end of the in-tray.
pub proof fn law_items_from_stop_stay(items: Seq<Seq<char>>, outcomes: Seq<Outcome>, q: int)
    requires
        0 <= q < items.len(),
        q < outcomes.len(),
        outcomes[q] == Outcome::Quit,
        no_quit(outcomes.take(q)),
    ensures
        kept(items, outcomes) == kept(items.take(q), outcomes.take(q)) + items.skip(q),
{
    lemma_kept_split(items.take(q), outcomes.take(q), items.skip(q), outcomes.skip(q));
    assert(items.take(q) + items.skip(q) == items);
    assert(outcomes.take(q) + outcomes.skip(q) == outcomes);
    assert(outcomes.skip(q)[0] == outcomes[q]);
}

/// When every item was dealt with, the in-tray is left empty.
pub proof fn law_all_done_empties(items: Seq<Seq<char>>, outcomes: Seq<Outcome>)
    requires
        outcomes.len() >= items.len(),
        forall|k: int| 0 <= k < items.len() ==> #[trigger] outcomes[k] == Outcome::Done,
    ensures
        kept(items, outcomes) == Seq::<Seq<char>>::empty(),
    decreases items.len(),
{
    if items.len() > 0 {
        assert forall|k: int| 0 <= k < items.drop_first().len() implies #[trigger] outcomes.drop_first()[k]
            == Outcome::Done by {
            assert(outcomes.drop_first()[k] == outcomes[k + 1]);
        }
        law_all_done_empties(items.drop_first(), outcomes.drop_first());
        assert(outcomes[0] == Outcome::Done);
    }
}

/// The in-tray written back after a run reads back as the items that stay,
/// in order, where every item is a line item.
pub proof fn law_intray_after_reads_back(items: Seq<Seq<char>>, outcomes: Seq<Outcome>)
    requires
        forall|i: int| 0 <= i < items.len() ==> is_line_item(#[trigger] items[i]),
    ensures
        parse_text(intray_text(kept(items, outcomes))) == kept(items, outcomes).map_values(
            |d: Seq<char>| item_block(d),
        ),
{
    lemma_kept_within(items, outcomes);
    let k = kept(items, outcomes);
    assert forall|i: int| 0 <= i < k.len() implies is_line_item(#[trigger] k[i]) by {
        let w = choose|w: int| 0 <= w < items.len() && items[w] == k[i];
        assert(is_line_item(items[w]));
    }
    law_intray_reads_back(k);
}

/// An in-tray written with `items` reads back as those items, in order,
/// where each is a line item; it ends with a line break and leaves no block
/// open, so items can be appended to it.
pub proof fn law_intray_reads_back(items: Seq<Seq<char>>)
    requires
        forall|i: int| 0 <= i < items.len() ==> is_line_item(#[trigger] items[i]),
    ensures
        parse_text(intray_text(items)) == items.map_values(|d: Seq<char>| item_block(d)),
        is_clean(lines_of(intray_text(items))),
        intray_text(items).len() > 0,
        intray_text(items).last() == '\n',
    decreases items.len(),
{
    if items.len() == 0 {
        reveal_strlit("# In-Tray\n");
        reveal_strlit("# In-Tray");
        reveal_strlit("\n");
        reveal_strlit("- [ ] ");
        reveal_strlit("- [x] ");
        let h = "# In-Tray"@;
        assert(tasks_file_text(h, task_markdowns(Seq::<Task>::empty(), Seq::empty())) == h
            + "\n"@);
        assert(h + "\n"@ == "# In-Tray\n"@);
        assert(strip_cr(h) == h);
        assert(h[0] == '#');
        assert(h.take(6)[0] == '#');
        assert(!is_checkbox_start(h));
        law_written_file_reads_back(h, Seq::<Task>::empty(), Seq::empty());
        assert(items.map_values(|d: Seq<char>| item_block(d)) == Seq::<crate::markdown::BlockView>::empty());
    } else {
        let prefix = items.drop_last();
        assert forall|i: int| 0 <= i < prefix.len() implies is_line_item(#[trigger] prefix[i]) by {
            assert(prefix[i] == items[i]);
        }
        law_intray_reads_back(prefix);
        let prev = intray_text(prefix);
        assert(ending_line(prev) == prev);
        assert(intray_text(items) == appended_item_text(prev, items.last()));
        law_appended_item_reads_back(prev, items.last());
        assert(items.map_values(|d: Seq<char>| item_block(d)) == prefix.map_values(
            |d: Seq<char>| item_block(d),
        ).push(item_block(items.last())));
    }
}

} // verus!
