//! `gtd review`: how counts and projects read in the weekly review.
use vstd::prelude::*;
use vstd::string::StringExecFns;
use crate::text::{decimal, push_decimal, push_str};

verus! {

broadcast use vstd::string::group_string_axioms;

/// How a count is coloured.
#[derive(Clone, Copy, Debug, PartialEq, Eq, Structural)]
pub enum CountStyle {
    /// Good news: green.
    Good,
    /// Plain.
    Plain,
    /// Needs attention: yellow and bold.
    Attention,
}

/// A count as the overview shows it: `0 (inbox zero!)` in green where zero
/// is good, `0` plain, any other count in yellow and bold.
pub fn format_count(count: usize, is_good_when_zero: bool) -> (r: (String, CountStyle))
    ensures
        count == 0 && is_good_when_zero ==> r.0@ == "0 (inbox zero!)"@ && r.1 == CountStyle::Good,
        count == 0 && !is_good_when_zero ==> r.0@ == "0"@ && r.1 == CountStyle::Plain,
        count != 0 ==> r.0@ == decimal(count as nat) && r.1 == CountStyle::Attention,
{
    if count == 0 && is_good_when_zero {
        (String::from_str("0 (inbox zero!)"), CountStyle::Good)
    } else if count == 0 {
        (String::from_str("0"), CountStyle::Plain)
    } else {
        let mut s = String::new();
        push_decimal(&mut s, count as u64);
        (s, CountStyle::Attention)
    }
}

/// How a project reads in the review: `no next action!` (flagged) where it
/// has no open task, else `N open`.
pub fn project_status(open: usize) -> (r: (String, bool))
    ensures
        open == 0 ==> r.0@ == "no next action!"@ && r.1,
        open != 0 ==> r.0@ == decimal(open as nat) + " open"@ && !r.1,
{
    if open == 0 {
        (String::from_str("no next action!"), true)
    } else {
        let mut s = String::new();
        push_decimal(&mut s, open as u64);
        push_str(&mut s, " open");
        (s, false)
    }
}

} // verus!
