//! `gtd capture`: a thought into the in-tray.
use vstd::prelude::*;
use crate::text::{trim_str, trimmed};

verus! {

/// The item that `gtd capture` puts in the in-tray for the text given: the
/// text trimmed, or nothing where that leaves it empty.
pub fn capture_item(text: &str) -> (item: Option<String>)
    ensures
        trimmed(text@).len() == 0 ==> item is None,
        trimmed(text@).len() > 0 ==> (item matches Some(s) && s@ == trimmed(text@)),
{
    let t = trim_str(text);
    if t.as_str().is_empty() {
        None
    } else {
        Some(t)
    }
}

} // verus!
