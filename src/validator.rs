//! Checks on what is left of the input once a command has been read.

use crate::command_list::Commands;
use crate::text::{lowercase, same_chars, starts_with_ignoring_case, to_lowercase};
use vstd::prelude::*;
use vstd::slice::slice_subrange;

verus! {

/// Accepts `parsed` only when nothing of the input is left over: a command
/// without arguments takes no trailing text.
pub fn final_check(text: &[char], parsed: Commands) -> (r: Option<Commands>)
    ensures
        r == (if text@.len() == 0 {
            Some(parsed)
        } else {
            None
        }),
{
    if text.len() == 0 {
        Some(parsed)
    } else {
        None
    }
}

/// Whether `sample` starts with `cmd`, up to case, and what follows
/// that prefix; where it does not, `sample` is handed back whole.
pub fn string_exact_check<'a>(sample: &'a [char], cmd: &[char]) -> (r: (bool, &'a [char]))
    ensures
        r.0 == starts_with_ignoring_case(sample@, cmd@),
        r.0 ==> r.1@ == sample@.subrange(cmd@.len() as int, sample@.len() as int),
        !r.0 ==> r.1@ == sample@,
{
    if cmd.len() > sample.len() {
        return (false, sample);
    }
    let mut i: usize = 0;
    while i < cmd.len()
        invariant
            i <= cmd@.len() <= sample@.len(),
            forall|j: int| 0 <= j < i ==> #[trigger] lowercase(sample@[j]) == lowercase(cmd@[j]),
        decreases cmd@.len() - i,
    {
        if !same_chars(&to_lowercase(sample[i]), &to_lowercase(cmd[i])) {
            return (false, sample);
        }
        i = i + 1;
    }
    (true, slice_subrange(sample, cmd.len(), sample.len()))
}

} // verus!
