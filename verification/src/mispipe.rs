//! `mispipe`: pipe two commands together and exit with the status of the
//! first.
use vstd::prelude::*;
use crate::text::{chars_of, string_from_chars};

verus! {

/// The arguments are the program name and exactly two commands; else this
/// message (exit status 1).
pub fn check_args(argc: usize, prog: &str) -> (r: Option<String>)
    ensures
        match r {
            Some(m) => argc != 3 && m@ == prog@ + ": Wrong number of args, aborting"@,
            None => argc == 3,
        },
{
    if argc == 3 {
        return None;
    }
    let mut out = chars_of(prog);
    let tail = chars_of(": Wrong number of args, aborting");
    let mut i: usize = 0;
    let ghost start = out@;
    while i < tail.len()
        invariant
            i <= tail@.len(),
            out@ == start + tail@.take(i as int),
        decreases tail@.len() - i,
    {
        out.push(tail[i]);
        i += 1;
        assert(tail@.take(i as int) =~= tail@.take(i - 1).push(tail@[i - 1]));
    }
    assert(tail@.take(tail@.len() as int) =~= tail@);
    Some(string_from_chars(out.as_slice()))
}

} // verus!
