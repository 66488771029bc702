//! `ifne`: run a command only when standard input is not empty (or, with
//! `-n`, only when it is).
use vstd::prelude::*;
use crate::text::{chars_of, same_chars, string_views};

verus! {

broadcast use vstd::seq::group_seq_axioms;

/// What the arguments say: None for a usage error ("Usage: ifne [-n]
/// command [args]", exit status 1); else whether `-n` was given and the
/// command.
pub open spec fn ifne_args_spec(args: Seq<Seq<char>>) -> Option<(bool, Seq<Seq<char>>)> {
    if args.len() == 0 || (args.len() == 1 && args[0] == "-n"@) {
        None
    } else if args[0] == "-n"@ {
        Some((true, args.drop_first()))
    } else {
        Some((false, args))
    }
}

pub fn parse_args(args: &[String]) -> (r: Option<(bool, Vec<String>)>)
    ensures
        match r {
            Some((n, cmd)) => ifne_args_spec(string_views(args@)) == Some((n, string_views(cmd@))),
            None => ifne_args_spec(string_views(args@)) is None,
        },
{
    let ghost av = string_views(args@);
    if args.len() == 0 {
        return None;
    }
    let a0 = chars_of(args[0].as_str());
    let dn = chars_of("-n");
    assert(a0@ == av[0]);
    let is_n = same_chars(a0.as_slice(), dn.as_slice());
    if args.len() == 1 && is_n {
        return None;
    }
    let start: usize = if is_n { 1 } else { 0 };
    let mut cmd: Vec<String> = Vec::new();
    let mut i = start;
    while i < args.len()
        invariant
            start <= i <= args@.len(),
            av == string_views(args@),
            string_views(cmd@) == av.subrange(start as int, i as int),
        decreases args@.len() - i,
    {
        let ghost before = string_views(cmd@);
        cmd.push(args[i].clone());
        assert(string_views(cmd@) =~= before.push(av[i as int]));
        i += 1;
        assert(av.subrange(start as int, i as int) =~= av.subrange(start as int, i - 1).push(av[i - 1]));
    }
    assert(av.subrange(start as int, args@.len() as int) =~= (if is_n { av.drop_first() } else { av }));
    Some((is_n, cmd))
}

/// What `ifne` does with the input it read.
#[derive(Clone, Copy, Debug, PartialEq, Eq, Structural)]
pub enum IfneAction {
    /// Exit with status 0.
    Nothing,
    /// Copy the input to standard output (with `-n` and input present).
    PassThrough,
    /// Run the command with the input on its standard input.
    Run,
}

pub fn decide(input_empty: bool, run_if_empty: bool) -> (r: IfneAction)
    ensures
        r == if input_empty && !run_if_empty {
            IfneAction::Nothing
        } else if !input_empty && run_if_empty {
            IfneAction::PassThrough
        } else {
            IfneAction::Run
        },
{
    if input_empty && !run_if_empty {
        IfneAction::Nothing
    } else if !input_empty && run_if_empty {
        IfneAction::PassThrough
    } else {
        IfneAction::Run
    }
}

/// How `ifne` ends after the command: the command's exit code; when it was
/// killed, by the same signal (None here); else 1.
pub fn child_exit(code: Option<i32>, signal: Option<i32>) -> (r: Option<i32>)
    ensures
        r == match code {
            Some(c) => Some(c),
            None => if signal is Some { None } else { Some(1i32) },
        },
{
    match code {
        Some(c) => Some(c),
        None => if signal.is_some() { None } else { Some(1) },
    }
}

} // verus!
