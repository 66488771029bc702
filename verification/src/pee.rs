//! `pee`: its options, and what happens when a command stops taking input.
use vstd::prelude::*;
use crate::text::{chars_of, same_chars, string_views};

verus! {

broadcast use vstd::seq::group_seq_axioms;

/// The options from argument `k` on (they stop at the first other
/// argument): (ignore SIGPIPE, ignore write errors, where the commands
/// start).
pub open spec fn pee_scan(args: Seq<Seq<char>>, k: int, sig: bool, werr: bool) -> (bool, bool, int)
    decreases args.len() - k,
{
    if k >= args.len() || k < 0 {
        (sig, werr, k)
    } else {
        let a = args[k];
        if a == "--ignore-sigpipe"@ {
            pee_scan(args, k + 1, true, werr)
        } else if a == "--no-ignore-sigpipe"@ {
            pee_scan(args, k + 1, false, werr)
        } else if a == "--ignore-write-errors"@ {
            pee_scan(args, k + 1, sig, true)
        } else if a == "--no-ignore-write-errors"@ {
            pee_scan(args, k + 1, sig, false)
        } else {
            (sig, werr, k)
        }
    }
}

/// What the arguments say.
pub struct PeeArgs {
    pub ignore_sigpipe: bool,
    pub ignore_write_errors: bool,
    pub commands: Vec<String>,
}

fn lit_is(a: &[char], s: &str) -> (r: bool)
    ensures
        r == (a@ == s@),
{
    let b = chars_of(s);
    same_chars(a, b.as_slice())
}

pub fn parse_args(args: &[String]) -> (r: PeeArgs)
    ensures
        ({
            let (sig, werr, start) = pee_scan(string_views(args@), 0, true, true);
            &&& r.ignore_sigpipe == sig
            &&& r.ignore_write_errors == werr
            &&& 0 <= start <= args@.len()
            &&& string_views(r.commands@) == string_views(args@).skip(start)
        }),
{
    let ghost av = string_views(args@);
    let mut sig = true;
    let mut werr = true;
    let mut k: usize = 0;
    while k < args.len()
        invariant_except_break
            pee_scan(av, 0, true, true) == pee_scan(av, k as int, sig, werr),
        invariant
            k <= args@.len(),
            av == string_views(args@),
        ensures
            pee_scan(av, 0, true, true) == (sig, werr, k as int),
        decreases args@.len() - k,
    {
        let a = chars_of(args[k].as_str());
        assert(a@ == av[k as int]);
        if lit_is(a.as_slice(), "--ignore-sigpipe") {
            sig = true;
        } else if lit_is(a.as_slice(), "--no-ignore-sigpipe") {
            sig = false;
        } else if lit_is(a.as_slice(), "--ignore-write-errors") {
            werr = true;
        } else if lit_is(a.as_slice(), "--no-ignore-write-errors") {
            werr = false;
        } else {
            break;
        }
        k += 1;
    }
    let mut commands: Vec<String> = Vec::new();
    let mut i = k;
    while i < args.len()
        invariant
            k <= i <= args@.len(),
            av == string_views(args@),
            string_views(commands@) == av.subrange(k as int, i as int),
        decreases args@.len() - i,
    {
        let ghost before = string_views(commands@);
        commands.push(args[i].clone());
        assert(string_views(commands@) =~= before.push(av[i as int]));
        i += 1;
        assert(av.subrange(k as int, i as int) =~= av.subrange(k as int, i - 1).push(av[i - 1]));
    }
    assert(av.subrange(k as int, args@.len() as int) =~= av.skip(k as int));
    PeeArgs { ignore_sigpipe: sig, ignore_write_errors: werr, commands }
}

/// After writing to a command failed, `inactive` commands of `total` no
/// longer take input: whether "Write error to `CMD'" is reported, and
/// whether `pee` exits with status 1.
pub fn on_write_failure(ignore_write_errors: bool, inactive: usize, total: usize) -> (r: (bool, bool))
    ensures
        r.0 == !ignore_write_errors,
        r.1 == (!ignore_write_errors || inactive == total),
{
    (!ignore_write_errors, !ignore_write_errors || inactive == total)
}

/// The status a finished command adds to `pee`'s: its exit code, or 1 when
/// it was killed or could not be waited for.
pub fn command_status(code: Option<i32>) -> (r: i32)
    ensures
        r == match code { Some(c) => c, None => 1 },
{
    match code {
        Some(c) => c,
        None => 1,
    }
}

} // verus!
