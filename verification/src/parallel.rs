//! `parallel`: its options, the command line of each job, and how the exit
//! statuses of the jobs combine.
use vstd::prelude::*;
use crate::text::{
    chars_of, parse_int, parse_int_spec, same_chars, signed_decimal, string_from_chars, string_views,
    sub_vec,
};

verus! {

broadcast use vstd::seq::group_seq_axioms;

/// The options of `parallel` (the load limit is kept as written: it is a
/// floating-point number).
pub struct ParallelOpts {
    pub maxjobs: isize,
    pub maxload: Option<String>,
    pub replace: bool,
    pub nargs: usize,
}

/// How reading the options failed.
pub enum OptionError {
    /// `-h`: the usage text, exit status 1.
    Help,
    /// A message, then the usage text, exit status 1.
    WithUsage(String),
    /// A message, exit status 2.
    Fatal(String),
}

/// The usage text (written to standard output).
pub open spec fn usage_spec() -> Seq<char> {
    "parallel [OPTIONS] command -- arguments\n\tfor each argument, run command with argument, in parallel\nparallel [OPTIONS] -- commands\n\trun specified commands in parallel\n"@
}

pub fn usage_text() -> (r: String)
    ensures
        r@ == usage_spec(),
{
    String::from_str("parallel [OPTIONS] command -- arguments\n\tfor each argument, run command with argument, in parallel\nparallel [OPTIONS] -- commands\n\trun specified commands in parallel\n")
}

/// The options as plain values: (maxjobs, maxload, replace, nargs).
pub type OptsSpec = (int, Option<Seq<char>>, bool, int);

/// A spec view of how option parsing ends: `Ok` with the options and where
/// the operands start, or the error (0 help, 1 with usage, 2 fatal) and its
/// message.
pub open spec fn cluster_spec(args: Seq<Seq<char>>, index: int, a: Seq<char>, pos: int, o: OptsSpec, prog: Seq<char>) -> Result<(OptsSpec, int), (int, Seq<char>)>
    decreases a.len() - pos,
{
    if pos >= a.len() || pos < 0 {
        Ok((o, index))
    } else {
        let c = a[pos];
        if c == 'h' {
            Err((0, Seq::empty()))
        } else if c == 'i' {
            cluster_spec(args, index, a, pos + 1, (o.0, o.1, true, o.3), prog)
        } else if c == 'j' || c == 'l' || c == 'n' {
            let attached = pos + 1 < a.len();
            if !attached && index + 1 >= args.len() {
                Err((1, prog + ": option requires an argument -- '"@ + seq![c] + "'"@))
            } else {
                let value = if attached { a.skip(pos + 1) } else { args[index + 1] };
                let idx = if attached { index } else { index + 1 };
                if c == 'j' {
                    match parse_int_spec(value, true, isize::MIN as int, isize::MAX as int) {
                        None => Err((2, "option '"@ + value + "' is not a number"@)),
                        Some(v) => Ok(((v, o.1, o.2, o.3), idx)),
                    }
                } else if c == 'l' {
                    Ok(((o.0, Some(value), o.2, o.3), idx))
                } else {
                    match parse_int_spec(value, true, isize::MIN as int, isize::MAX as int) {
                        Some(v) => if v > 0 {
                            Ok(((o.0, o.1, o.2, v), idx))
                        } else {
                            Err((2, "option '"@ + value + "' is not a positive number"@))
                        },
                        None => Err((2, "option '"@ + value + "' is not a positive number"@)),
                    }
                }
            }
        } else {
            Err((1, prog + ": invalid option -- '"@ + seq![c] + "'"@))
        }
    }
}

pub open spec fn options_spec(args: Seq<Seq<char>>, index: int, o: OptsSpec, prog: Seq<char>) -> Result<(OptsSpec, int), (int, Seq<char>)>
    decreases args.len() - index,
{
    if index >= args.len() || index < 0 {
        Ok((o, index))
    } else {
        let a = args[index];
        if a == "--"@ || !(a.len() > 0 && a[0] == '-') || a == "-"@ {
            Ok((o, index))
        } else {
            match cluster_spec(args, index, a, 1, o, prog) {
                Err(e) => Err(e),
                Ok((o2, i2)) => if index <= i2 < args.len() {
                    options_spec(args, i2 + 1, o2, prog)
                } else {
                    Err((2, Seq::empty()))
                },
            }
        }
    }
}

pub open spec fn opts_view(o: ParallelOpts) -> OptsSpec {
    (o.maxjobs as int, match o.maxload { Some(s) => Some(s@), None => None }, o.replace, o.nargs as int)
}

pub open spec fn error_view(e: OptionError) -> (int, Seq<char>) {
    match e {
        OptionError::Help => (0, Seq::empty()),
        OptionError::WithUsage(m) => (1, m@),
        OptionError::Fatal(m) => (2, m@),
    }
}

fn append(out: &mut Vec<char>, s: &[char])
    ensures
        final(out)@ == old(out)@ + s@,
{
    let mut i: usize = 0;
    let ghost start = out@;
    while i < s.len()
        invariant
            i <= s@.len(),
            out@ == start + s@.take(i as int),
        decreases s@.len() - i,
    {
        out.push(s[i]);
        i += 1;
        assert(s@.take(i as int) =~= s@.take(i - 1).push(s@[i - 1]));
    }
    assert(s@.take(s@.len() as int) =~= s@);
}

fn msg3(a: &[char], b: &[char], c: &str) -> (r: String)
    ensures
        r@ == a@ + b@ + c@,
{
    let mut out: Vec<char> = Vec::new();
    append(&mut out, a);
    append(&mut out, b);
    let cc = chars_of(c);
    append(&mut out, cc.as_slice());
    assert(out@ =~= a@ + b@ + c@);
    string_from_chars(out.as_slice())
}

fn letter_msg(prog: &str, head: &str, c: char) -> (r: String)
    ensures
        r@ == prog@ + head@ + seq![c] + "'"@,
{
    let mut p = chars_of(prog);
    let h = chars_of(head);
    append(&mut p, h.as_slice());
    p.push(c);
    let q = chars_of("'");
    append(&mut p, q.as_slice());
    string_from_chars(p.as_slice())
}

fn cluster(args: &[String], index: usize, a: &[char], o0: ParallelOpts, prog: &str) -> (r: Result<(ParallelOpts, usize), OptionError>)
    requires
        index < args.len(),
    ensures
        match r {
            Ok((o, i)) => cluster_spec(string_views(args@), index as int, a@, 1, opts_view(o0), prog@)
                == Ok::<(OptsSpec, int), (int, Seq<char>)>((opts_view(o), i as int)) && index <= i < args.len(),
            Err(e) => cluster_spec(string_views(args@), index as int, a@, 1, opts_view(o0), prog@)
                == Err::<(OptsSpec, int), (int, Seq<char>)>(error_view(e)),
        },
{
    let ghost av = string_views(args@);
    let ghost v0 = opts_view(o0);
    let mut o = o0;
    let mut pos: usize = 1;
    if a.len() <= 1 {
        return Ok((o, index));
    }
    while pos < a.len()
        invariant
            1 <= pos <= a@.len(),
            index < args.len(),
            av == string_views(args@),
            v0 == opts_view(o0),
            cluster_spec(av, index as int, a@, 1, v0, prog@) == cluster_spec(av, index as int, a@, pos as int, opts_view(o), prog@),
        decreases a@.len() - pos,
    {
        let c = a[pos];
        if c == 'h' {
            return Err(OptionError::Help);
        } else if c == 'i' {
            o.replace = true;
        } else if c == 'j' || c == 'l' || c == 'n' {
            let attached = pos + 1 < a.len();
            if !attached && index + 1 >= args.len() {
                return Err(OptionError::WithUsage(letter_msg(prog, ": option requires an argument -- '", c)));
            }
            let value: Vec<char> = if attached {
                sub_vec(a, pos + 1, a.len())
            } else {
                chars_of(args[index + 1].as_str())
            };
            assert(value@ == (if attached { a@.skip(pos + 1) } else { av[index + 1] }));
            let idx = if attached { index } else { index + 1 };
            let head = chars_of("option '");
            if c == 'j' {
                match parse_int(value.as_slice(), true, isize::MIN as i128, isize::MAX as i128) {
                    None => return Err(OptionError::Fatal(msg3(head.as_slice(), value.as_slice(), "' is not a number"))),
                    Some(v) => {
                        o.maxjobs = v as isize;
                        return Ok((o, idx));
                    },
                }
            } else if c == 'l' {
                o.maxload = Some(string_from_chars(value.as_slice()));
                return Ok((o, idx));
            } else {
                match parse_int(value.as_slice(), true, isize::MIN as i128, isize::MAX as i128) {
                    Some(v) => {
                        if v > 0 {
                            o.nargs = v as usize;
                            return Ok((o, idx));
                        }
                        return Err(OptionError::Fatal(msg3(head.as_slice(), value.as_slice(), "' is not a positive number")));
                    },
                    None => return Err(OptionError::Fatal(msg3(head.as_slice(), value.as_slice(), "' is not a positive number"))),
                }
            }
        } else {
            return Err(OptionError::WithUsage(letter_msg(prog, ": invalid option -- '", c)));
        }
        pos += 1;
    }
    Ok((o, index))
}

fn lit_is(a: &[char], s: &str) -> (r: bool)
    ensures
        r == (a@ == s@),
{
    let b = chars_of(s);
    same_chars(a, b.as_slice())
}

/// Reads the options (the arguments without the program name); gives them
/// and the index where the operands start.
pub fn parse_options(args: &[String], prog: &str) -> (r: Result<(ParallelOpts, usize), OptionError>)
    ensures
        match r {
            Ok((o, i)) => options_spec(string_views(args@), 0, (-1, None, false, 1), prog@)
                == Ok::<(OptsSpec, int), (int, Seq<char>)>((opts_view(o), i as int)) && i <= args@.len(),
            Err(e) => options_spec(string_views(args@), 0, (-1, None, false, 1), prog@)
                == Err::<(OptsSpec, int), (int, Seq<char>)>(error_view(e)),
        },
{
    let ghost av = string_views(args@);
    let mut o = ParallelOpts { maxjobs: -1, maxload: None, replace: false, nargs: 1 };
    let mut index: usize = 0;
    while index < args.len()
        invariant_except_break
            options_spec(av, 0, (-1, None, false, 1), prog@) == options_spec(av, index as int, opts_view(o), prog@),
        invariant
            index <= args@.len(),
            av == string_views(args@),
        ensures
            options_spec(av, 0, (-1, None, false, 1), prog@) == Ok::<(OptsSpec, int), (int, Seq<char>)>((opts_view(o), index as int)),
        decreases args@.len() - index,
    {
        let a = chars_of(args[index].as_str());
        assert(a@ == av[index as int]);
        if lit_is(a.as_slice(), "--") || !(a.len() > 0 && a[0] == '-') || lit_is(a.as_slice(), "-") {
            break;
        }
        let o_in = ParallelOpts { maxjobs: o.maxjobs, maxload: o.maxload, replace: o.replace, nargs: o.nargs };
        match cluster(args, index, a.as_slice(), o_in, prog) {
            Err(e) => return Err(e),
            Ok((o2, i2)) => {
                o = o2;
                index = i2 + 1;
            },
        }
    }
    Ok((o, index))
}

// ---------------------------------------------------------------------------
// The jobs
// ---------------------------------------------------------------------------

/// `s` with every `{}` replaced by `rep` (`str::replace`).
pub open spec fn replace_braces(s: Seq<char>, rep: Seq<char>) -> Seq<char>
    decreases s.len(),
{
    if s.len() < 2 {
        s
    } else if s[0] == '{' && s[1] == '}' {
        rep + replace_braces(s.skip(2), rep)
    } else {
        seq![s[0]] + replace_braces(s.drop_first(), rep)
    }
}

fn replace_braces_exec(s: &[char], rep: &[char]) -> (r: Vec<char>)
    ensures
        r@ == replace_braces(s@, rep@),
{
    let mut out: Vec<char> = Vec::new();
    let mut i: usize = 0;
    assert(s@.skip(0) =~= s@);
    while i < s.len()
        invariant
            i <= s@.len(),
            out@ + replace_braces(s@.skip(i as int), rep@) == replace_braces(s@, rep@),
        decreases s@.len() - i,
    {
        let ghost rest = s@.skip(i as int);
        if i + 1 < s.len() && s[i] == '{' && s[i + 1] == '}' {
            append(&mut out, rep);
            assert(rest.skip(2) =~= s@.skip(i + 2));
            i += 2;
        } else {
            out.push(s[i]);
            assert(rest.drop_first() =~= s@.skip(i + 1));
            proof {
                if rest.len() < 2 {
                    assert(rest =~= seq![s@[i as int]]);
                    assert(replace_braces(rest.drop_first(), rep@) == rest.drop_first());
                }
            }
            i += 1;
        }
    }
    assert(s@.skip(i as int) =~= Seq::<char>::empty());
    out
}

/// The command line of a job: with `-i`, the command with each `{}`
/// replaced by the job's first argument; else the command followed by the
/// job's arguments.
pub open spec fn job_argv_spec(command: Seq<Seq<char>>, args: Seq<Seq<char>>, replace: bool) -> Seq<Seq<char>> {
    if replace {
        let arg = if args.len() > 0 { args[0] } else { Seq::empty() };
        command.map_values(|c: Seq<char>| replace_braces(c, arg))
    } else {
        command + args
    }
}

pub fn job_argv(command: &[String], args: &[String], replace: bool) -> (r: Vec<String>)
    ensures
        string_views(r@) == job_argv_spec(string_views(command@), string_views(args@), replace),
{
    let mut r: Vec<String> = Vec::new();
    if replace {
        let arg: Vec<char> = if args.len() > 0 { chars_of(args[0].as_str()) } else { Vec::new() };
        let ghost a = if args@.len() > 0 { args@[0]@ } else { Seq::<char>::empty() };
        assert(arg@ == a);
        let mut i: usize = 0;
        while i < command.len()
            invariant
                i <= command@.len(),
                arg@ == a,
                string_views(r@) == string_views(command@).take(i as int).map_values(|c: Seq<char>| replace_braces(c, a)),
            decreases command@.len() - i,
        {
            let c = chars_of(command[i].as_str());
            let x = replace_braces_exec(c.as_slice(), arg.as_slice());
            let ghost before = string_views(r@);
            r.push(string_from_chars(x.as_slice()));
            assert(string_views(r@) =~= before.push(replace_braces(command@[i as int]@, a)));
            i += 1;
            assert(string_views(command@).take(i as int).map_values(|c: Seq<char>| replace_braces(c, a)) =~= string_views(
                command@,
            ).take(i - 1).map_values(|c: Seq<char>| replace_braces(c, a)).push(replace_braces(command@[i - 1]@, a)));
        }
        assert(string_views(command@).take(command@.len() as int) =~= string_views(command@));
    } else {
        let mut i: usize = 0;
        while i < command.len()
            invariant
                i <= command@.len(),
                string_views(r@) == string_views(command@).take(i as int),
            decreases command@.len() - i,
        {
            let ghost before = string_views(r@);
            r.push(command[i].clone());
            assert(string_views(r@) =~= before.push(command@[i as int]@));
            i += 1;
            assert(string_views(command@).take(i as int) =~= string_views(command@).take(i - 1).push(command@[i - 1]@));
        }
        assert(string_views(command@).take(command@.len() as int) =~= string_views(command@));
        let mut j: usize = 0;
        while j < args.len()
            invariant
                j <= args@.len(),
                string_views(r@) == string_views(command@) + string_views(args@).take(j as int),
            decreases args@.len() - j,
        {
            let ghost before = string_views(r@);
            r.push(args[j].clone());
            assert(string_views(r@) =~= before.push(args@[j as int]@));
            j += 1;
            assert(string_views(args@).take(j as int) =~= string_views(args@).take(j - 1).push(args@[j - 1]@));
        }
        assert(string_views(args@).take(args@.len() as int) =~= string_views(args@));
    }
    r
}

/// How many arguments the next job takes: one when there is no command
/// (each argument is a command), else `nargs` or what is left.
pub fn batch_size(has_command: bool, nargs: usize, remaining: usize) -> (r: usize)
    ensures
        r == if !has_command { 1 } else if nargs < remaining { nargs as int } else { remaining as int },
{
    if !has_command {
        1
    } else if nargs < remaining {
        nargs
    } else {
        remaining
    }
}

/// How many jobs may run at once: one for `-j 0`, the number for a positive
/// `-j`, no limit otherwise.
pub fn max_running(maxjobs: isize) -> (r: Option<usize>)
    ensures
        r == if maxjobs == 0 { Some(1usize) } else if maxjobs > 0 { Some(maxjobs as usize) } else { None },
{
    if maxjobs == 0 {
        Some(1)
    } else if maxjobs > 0 {
        Some(maxjobs as usize)
    } else {
        None
    }
}

/// The status a finished job adds: its exit code, or 1 when it was killed.
pub fn job_status(code: Option<i32>) -> (r: i32)
    ensures
        r == match code { Some(c) => c, None => 1 },
{
    match code {
        Some(c) => c,
        None => 1,
    }
}

/// What the operands ask for once the options are read.
pub enum Plan {
    /// Run `command` over `arguments`.
    Run { command: Vec<String>, arguments: Vec<String> },
    /// No `--`: nothing to do, exit status 0.
    Nothing,
    /// This message, exit status 2.
    Fatal(String),
}

pub open spec fn first_dashdash(rest: Seq<Seq<char>>, k: int) -> Option<int>
    decreases rest.len() - k,
{
    if k >= rest.len() || k < 0 {
        None
    } else if rest[k] == "--"@ {
        Some(k)
    } else {
        first_dashdash(rest, k + 1)
    }
}

/// Splits the operands at their first `--` and checks them against the
/// options.
pub fn plan(replace: bool, nargs: usize, rest: &[String]) -> (r: Plan)
    ensures
        ({
            let rv = string_views(rest@);
            if replace && nargs > 1 {
                r matches Plan::Fatal(m) && m@ == "options -i and -n are incompatible"@
            } else {
                match first_dashdash(rv, 0) {
                    None => r is Nothing,
                    Some(s) => if nargs > 1 && s == 0 {
                        r matches Plan::Fatal(m) && m@ == "option -n cannot be used without a command"@
                    } else {
                        r matches Plan::Run { command, arguments } && string_views(command@) == rv.take(s)
                            && string_views(arguments@) == rv.skip(s + 1)
                    },
                }
            }
        }),
{
    if replace && nargs > 1 {
        return Plan::Fatal(String::from_str("options -i and -n are incompatible"));
    }
    let ghost rv = string_views(rest@);
    let mut k: usize = 0;
    while k < rest.len()
        invariant
            k <= rest@.len(),
            rv == string_views(rest@),
            first_dashdash(rv, 0) == first_dashdash(rv, k as int),
        ensures
            k <= rest@.len(),
            rv == string_views(rest@),
            first_dashdash(rv, 0) == first_dashdash(rv, k as int),
            k < rest@.len() ==> rv[k as int] == "--"@,
        decreases rest@.len() - k,
    {
        let c = chars_of(rest[k].as_str());
        assert(c@ == rv[k as int]);
        if lit_is(c.as_slice(), "--") {
            break;
        }
        k += 1;
    }
    if k == rest.len() {
        return Plan::Nothing;
    }
    assert(first_dashdash(rv, k as int) == Some(k as int));
    if nargs > 1 && k == 0 {
        return Plan::Fatal(String::from_str("option -n cannot be used without a command"));
    }
    let mut command: Vec<String> = Vec::new();
    let mut i: usize = 0;
    while i < k
        invariant
            i <= k < rest@.len(),
            rv == string_views(rest@),
            string_views(command@) == rv.take(i as int),
        decreases k - i,
    {
        let ghost before = string_views(command@);
        command.push(rest[i].clone());
        assert(string_views(command@) =~= before.push(rv[i as int]));
        i += 1;
        assert(rv.take(i as int) =~= rv.take(i - 1).push(rv[i - 1]));
    }
    let mut arguments: Vec<String> = Vec::new();
    let mut j: usize = k + 1;
    while j < rest.len()
        invariant
            k < j <= rest@.len(),
            rv == string_views(rest@),
            string_views(arguments@) == rv.subrange(k + 1, j as int),
        decreases rest@.len() - j,
    {
        let ghost before = string_views(arguments@);
        arguments.push(rest[j].clone());
        assert(string_views(arguments@) =~= before.push(rv[j as int]));
        j += 1;
        assert(rv.subrange(k + 1, j as int) =~= rv.subrange(k + 1, j - 1).push(rv[j - 1]));
    }
    assert(rv.subrange(k + 1, rest@.len() as int) =~= rv.skip(k + 1));
    Plan::Run { command, arguments }
}

} // verus!
