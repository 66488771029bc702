//! `chronic`: its options, and when the output of the command is shown and
//! with which status it ends.
use vstd::prelude::*;
use crate::text::{chars_of, replace_char, replace_chars, same_chars, string_from_chars, string_views, signed_decimal};

verus! {

broadcast use vstd::seq::group_seq_axioms;

/// What the arguments say.
pub struct ChronicArgs {
    pub verbose: bool,
    pub stderr_trigger: bool,
    /// One `Unknown option: C` line for each unknown option letter.
    pub warnings: Vec<String>,
    pub command: Vec<String>,
}

/// The letters of an option cluster: all after the dash, without a last
/// dash when there are several.
pub open spec fn option_letters(a: Seq<char>) -> Seq<char> {
    let l = a.drop_first();
    if l.len() > 1 && l.last() == '-' {
        l.drop_last()
    } else {
        l
    }
}

/// The options from argument `k` on: (verbose, stderr trigger, unknown
/// letters, where the command starts).
pub open spec fn chronic_scan(args: Seq<Seq<char>>, k: int, v: bool, e: bool, unknown: Seq<char>) -> (bool, bool, Seq<char>, int)
    decreases args.len() - k,
{
    if k >= args.len() || k < 0 {
        (v, e, unknown, k)
    } else {
        let a = args[k];
        if a == "--"@ {
            (v, e, unknown, k + 1)
        } else if a == "-"@ || !(a.len() > 0 && a[0] == '-') {
            (v, e, unknown, k)
        } else {
            let l = option_letters(a);
            chronic_scan(
                args,
                k + 1,
                v || l.contains('v'),
                e || l.contains('e'),
                unknown + l.filter(|c: char| c != 'v' && c != 'e'),
            )
        }
    }
}

pub open spec fn unknown_option_line(c: char) -> Seq<char> {
    "Unknown option: "@ + seq![c]
}

fn lit_is(a: &[char], s: &str) -> (r: bool)
    ensures
        r == (a@ == s@),
{
    let b = chars_of(s);
    same_chars(a, b.as_slice())
}

/// Reads the arguments (without the program name).
pub fn parse_args(args: &[String]) -> (r: ChronicArgs)
    ensures
        ({
            let (v, e, unknown, start) = chronic_scan(string_views(args@), 0, false, false, seq![]);
            &&& r.verbose == v
            &&& r.stderr_trigger == e
            &&& string_views(r.warnings@) == unknown.map_values(|c: char| unknown_option_line(c))
            &&& 0 <= start <= args@.len()
            &&& string_views(r.command@) == string_views(args@).skip(start)
        }),
{
    let ghost av = string_views(args@);
    let mut v = false;
    let mut e = false;
    let mut warnings: Vec<String> = Vec::new();
    let ghost mut unknown: Seq<char> = seq![];
    let mut k: usize = 0;
    assert(string_views(warnings@) =~= unknown.map_values(|c: char| unknown_option_line(c)));
    while k < args.len()
        invariant_except_break
            chronic_scan(av, 0, false, false, seq![]) == chronic_scan(av, k as int, v, e, unknown),
        invariant
            k <= args@.len(),
            av == string_views(args@),
            string_views(warnings@) == unknown.map_values(|c: char| unknown_option_line(c)),
        ensures
            chronic_scan(av, 0, false, false, seq![]) == (v, e, unknown, k as int),
        decreases args@.len() - k,
    {
        let a = chars_of(args[k].as_str());
        assert(a@ == av[k as int]);
        if lit_is(a.as_slice(), "--") {
            k += 1;
            break;
        }
        if lit_is(a.as_slice(), "-") || !(a.len() > 0 && a[0] == '-') {
            break;
        }
        let mut end = a.len();
        if a.len() > 2 && a[a.len() - 1] == '-' {
            end = a.len() - 1;
        }
        let ghost l = option_letters(a@);
        assert(l =~= a@.subrange(1, end as int));
        let mut j: usize = 1;
        let ghost v0 = v;
        let ghost e0 = e;
        let ghost u0 = unknown;
        assert(l.take(0).filter(|c: char| c != 'v' && c != 'e') =~= Seq::<char>::empty()) by {
            reveal(Seq::filter);
        }
        while j < end
            invariant
                1 <= j <= end <= a@.len(),
                l == a@.subrange(1, end as int),
                v == (v0 || l.take(j - 1).contains('v')),
                e == (e0 || l.take(j - 1).contains('e')),
                unknown == u0 + l.take(j - 1).filter(|c: char| c != 'v' && c != 'e'),
                string_views(warnings@) == unknown.map_values(|c: char| unknown_option_line(c)),
            decreases end - j,
        {
            let c = a[j];
            let ghost t = l.take(j - 1);
            let ghost t2 = l.take(j as int);
            assert(t2 =~= t.push(c));
            proof {
                reveal(Seq::filter);
                assert(t2.drop_last() =~= t);
            }
            if c == 'v' {
                v = true;
            } else if c == 'e' {
                e = true;
            } else {
                let mut m = chars_of("Unknown option: ");
                m.push(c);
                assert(m@ =~= unknown_option_line(c));
                let ghost before = string_views(warnings@);
                warnings.push(string_from_chars(m.as_slice()));
                proof {
                    unknown = unknown.push(c);
                }
                assert(string_views(warnings@) =~= before.push(unknown_option_line(c)));
            }
            proof {
                assert(t2.contains('v') == (t.contains('v') || c == 'v')) by {
                    if t2.contains('v') && c != 'v' {
                        let i = choose|i: int| 0 <= i < t2.len() && t2[i] == 'v';
                        assert(t[i] == 'v');
                    }
                    if t.contains('v') {
                        let i = choose|i: int| 0 <= i < t.len() && t[i] == 'v';
                        assert(t2[i] == 'v');
                    }
                    if c == 'v' {
                        assert(t2[t.len() as int] == 'v');
                    }
                }
                assert(t2.contains('e') == (t.contains('e') || c == 'e')) by {
                    if t2.contains('e') && c != 'e' {
                        let i = choose|i: int| 0 <= i < t2.len() && t2[i] == 'e';
                        assert(t[i] == 'e');
                    }
                    if t.contains('e') {
                        let i = choose|i: int| 0 <= i < t.len() && t[i] == 'e';
                        assert(t2[i] == 'e');
                    }
                    if c == 'e' {
                        assert(t2[t.len() as int] == 'e');
                    }
                }
                if c != 'v' && c != 'e' {
                    assert(u0 + t2.filter(|c: char| c != 'v' && c != 'e') =~= (u0 + t.filter(|c: char| c != 'v' && c != 'e')).push(c));
                }
            }
            j += 1;
        }
        assert(l.take(end - 1) =~= l);
        k += 1;
    }
    let mut command: Vec<String> = Vec::new();
    let mut i = k;
    while i < args.len()
        invariant
            k <= i <= args@.len(),
            av == string_views(args@),
            string_views(command@) == av.subrange(k as int, i as int),
        decreases args@.len() - i,
    {
        let ghost before = string_views(command@);
        command.push(args[i].clone());
        assert(string_views(command@) =~= before.push(av[i as int]));
        i += 1;
        assert(av.subrange(k as int, i as int) =~= av.subrange(k as int, i - 1).push(av[i - 1]));
    }
    assert(av.subrange(k as int, args@.len() as int) =~= av.skip(k as int));
    ChronicArgs { verbose: v, stderr_trigger: e, warnings, command }
}

/// The output is shown when the command failed, was killed, or (with `-e`)
/// wrote to standard error.
pub open spec fn should_show_spec(code: Option<i32>, stderr_len: int, stderr_trigger: bool) -> bool {
    (code matches Some(c) && c != 0) || code is None || (stderr_trigger && stderr_len > 0)
}

pub fn should_show(code: Option<i32>, stderr_len: usize, stderr_trigger: bool) -> (r: bool)
    ensures
        r == should_show_spec(code, stderr_len as int, stderr_trigger),
{
    let signaled = code.is_none();
    let retval = match code {
        Some(c) => c,
        None => 0,
    };
    retval != 0 || signaled || (stderr_trigger && stderr_len > 0)
}

/// The exit status of `chronic`: the command's failing code, 1 when it was
/// killed, 2 when `-e` saw standard error output, else 0.
pub open spec fn exit_status_spec(code: Option<i32>, stderr_len: int, stderr_trigger: bool) -> int {
    match code {
        Some(c) => if c != 0 { c as int } else if stderr_trigger && stderr_len > 0 { 2 } else { 0 },
        None => 1,
    }
}

pub fn exit_status(code: Option<i32>, stderr_len: usize, stderr_trigger: bool) -> (r: i32)
    ensures
        r == exit_status_spec(code, stderr_len as int, stderr_trigger),
{
    match code {
        Some(c) => {
            if c != 0 {
                c
            } else if stderr_trigger && stderr_len > 0 {
                2
            } else {
                0
            }
        },
        None => 1,
    }
}

/// A run is silent exactly when `chronic` succeeds: the output is shown if
/// and only if the exit status is not zero.
pub proof fn lemma_silent_iff_success(code: Option<i32>, stderr_len: int, stderr_trigger: bool)
    ensures
        should_show_spec(code, stderr_len, stderr_trigger) <==> exit_status_spec(code, stderr_len, stderr_trigger) != 0,
{
}

/// The return value that `-v` reports: the exit code, or 0 when killed.
pub fn retval(code: Option<i32>) -> (r: i32)
    ensures
        r == match code { Some(c) => c, None => 0 },
{
    match code {
        Some(c) => c,
        None => 0,
    }
}

/// Why running the command failed.
#[derive(Clone, Copy, Debug, PartialEq, Eq, Structural)]
pub enum ExecFailure {
    NotFound,
    PermissionDenied,
    Other,
}

/// `s` with each colon written as a comma and a space.
pub open spec fn colons_to_commas(s: Seq<char>) -> Seq<char>
    decreases s.len(),
{
    if s.len() == 0 {
        s
    } else {
        (if s[0] == ':' { seq![',', ' '] } else { seq![s[0]] }) + colons_to_commas(s.drop_first())
    }
}

/// The message and status for a command that could not be run; `path` is the value of PATH and `other` the error
/// text for other failures.
pub open spec fn exec_error_spec(command: Seq<char>, kind: ExecFailure, path: Seq<char>, other: Seq<char>) -> (Seq<char>, int) {
    let has_slash = command.contains('/');
    let not_found = "Command '"@ + command + "' not found in "@ + colons_to_commas(path) + " at /bin/chronic line 69."@;
    match kind {
        ExecFailure::NotFound => if has_slash {
            ("file not found: "@ + command + " at /bin/chronic line 69."@, 2)
        } else {
            (not_found, 2)
        },
        ExecFailure::PermissionDenied => if has_slash {
            ("permission denied: "@ + command + " at /bin/chronic line 69."@, 255)
        } else {
            (not_found, 2)
        },
        ExecFailure::Other => (command + ": "@ + other, 1),
    }
}

fn append(out: &mut Vec<char>, s: &[char])
    ensures
        final(out)@ == old(out)@ + s@,
{
    let mut i: usize = 0;
    let ghost start = out@;
    while i < s.len()
        invariant
            i <= s@.len(),
            out@ == start + s@.take(i as int),
        decreases s@.len() - i,
    {
        out.push(s[i]);
        i += 1;
        assert(s@.take(i as int) =~= s@.take(i - 1).push(s@[i - 1]));
    }
    assert(s@.take(s@.len() as int) =~= s@);
}

fn push_lit(out: &mut Vec<char>, s: &str)
    ensures
        final(out)@ == old(out)@ + s@,
{
    let c = chars_of(s);
    append(out, c.as_slice());
}

fn push_commas(out: &mut Vec<char>, s: &[char])
    ensures
        final(out)@ == old(out)@ + colons_to_commas(s@),
{
    let ghost start = out@;
    let mut i: usize = 0;
    assert(s@.skip(0) =~= s@);
    while i < s.len()
        invariant
            i <= s@.len(),
            out@ + colons_to_commas(s@.skip(i as int)) == start + colons_to_commas(s@),
        decreases s@.len() - i,
    {
        let ghost before = out@;
        if s[i] == ':' {
            out.push(',');
            out.push(' ');
        } else {
            out.push(s[i]);
        }
        assert(s@.skip(i as int).drop_first() =~= s@.skip(i + 1));
        assert(out@ + colons_to_commas(s@.skip(i + 1)) =~= before + colons_to_commas(s@.skip(i as int)));
        i += 1;
    }
    assert(s@.skip(i as int) =~= Seq::<char>::empty());
    assert(out@ + colons_to_commas(s@.skip(i as int)) =~= out@);
}

pub fn exec_error(command: &str, kind: ExecFailure, path: &str, other: &str) -> (r: (String, i32))
    ensures
        (r.0@, r.1 as int) == exec_error_spec(command@, kind, path@, other@),
{
    let c = chars_of(command);
    let has_slash = crate::text::index_of(c.as_slice(), '/').is_some();
    let mut out: Vec<char> = Vec::new();
    let code: i32;
    if kind == ExecFailure::Other {
        append(&mut out, c.as_slice());
        push_lit(&mut out, ": ");
        push_lit(&mut out, other);
        code = 1;
    } else if has_slash {
        if kind == ExecFailure::NotFound {
            push_lit(&mut out, "file not found: ");
            code = 2;
        } else {
            push_lit(&mut out, "permission denied: ");
            code = 255;
        }
        append(&mut out, c.as_slice());
        push_lit(&mut out, " at /bin/chronic line 69.");
    } else {
        push_lit(&mut out, "Command '");
        append(&mut out, c.as_slice());
        push_lit(&mut out, "' not found in ");
        let p = chars_of(path);
        push_commas(&mut out, p.as_slice());
        push_lit(&mut out, " at /bin/chronic line 69.");
        code = 2;
    }
    (string_from_chars(out.as_slice()), code)
}

/// A command without a slash cannot be found when PATH is unset or empty:
/// the message then (exit status 255).
pub fn missing_path_msg(command: &str, path: Option<&str>) -> (r: Option<String>)
    ensures
        match r {
            Some(m) => !command@.contains('/') && (path is None || path.unwrap()@.len() == 0)
                && m@ == "Command '"@ + command@ + "' not found in  at /bin/chronic line 69."@,
            None => command@.contains('/') || (path is Some && path.unwrap()@.len() > 0),
        },
{
    let c = chars_of(command);
    if crate::text::index_of(c.as_slice(), '/').is_some() {
        return None;
    }
    let empty = match path {
        None => true,
        Some(p) => p.is_empty(),
    };
    if !empty {
        return None;
    }
    let mut out: Vec<char> = Vec::new();
    push_lit(&mut out, "Command '");
    append(&mut out, c.as_slice());
    push_lit(&mut out, "' not found in  at /bin/chronic line 69.");
    Some(string_from_chars(out.as_slice()))
}

} // verus!
