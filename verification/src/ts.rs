//! `ts`: put a timestamp in front of each input line, or, with `-r`, turn the
//! timestamps found in lines into relative or reformatted times.
use vstd::prelude::*;
use crate::text::{
    before_first, after_first,
    append_all, chars_of, concat, decimal, has_suffix, index_of, lower_chars, lower_seq,
    parse_int, parse_int_spec, push_decimal, same_chars, string_from_chars, sub_vec,
};

verus! {

broadcast use vstd::seq::group_seq_axioms;

// ---------------------------------------------------------------------------
// Command line
// ---------------------------------------------------------------------------

/// The command line of `ts`: its mode flags, the format (first operand) and
/// the files to read (the other operands).
pub struct Options {
    pub rel: bool,
    pub inc: bool,
    pub since_start: bool,
    pub mono: bool,
    pub format: Option<String>,
    pub files: Vec<String>,
}

/// `s` without its leading `c`s (`trim_start_matches`).
pub open spec fn trim_leading(s: Seq<char>, c: char) -> Seq<char>
    decreases s.len(),
{
    if s.len() > 0 && s[0] == c {
        trim_leading(s.drop_first(), c)
    } else {
        s
    }
}

/// The flags seen so far, the operands, whether `--` was seen, and the first
/// error, after which nothing more is read.
pub type ArgState = (bool, bool, bool, bool, Seq<Seq<char>>, bool, Option<Seq<char>>);

pub open spec fn flag_letter(c: Seq<char>) -> bool {
    c == seq!['r'] || c == seq!['i'] || c == seq!['s'] || c == seq!['m']
}

pub open spec fn no_argument_msg(name: Seq<char>) -> Seq<char> {
    "Option "@ + name + " does not take an argument"@
}

pub open spec fn unknown_option_msg(name: Seq<char>) -> Seq<char> {
    "Unknown option: "@ + name
}

pub open spec fn ts_arg_step(st: ArgState, arg: Seq<char>) -> ArgState {
    if st.6 is Some {
        st
    } else if !st.5 && arg == seq!['-', '-'] {
        (st.0, st.1, st.2, st.3, st.4, true, None)
    } else if !st.5 && arg.len() > 0 && arg[0] == '-' && arg != seq!['-'] {
        let name_value = trim_leading(arg, '-');
        let name = before_first(name_value, '=');
        let lower = lower_seq(name);
        if flag_letter(lower) {
            if name_value.contains('=') {
                (st.0, st.1, st.2, st.3, st.4, st.5, Some(no_argument_msg(lower)))
            } else {
                (
                    st.0 || lower == seq!['r'],
                    st.1 || lower == seq!['i'],
                    st.2 || lower == seq!['s'],
                    st.3 || lower == seq!['m'],
                    st.4,
                    st.5,
                    None,
                )
            }
        } else {
            (st.0, st.1, st.2, st.3, st.4, st.5, Some(unknown_option_msg(lower)))
        }
    } else {
        (st.0, st.1, st.2, st.3, st.4.push(arg), st.5, None)
    }
}

pub open spec fn ts_scan(args: Seq<Seq<char>>) -> ArgState
    decreases args.len(),
{
    if args.len() == 0 {
        (false, false, false, false, Seq::empty(), false, None)
    } else {
        ts_arg_step(ts_scan(args.drop_last()), args.last())
    }
}

pub open spec fn string_views(v: Seq<String>) -> Seq<Seq<char>> {
    v.map_values(|s: String| s@)
}

proof fn lemma_trim_leading(s: Seq<char>, c: char, k: int)
    requires
        0 <= k <= s.len(),
        forall|j: int| 0 <= j < k ==> s[j] == c,
        k < s.len() ==> s[k] != c,
    ensures
        trim_leading(s, c) == s.skip(k),
    decreases k,
{
    if k == 0 {
        assert(s.skip(0) =~= s);
    } else {
        assert forall|j: int| 0 <= j < k - 1 implies s.drop_first()[j] == c by {
            assert(s.drop_first()[j] == s[j + 1]);
        }
        lemma_trim_leading(s.drop_first(), c, k - 1);
        assert(s.drop_first().skip(k - 1) =~= s.skip(k));
    }
}

proof fn lemma_error_sticks(args: Seq<Seq<char>>, i: int)
    requires
        0 <= i <= args.len(),
        ts_scan(args.take(i)).6 is Some,
    ensures
        ts_scan(args) == ts_scan(args.take(i)),
    decreases args.len() - i,
{
    if i < args.len() {
        assert(args.drop_last().take(i) =~= args.take(i));
        lemma_error_sticks(args.drop_last(), i);
    } else {
        assert(args.take(i) =~= args);
    }
}

fn lit(s: &str) -> (v: Vec<char>)
    ensures
        v@ == s@,
{
    chars_of(s)
}

/// Reads the command line of `ts`. Options are `-r`, `-i`, `-s` and `-m` in
/// either case and with any number of leading dashes; `--` ends them; they
/// may follow operands. The first bad option gives its message.
pub fn parse_args(args: &[String]) -> (r: Result<Options, String>)
    ensures
        ({
            let st = ts_scan(string_views(args@));
            match r {
                Ok(o) => st.6 is None && o.rel == st.0 && o.inc == st.1 && o.since_start == st.2
                    && o.mono == st.3 && (if st.4.len() == 0 {
                    o.format is None
                } else {
                    o.format matches Some(f) && f@ == st.4[0]
                }) && (if st.4.len() > 1 {
                    string_views(o.files@) == st.4.drop_first()
                } else {
                    o.files@.len() == 0
                }),
                Err(msg) => st.6 == Some(msg@),
            }
        }),
{
    let mut rel = false;
    let mut inc = false;
    let mut since_start = false;
    let mut mono = false;
    let mut free: Vec<String> = Vec::new();
    let mut stop = false;
    let mut i: usize = 0;
    while i < args.len()
        invariant
            i <= args@.len(),
            (rel, inc, since_start, mono, string_views(free@), stop, None::<Seq<char>>) == ts_scan(
                string_views(args@.take(i as int)),
            ),
        decreases args@.len() - i,
    {
        let ghost before: ArgState = (
            rel,
            inc,
            since_start,
            mono,
            string_views(free@),
            stop,
            None,
        );
        let a = chars_of(args[i].as_str());
        let ghost av = a@;
        proof {
            assert(string_views(args@.take(i + 1)).drop_last() =~= string_views(args@.take(i as int)));
            assert(string_views(args@.take(i + 1)).last() == av);
            assert(args@.take(i + 1).drop_last() =~= args@.take(i as int));
        }
        let dashdash = vec!['-', '-'];
        let dash = vec!['-'];
        if !stop && same_chars(a.as_slice(), dashdash.as_slice()) {
            assert(dashdash@ =~= seq!['-', '-']);
            stop = true;
        } else if !stop && a.len() > 0 && a[0] == '-' && !same_chars(a.as_slice(), dash.as_slice()) {
            assert(dashdash@ =~= seq!['-', '-']);
            assert(dash@ =~= seq!['-']);
            let mut k: usize = 0;
            while k < a.len() && a[k] == '-'
                invariant
                    k <= a@.len(),
                    forall|j: int| 0 <= j < k ==> a@[j] == '-',
                decreases a@.len() - k,
            {
                k += 1;
            }
            proof {
                lemma_trim_leading(av, '-', k as int);
            }
            let name_value = sub_vec(a.as_slice(), k, a.len());
            assert(name_value@ =~= av.skip(k as int));
            let eq = index_of(name_value.as_slice(), '=');
            let name_end = match eq {
                Some(e) => e,
                None => name_value.len(),
            };
            proof {
                crate::text::lemma_before_first(name_value@, '=', name_end as int);
                if name_end < name_value@.len() {
                    assert(name_value@.contains('='));
                } else {
                    assert(!name_value@.contains('='));
                }
            }
            let name = sub_vec(name_value.as_slice(), 0, name_end);
            let lower = lower_chars(name.as_slice());
            let is_flag = lower.len() == 1 && (lower[0] == 'r' || lower[0] == 'i' || lower[0] == 's'
                || lower[0] == 'm');
            proof {
                if lower@.len() == 1 {
                    assert(lower@ =~= seq![lower@[0]]);
                }
                if lower@ == seq!['r'] || lower@ == seq!['i'] || lower@ == seq!['s'] || lower@ == seq!['m'] {
                    assert(lower@.len() == 1);
                }
            }
            if is_flag {
                if eq.is_some() {
                    let m = concat(
                        concat(lit("Option ").as_slice(), lower.as_slice()).as_slice(),
                        lit(" does not take an argument").as_slice(),
                    );
                    proof {
                        assert(ts_scan(string_views(args@.take(i + 1))).6 == Some(m@));
                        assert(string_views(args@.take(i + 1)) =~= string_views(args@).take(i + 1));
                        lemma_error_sticks(string_views(args@), i + 1);
                    }
                    return Err(string_from_chars(m.as_slice()));
                }
                let c = lower[0];
                assert(lower@ == seq!['r'] <==> c == 'r');
                assert(lower@ == seq!['i'] <==> c == 'i');
                assert(lower@ == seq!['s'] <==> c == 's');
                assert(lower@ == seq!['m'] <==> c == 'm');
                if c == 'r' {
                    rel = true;
                } else if c == 'i' {
                    inc = true;
                } else if c == 's' {
                    since_start = true;
                } else {
                    mono = true;
                }
            } else {
                let m = concat(lit("Unknown option: ").as_slice(), lower.as_slice());
                proof {
                    assert(ts_scan(string_views(args@.take(i + 1))).6 == Some(m@));
                    assert(string_views(args@.take(i + 1)) =~= string_views(args@).take(i + 1));
                    lemma_error_sticks(string_views(args@), i + 1);
                }
                return Err(string_from_chars(m.as_slice()));
            }
        } else {
            assert(dashdash@ =~= seq!['-', '-']);
            assert(dash@ =~= seq!['-']);
            free.push(args[i].clone());
        }
        i += 1;
    }
    assert(args@.take(args@.len() as int) =~= args@);
    let format = if free.len() > 0 {
        Some(free[0].clone())
    } else {
        None
    };
    let mut files: Vec<String> = Vec::new();
    if free.len() > 1 {
        let mut j: usize = 1;
        while j < free.len()
            invariant
                1 <= j <= free@.len(),
                files@.len() == j - 1,
                string_views(files@) =~= string_views(free@).subrange(1, j as int),
            decreases free@.len() - j,
        {
            let ghost old_files = files@;
            files.push(free[j].clone());
            assert(string_views(files@) =~= string_views(old_files).push(free@[j as int]@));
            j += 1;
        }
        assert(string_views(free@).subrange(1, free@.len() as int) =~= string_views(free@).drop_first());
    }
    Ok(Options { rel, inc, since_start, mono, format, files })
}

/// The format used when none is given: `%H:%M:%S` for elapsed times,
/// `%b %d %H:%M:%S` otherwise.
pub fn effective_format(opts: &Options) -> (r: String)
    ensures
        match opts.format {
            Some(f) => r@ == f@,
            None => if opts.inc || opts.since_start {
                r@ == "%H:%M:%S"@
            } else {
                r@ == "%b %d %H:%M:%S"@
            },
        },
{
    match &opts.format {
        Some(f) => f.clone(),
        None => if opts.inc || opts.since_start {
            String::from_str("%H:%M:%S")
        } else {
            String::from_str("%b %d %H:%M:%S")
        },
    }
}

/// The usage line, written to standard error after an option error (exit
/// status 255).
pub fn usage_text() -> (r: String)
    ensures
        r@ == "usage: ts [-r] [-i | -s] [-m] [format]"@,
{
    String::from_str("usage: ts [-r] [-i | -s] [-m] [format]")
}

} // verus!
