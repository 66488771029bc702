//! `errno`: look up error numbers by name or number, list them, or search
//! their descriptions.
use vstd::prelude::*;
use vstd::utf8::encode_utf8;
use crate::text::{
    append_all, before_first, chars_of, concat, contains, contains_seq, eq_ignore_ascii_case,
    has_prefix, index_of, is_digit, lemma_before_first, lower_seq, parse_int, parse_int_spec,
    push_signed_decimal, same_chars, signed_decimal, starts_with, string_from_chars, sub_vec,
    ascii_bytes, to_ascii_bytes,
};

verus! {

broadcast use vstd::seq::group_seq_axioms;

/// The error names this tool knows, with their Linux numbers, in the order of
/// the listing. Aliases (`EWOULDBLOCK`, `EDEADLOCK`, `ENOTSUP`) share the
/// number of the entry they stand for.
pub open spec fn errno_table() -> Seq<(&'static str, i32)> {
    seq![
        ("EPERM", 1), ("ENOENT", 2), ("ESRCH", 3), ("EINTR", 4), ("EIO", 5), ("ENXIO", 6),
        ("E2BIG", 7), ("ENOEXEC", 8), ("EBADF", 9), ("ECHILD", 10), ("EAGAIN", 11),
        ("ENOMEM", 12), ("EACCES", 13), ("EFAULT", 14), ("ENOTBLK", 15), ("EBUSY", 16),
        ("EEXIST", 17), ("EXDEV", 18), ("ENODEV", 19), ("ENOTDIR", 20), ("EISDIR", 21),
        ("EINVAL", 22), ("ENFILE", 23), ("EMFILE", 24), ("ENOTTY", 25), ("ETXTBSY", 26),
        ("EFBIG", 27), ("ENOSPC", 28), ("ESPIPE", 29), ("EROFS", 30), ("EMLINK", 31),
        ("EPIPE", 32), ("EDOM", 33), ("ERANGE", 34), ("EDEADLK", 35), ("ENAMETOOLONG", 36),
        ("ENOLCK", 37), ("ENOSYS", 38), ("ENOTEMPTY", 39), ("ELOOP", 40), ("EWOULDBLOCK", 11),
        ("ENOMSG", 42), ("EIDRM", 43), ("ECHRNG", 44), ("EL2NSYNC", 45), ("EL3HLT", 46),
        ("EL3RST", 47), ("ELNRNG", 48), ("EUNATCH", 49), ("ENOCSI", 50), ("EL2HLT", 51),
        ("EBADE", 52), ("EBADR", 53), ("EXFULL", 54), ("ENOANO", 55), ("EBADRQC", 56),
        ("EBADSLT", 57), ("EDEADLOCK", 35), ("EBFONT", 59), ("ENOSTR", 60), ("ENODATA", 61),
        ("ETIME", 62), ("ENOSR", 63), ("ENONET", 64), ("ENOPKG", 65), ("EREMOTE", 66),
        ("ENOLINK", 67), ("EADV", 68), ("ESRMNT", 69), ("ECOMM", 70), ("EPROTO", 71),
        ("EMULTIHOP", 72), ("EDOTDOT", 73), ("EBADMSG", 74), ("EOVERFLOW", 75),
        ("ENOTUNIQ", 76), ("EBADFD", 77), ("EREMCHG", 78), ("ELIBACC", 79), ("ELIBBAD", 80),
        ("ELIBSCN", 81), ("ELIBMAX", 82), ("ELIBEXEC", 83), ("EILSEQ", 84), ("ERESTART", 85),
        ("ESTRPIPE", 86), ("EUSERS", 87), ("ENOTSOCK", 88), ("EDESTADDRREQ", 89),
        ("EMSGSIZE", 90), ("EPROTOTYPE", 91), ("ENOPROTOOPT", 92), ("EPROTONOSUPPORT", 93),
        ("ESOCKTNOSUPPORT", 94), ("EOPNOTSUPP", 95), ("EPFNOSUPPORT", 96),
        ("EAFNOSUPPORT", 97), ("EADDRINUSE", 98), ("EADDRNOTAVAIL", 99), ("ENETDOWN", 100),
        ("ENETUNREACH", 101), ("ENETRESET", 102), ("ECONNABORTED", 103), ("ECONNRESET", 104),
        ("ENOBUFS", 105), ("EISCONN", 106), ("ENOTCONN", 107), ("ESHUTDOWN", 108),
        ("ETOOMANYREFS", 109), ("ETIMEDOUT", 110), ("ECONNREFUSED", 111), ("EHOSTDOWN", 112),
        ("EHOSTUNREACH", 113), ("EALREADY", 114), ("EINPROGRESS", 115), ("ESTALE", 116),
        ("EUCLEAN", 117), ("ENOTNAM", 118), ("ENAVAIL", 119), ("EISNAM", 120),
        ("EREMOTEIO", 121), ("EDQUOT", 122), ("ENOMEDIUM", 123), ("EMEDIUMTYPE", 124),
        ("ECANCELED", 125), ("ENOKEY", 126), ("EKEYEXPIRED", 127), ("EKEYREVOKED", 128),
        ("EKEYREJECTED", 129), ("EOWNERDEAD", 130), ("ENOTRECOVERABLE", 131), ("ERFKILL", 132),
        ("EHWPOISON", 133), ("ENOTSUP", 95),
    ]
}

pub fn table() -> (t: Vec<(&'static str, i32)>)
    ensures
        t@ == errno_table(),
{
    let t = vec![
        ("EPERM", 1), ("ENOENT", 2), ("ESRCH", 3), ("EINTR", 4), ("EIO", 5), ("ENXIO", 6),
        ("E2BIG", 7), ("ENOEXEC", 8), ("EBADF", 9), ("ECHILD", 10), ("EAGAIN", 11),
        ("ENOMEM", 12), ("EACCES", 13), ("EFAULT", 14), ("ENOTBLK", 15), ("EBUSY", 16),
        ("EEXIST", 17), ("EXDEV", 18), ("ENODEV", 19), ("ENOTDIR", 20), ("EISDIR", 21),
        ("EINVAL", 22), ("ENFILE", 23), ("EMFILE", 24), ("ENOTTY", 25), ("ETXTBSY", 26),
        ("EFBIG", 27), ("ENOSPC", 28), ("ESPIPE", 29), ("EROFS", 30), ("EMLINK", 31),
        ("EPIPE", 32), ("EDOM", 33), ("ERANGE", 34), ("EDEADLK", 35), ("ENAMETOOLONG", 36),
        ("ENOLCK", 37), ("ENOSYS", 38), ("ENOTEMPTY", 39), ("ELOOP", 40), ("EWOULDBLOCK", 11),
        ("ENOMSG", 42), ("EIDRM", 43), ("ECHRNG", 44), ("EL2NSYNC", 45), ("EL3HLT", 46),
        ("EL3RST", 47), ("ELNRNG", 48), ("EUNATCH", 49), ("ENOCSI", 50), ("EL2HLT", 51),
        ("EBADE", 52), ("EBADR", 53), ("EXFULL", 54), ("ENOANO", 55), ("EBADRQC", 56),
        ("EBADSLT", 57), ("EDEADLOCK", 35), ("EBFONT", 59), ("ENOSTR", 60), ("ENODATA", 61),
        ("ETIME", 62), ("ENOSR", 63), ("ENONET", 64), ("ENOPKG", 65), ("EREMOTE", 66),
        ("ENOLINK", 67), ("EADV", 68), ("ESRMNT", 69), ("ECOMM", 70), ("EPROTO", 71),
        ("EMULTIHOP", 72), ("EDOTDOT", 73), ("EBADMSG", 74), ("EOVERFLOW", 75),
        ("ENOTUNIQ", 76), ("EBADFD", 77), ("EREMCHG", 78), ("ELIBACC", 79), ("ELIBBAD", 80),
        ("ELIBSCN", 81), ("ELIBMAX", 82), ("ELIBEXEC", 83), ("EILSEQ", 84), ("ERESTART", 85),
        ("ESTRPIPE", 86), ("EUSERS", 87), ("ENOTSOCK", 88), ("EDESTADDRREQ", 89),
        ("EMSGSIZE", 90), ("EPROTOTYPE", 91), ("ENOPROTOOPT", 92), ("EPROTONOSUPPORT", 93),
        ("ESOCKTNOSUPPORT", 94), ("EOPNOTSUPP", 95), ("EPFNOSUPPORT", 96),
        ("EAFNOSUPPORT", 97), ("EADDRINUSE", 98), ("EADDRNOTAVAIL", 99), ("ENETDOWN", 100),
        ("ENETUNREACH", 101), ("ENETRESET", 102), ("ECONNABORTED", 103), ("ECONNRESET", 104),
        ("ENOBUFS", 105), ("EISCONN", 106), ("ENOTCONN", 107), ("ESHUTDOWN", 108),
        ("ETOOMANYREFS", 109), ("ETIMEDOUT", 110), ("ECONNREFUSED", 111), ("EHOSTDOWN", 112),
        ("EHOSTUNREACH", 113), ("EALREADY", 114), ("EINPROGRESS", 115), ("ESTALE", 116),
        ("EUCLEAN", 117), ("ENOTNAM", 118), ("ENAVAIL", 119), ("EISNAM", 120),
        ("EREMOTEIO", 121), ("EDQUOT", 122), ("ENOMEDIUM", 123), ("EMEDIUMTYPE", 124),
        ("ECANCELED", 125), ("ENOKEY", 126), ("EKEYEXPIRED", 127), ("EKEYREVOKED", 128),
        ("EKEYREJECTED", 129), ("EOWNERDEAD", 130), ("ENOTRECOVERABLE", 131), ("ERFKILL", 132),
        ("EHWPOISON", 133), ("ENOTSUP", 95),
    ];
    assert(t@ =~= errno_table());
    t
}

/// What the command line asks for when it does not name error numbers.
#[derive(Clone, Copy, Debug, PartialEq, Eq, Structural)]
pub enum Action {
    Help,
    List,
    Search,
    SearchAllLocales,
}

/// The command line taken apart: the chosen action (the last one given), the
/// operands, and the messages about bad options, in order.
pub struct ParsedArgs {
    pub action: Option<Action>,
    pub operands: Vec<String>,
    pub diagnostics: Vec<String>,
}

pub open spec fn string_views(v: Seq<String>) -> Seq<Seq<char>> {
    v.map_values(|s: String| s@)
}

pub open spec fn invalid_option_msg(c: char) -> Seq<char> {
    "/bin/errno: invalid option -- '"@ + seq![c] + "'"@
}

pub open spec fn no_argument_msg(name: Seq<char>) -> Seq<char> {
    "/bin/errno: option '--"@ + name + "' doesn't allow an argument"@
}

pub open spec fn unrecognized_msg(long: Seq<char>) -> Seq<char> {
    "/bin/errno: unrecognized option '--"@ + long + "'"@
}

/// The action a long option names, if it is one.
pub open spec fn long_action(name: Seq<char>) -> Option<Action> {
    if name == "help"@ {
        Some(Action::Help)
    } else if name == "list"@ {
        Some(Action::List)
    } else if name == "search"@ {
        Some(Action::Search)
    } else if name == "search-all-locales"@ {
        Some(Action::SearchAllLocales)
    } else {
        None
    }
}

/// The action a short option letter names, if it is one.
pub open spec fn short_action(c: char) -> Option<Action> {
    if c == 'h' {
        Some(Action::Help)
    } else if c == 'l' {
        Some(Action::List)
    } else if c == 's' {
        Some(Action::Search)
    } else if c == 'S' {
        Some(Action::SearchAllLocales)
    } else {
        None
    }
}

/// The state of the scan: action, operands, messages, and whether `--` ended
/// the options.
pub type ScanState = (Option<Action>, Seq<Seq<char>>, Seq<Seq<char>>, bool);

pub open spec fn short_step(st: ScanState, c: char) -> ScanState {
    match short_action(c) {
        Some(a) => (Some(a), st.1, st.2, st.3),
        None => (st.0, st.1, st.2.push(invalid_option_msg(c)), st.3),
    }
}

/// The effect of the letters `cs` of a cluster of short options.
pub open spec fn short_steps(st: ScanState, cs: Seq<char>) -> ScanState
    decreases cs.len(),
{
    if cs.len() == 0 {
        st
    } else {
        short_step(short_steps(st, cs.drop_last()), cs.last())
    }
}

/// The effect of one argument.
pub open spec fn arg_step(st: ScanState, arg: Seq<char>) -> ScanState {
    if st.3 {
        (st.0, st.1.push(arg), st.2, true)
    } else if arg == "--"@ {
        (st.0, st.1, st.2, true)
    } else if starts_with(arg, "--"@) {
        let long = arg.skip(2);
        if long.contains('=') {
            let name = before_first(long, '=');
            if long_action(name) is Some {
                (st.0, st.1, st.2.push(no_argument_msg(name)), st.3)
            } else {
                (st.0, st.1, st.2.push(unrecognized_msg(long)), st.3)
            }
        } else {
            match long_action(long) {
                Some(a) => (Some(a), st.1, st.2, st.3),
                None => (st.0, st.1, st.2.push(unrecognized_msg(long)), st.3),
            }
        }
    } else if arg.len() > 0 && arg[0] == '-' && arg != "-"@ {
        short_steps(st, arg.drop_first())
    } else {
        (st.0, st.1.push(arg), st.2, st.3)
    }
}

/// The state after scanning all of `args`, left to right.
pub open spec fn scan_args(args: Seq<Seq<char>>) -> ScanState
    decreases args.len(),
{
    if args.len() == 0 {
        (None, Seq::empty(), Seq::empty(), false)
    } else {
        arg_step(scan_args(args.drop_last()), args.last())
    }
}

fn lit(s: &str) -> (v: Vec<char>)
    ensures
        v@ == s@,
{
    chars_of(s)
}

fn long_action_of(name: &[char]) -> (r: Option<Action>)
    ensures
        r == long_action(name@),
{
    if same_chars(name, lit("help").as_slice()) {
        Some(Action::Help)
    } else if same_chars(name, lit("list").as_slice()) {
        Some(Action::List)
    } else if same_chars(name, lit("search").as_slice()) {
        Some(Action::Search)
    } else if same_chars(name, lit("search-all-locales").as_slice()) {
        Some(Action::SearchAllLocales)
    } else {
        None
    }
}

fn message3(a: &str, mid: &[char], b: &str) -> (r: String)
    ensures
        r@ == a@ + mid@ + b@,
{
    let first = concat(lit(a).as_slice(), mid);
    let all = concat(first.as_slice(), lit(b).as_slice());
    string_from_chars(all.as_slice())
}

/// Takes the command line of `errno` apart, the way its getopt does: options
/// may come after operands, `--` ends them, short options may be clustered,
/// and bad options are reported and skipped.
pub fn parse_args(args: &[String]) -> (r: ParsedArgs)
    ensures
        ({
            let st = scan_args(string_views(args@));
            &&& r.action == st.0
            &&& string_views(r.operands@) == st.1
            &&& string_views(r.diagnostics@) == st.2
        }),
{
    let mut action: Option<Action> = None;
    let mut operands: Vec<String> = Vec::new();
    let mut diagnostics: Vec<String> = Vec::new();
    let mut end = false;
    let mut i: usize = 0;
    while i < args.len()
        invariant
            i <= args@.len(),
            (action, string_views(operands@), string_views(diagnostics@), end) == scan_args(
                string_views(args@.take(i as int)),
            ),
        decreases args@.len() - i,
    {
        let ghost before: ScanState = (
            action,
            string_views(operands@),
            string_views(diagnostics@),
            end,
        );
        let arg = &args[i];
        let a = chars_of(arg.as_str());
        let ghost av = a@;
        proof {
            assert(string_views(args@.take(i + 1)).drop_last() =~= string_views(args@.take(i as int)));
            assert(string_views(args@.take(i + 1)).last() == av);
        }
        if end {
            operands.push(arg.clone());
            assert(string_views(operands@) =~= before.1.push(av));
        } else if same_chars(a.as_slice(), lit("--").as_slice()) {
            end = true;
        } else if has_prefix(a.as_slice(), lit("--").as_slice()) {
            proof {
                reveal_strlit("--");
            }
            let long = sub_vec(a.as_slice(), 2, a.len());
            assert(long@ =~= av.skip(2));
            match index_of(long.as_slice(), '=') {
                Some(eq) => {
                    proof {
                        assert(long@.contains('='));
                        lemma_before_first(long@, '=', eq as int);
                    }
                    let name = sub_vec(long.as_slice(), 0, eq);
                    assert(name@ =~= long@.take(eq as int));
                    if long_action_of(name.as_slice()).is_some() {
                        diagnostics.push(
                            message3("/bin/errno: option '--", name.as_slice(), "' doesn't allow an argument"),
                        );
                    } else {
                        diagnostics.push(message3("/bin/errno: unrecognized option '--", long.as_slice(), "'"));
                    }
                },
                None => {
                    match long_action_of(long.as_slice()) {
                        Some(act) => {
                            action = Some(act);
                        },
                        None => {
                            diagnostics.push(
                                message3("/bin/errno: unrecognized option '--", long.as_slice(), "'"),
                            );
                        },
                    }
                },
            }
            assert(string_views(diagnostics@) =~= arg_step(before, av).2);
        } else if a.len() > 0 && a[0] == '-' && !same_chars(a.as_slice(), lit("-").as_slice()) {
            let mut j: usize = 1;
            assert(av.drop_first().take(0) =~= Seq::<char>::empty());
            while j < a.len()
                invariant
                    1 <= j <= a@.len(),
                    a@ == av,
                    (action, string_views(operands@), string_views(diagnostics@), end)
                        == short_steps(before, av.drop_first().take(j - 1)),
                decreases a@.len() - j,
            {
                let c = a[j];
                proof {
                    assert(av.drop_first().take(j as int).drop_last() =~= av.drop_first().take(j - 1));
                    assert(av.drop_first().take(j as int).last() == c);
                }
                if c == 'h' {
                    action = Some(Action::Help);
                } else if c == 'l' {
                    action = Some(Action::List);
                } else if c == 's' {
                    action = Some(Action::Search);
                } else if c == 'S' {
                    action = Some(Action::SearchAllLocales);
                } else {
                    let one = vec![c];
                    diagnostics.push(message3("/bin/errno: invalid option -- '", one.as_slice(), "'"));
                    proof {
                        assert(one@ =~= seq![c]);
                    }
                }
                j += 1;
            }
            assert(av.drop_first().take(a@.len() - 1) =~= av.drop_first());
        } else {
            operands.push(arg.clone());
        }
        proof {
            assert(args@.take(i + 1).drop_last() =~= args@.take(i as int));
            assert((action, string_views(operands@), string_views(diagnostics@), end) == arg_step(before, av));
        }
        i += 1;
    }
    assert(args@.take(args@.len() as int) =~= args@);
    ParsedArgs { action, operands, diagnostics }
}

/// What a lookup operand gives: the table entry it names, nothing, or a
/// complaint that it is not understood.
#[derive(Clone, Copy, Debug, PartialEq, Eq, Structural)]
pub enum Lookup {
    Found(usize),
    Unknown,
    NotUnderstood,
}

/// The first table entry whose name equals `arg` when letter case is ignored.
pub open spec fn first_name_match(arg: Seq<char>, i: int) -> bool {
    0 <= i < errno_table().len() && lower_seq(errno_table()[i].0@) == lower_seq(arg) && forall|j: int|
        0 <= j < i ==> lower_seq(errno_table()[j].0@) != lower_seq(arg)
}

/// The first table entry with number `v`.
pub open spec fn first_code_match(v: int, i: int) -> bool {
    0 <= i < errno_table().len() && errno_table()[i].1 == v && forall|j: int|
        0 <= j < i ==> errno_table()[j].1 != v
}

/// Length of the run of ASCII digits at the start of `s`.
pub open spec fn digit_run(s: Seq<char>, k: int) -> bool {
    0 <= k <= s.len() && (forall|j: int| 0 <= j < k ==> is_digit(#[trigger] s[j])) && (k < s.len()
        ==> !is_digit(s[k]))
}

/// What looking up `arg` gives: a name (any case) finds its entry; an operand
/// starting with a digit is read as the number its leading digits denote and
/// finds the first entry with that number; an operand starting with `E` or `e`
/// that names nothing gives nothing; anything else is not understood.
pub open spec fn lookup_spec(arg: Seq<char>) -> Lookup {
    if exists|i: int| first_name_match(arg, i) {
        Lookup::Found((choose|i: int| first_name_match(arg, i)) as usize)
    } else if arg.len() > 0 && is_digit(arg[0]) {
        let k = choose|k: int| digit_run(arg, k);
        match parse_int_spec(arg.take(k), true, i64::MIN as int, i64::MAX as int) {
            Some(v) => if exists|i: int| first_code_match(v, i) {
                Lookup::Found((choose|i: int| first_code_match(v, i)) as usize)
            } else {
                Lookup::Unknown
            },
            None => Lookup::Unknown,
        }
    } else if arg.len() > 0 && (arg[0] == 'E' || arg[0] == 'e') {
        Lookup::Unknown
    } else {
        Lookup::NotUnderstood
    }
}

proof fn lemma_first_match_unique(arg: Seq<char>, i: int, k: int)
    requires
        first_name_match(arg, i),
        first_name_match(arg, k),
    ensures
        i == k,
{
}

proof fn lemma_first_code_unique(v: int, i: int, k: int)
    requires
        first_code_match(v, i),
        first_code_match(v, k),
    ensures
        i == k,
{
}

proof fn lemma_digit_run_unique(s: Seq<char>, a: int, b: int)
    requires
        digit_run(s, a),
        digit_run(s, b),
    ensures
        a == b,
{
}

/// Looks `arg` up in the table.
#[verifier::loop_isolation(false)]
#[verifier::spinoff_prover]
pub fn lookup(arg: &str) -> (r: Lookup)
    ensures
        r == lookup_spec(arg@),
        r matches Lookup::Found(i) ==> i < errno_table().len(),
{
    let t = table();
    let a = chars_of(arg);
    let mut i: usize = 0;
    while i < t.len()
        invariant
            t@ == errno_table(),
            a@ == arg@,
            i <= t@.len(),
            forall|j: int| 0 <= j < i ==> lower_seq(errno_table()[j].0@) != lower_seq(arg@),
        decreases t@.len() - i,
    {
        let name = chars_of(t[i].0);
        if eq_ignore_ascii_case(name.as_slice(), a.as_slice()) {
            proof {
                assert(first_name_match(arg@, i as int));
                let k = choose|k: int| first_name_match(arg@, k);
                lemma_first_match_unique(arg@, i as int, k);
            }
            return Lookup::Found(i);
        }
        i += 1;
    }
    assert(!exists|k: int| first_name_match(arg@, k));
    if a.len() > 0 && '0' <= a[0] && a[0] <= '9' {
        let mut k: usize = 0;
        while k < a.len() && '0' <= a[k] && a[k] <= '9'
            invariant
                k <= a@.len(),
                forall|j: int| 0 <= j < k ==> is_digit(#[trigger] a@[j]),
            decreases a@.len() - k,
        {
            k += 1;
        }
        proof {
            assert(digit_run(a@, k as int));
            let kk = choose|kk: int| digit_run(a@, kk);
            lemma_digit_run_unique(a@, k as int, kk);
        }
        let digits = sub_vec(a.as_slice(), 0, k);
        assert(digits@ =~= a@.take(k as int));
        match parse_int(digits.as_slice(), true, i64::MIN as i128, i64::MAX as i128) {
            Some(v) => {
                let mut j: usize = 0;
                while j < t.len()
                    invariant
                        t@ == errno_table(),
                        j <= t@.len(),
                        forall|q: int| 0 <= q < j ==> errno_table()[q].1 != v,
                    decreases t@.len() - j,
                {
                    if t[j].1 as i128 == v {
                        proof {
                            assert(first_code_match(v as int, j as int));
                            let q = choose|q: int| first_code_match(v as int, q);
                            lemma_first_code_unique(v as int, j as int, q);
                        }
                        return Lookup::Found(j);
                    }
                    j += 1;
                }
                assert(!exists|q: int| first_code_match(v as int, q));
                Lookup::Unknown
            },
            None => Lookup::Unknown,
        }
    } else if a.len() > 0 && (a[0] == 'E' || a[0] == 'e') {
        Lookup::Unknown
    } else {
        Lookup::NotUnderstood
    }
}


/// The line printed for an entry: its name, its number and its description,
/// separated by spaces.
pub open spec fn entry_line(name: Seq<u8>, code: int, desc: Seq<u8>) -> Seq<u8> {
    name + seq![32u8] + ascii_bytes(signed_decimal(code)) + seq![32u8] + desc + seq![10u8]
}

/// `NAME CODE DESCRIPTION\n` for one error number; `desc` is the C library's
/// message for it, as bytes in the current locale's encoding.
pub fn format_entry(name: &str, code: i32, desc: &[u8]) -> (r: Vec<u8>)
    ensures
        r@ == entry_line(encode_utf8(name@), code as int, desc@),
{
    let mut r: Vec<u8> = Vec::new();
    append_all(&mut r, name.as_bytes());
    r.push(32u8);
    let mut digits: Vec<char> = Vec::new();
    push_signed_decimal(&mut digits, code as i64);
    assert(digits@ =~= signed_decimal(code as int));
    let digit_bytes = to_ascii_bytes(digits.as_slice());
    append_all(&mut r, digit_bytes.as_slice());
    r.push(32u8);
    append_all(&mut r, desc);
    r.push(10u8);
    assert(r@ =~= entry_line(encode_utf8(name@), code as int, desc@));
    r
}

/// The text `String::from_utf8_lossy` makes of some bytes.
pub uninterp spec fn lossy_text(bytes: Seq<u8>) -> Seq<char>;

/// The text `str::to_lowercase` makes of some characters.
pub uninterp spec fn unicode_lowercase(s: Seq<char>) -> Seq<char>;

/// `String::from_utf8_lossy`: the bytes decoded as UTF-8, with U+FFFD in place
/// of each malformed part. Stated by name, and for valid UTF-8 as its decoding
/// (which the replacement leaves alone); how malformed parts are cut into
/// replacements is not stated.
#[verifier::external_body]
fn utf8_lossy(bytes: &[u8]) -> (s: String)
    ensures
        s@ == lossy_text(bytes@),
        vstd::utf8::valid_utf8(bytes@) ==> s@ == vstd::utf8::decode_utf8(bytes@),
{
    String::from_utf8_lossy(bytes).into_owned()
}

/// `str::to_lowercase`: the Unicode lowercase mapping. Stated only by name.
#[verifier::external_body]
fn to_lowercase(s: &str) -> (r: String)
    ensures
        r@ == unicode_lowercase(s@),
{
    s.to_lowercase()
}

/// Each operand in lower case, the form in which search words are compared.
pub fn lowercase_words(operands: &[String]) -> (r: Vec<String>)
    ensures
        r@.len() == operands@.len(),
        forall|i: int| 0 <= i < r@.len() ==> r@[i]@ == unicode_lowercase(#[trigger] operands@[i]@),
{
    let mut r: Vec<String> = Vec::new();
    let mut i: usize = 0;
    while i < operands.len()
        invariant
            i <= operands@.len(),
            r@.len() == i,
            forall|j: int| 0 <= j < i ==> r@[j]@ == unicode_lowercase(#[trigger] operands@[j]@),
        decreases operands@.len() - i,
    {
        r.push(to_lowercase(operands[i].as_str()));
        i += 1;
    }
    r
}

/// A description matches when every word occurs in its lowercase text.
pub open spec fn description_matches_spec(desc: Seq<u8>, words: Seq<String>) -> bool {
    forall|i: int|
        0 <= i < words.len() ==> contains_seq(
            unicode_lowercase(lossy_text(desc)),
            #[trigger] words[i]@,
        )
}

/// Whether every word of `words` occurs in the lowercase text of `desc`.
pub fn description_matches(desc: &[u8], words: &[String]) -> (r: bool)
    ensures
        r == description_matches_spec(desc@, words@),
{
    let text = utf8_lossy(desc);
    let lower = to_lowercase(text.as_str());
    let hay = chars_of(lower.as_str());
    let mut i: usize = 0;
    while i < words.len()
        invariant
            i <= words@.len(),
            hay@ == unicode_lowercase(lossy_text(desc@)),
            forall|j: int| 0 <= j < i ==> contains_seq(hay@, #[trigger] words@[j]@),
        decreases words@.len() - i,
    {
        let w = chars_of(words[i].as_str());
        if !contains(hay.as_slice(), w.as_slice()) {
            return false;
        }
        i += 1;
    }
    true
}

/// For each table entry, whether its description (`descs[i]` for entry `i`)
/// matches the search words.
pub fn search_flags(descs: &[Vec<u8>], words: &[String]) -> (r: Vec<bool>)
    ensures
        r@.len() == descs@.len(),
        forall|i: int|
            0 <= i < r@.len() ==> r@[i] == description_matches_spec(#[trigger] descs@[i]@, words@),
{
    let mut r: Vec<bool> = Vec::new();
    let mut i: usize = 0;
    while i < descs.len()
        invariant
            i <= descs@.len(),
            r@.len() == i,
            forall|j: int|
                0 <= j < i ==> r@[j] == description_matches_spec(#[trigger] descs@[j]@, words@),
        decreases descs@.len() - i,
    {
        r.push(description_matches(descs[i].as_slice(), words));
        i += 1;
    }
    r
}

/// The usage line of `errno` (written to standard output for `-h`).
pub open spec fn usage_spec() -> Seq<char> {
    "Usage: errno [-lsS] [--list] [--search] [--search-all-locales] [keyword]\n"@
}

pub fn usage_text() -> (r: String)
    ensures
        r@ == usage_spec(),
{
    String::from_str("Usage: errno [-lsS] [--list] [--search] [--search-all-locales] [keyword]\n")
}

/// The complaint about an operand that is neither a name nor a number.
pub fn not_understood_msg(arg: &str) -> (r: String)
    ensures
        r@ == "ERROR: Not understood: "@ + arg@,
{
    let first = concat(lit("ERROR: Not understood: ").as_slice(), chars_of(arg).as_slice());
    string_from_chars(first.as_slice())
}


/// A name of the table: `E` followed by upper-case ASCII letters and digits.
pub open spec fn upper_or_digits(n: Seq<char>) -> bool
    decreases n.len(),
{
    n.len() == 0 || ((('A' <= n[0] && n[0] <= 'Z') || ('0' <= n[0] && n[0] <= '9')) && upper_or_digits(n.drop_first()))
}

pub open spec fn errno_name_ok(n: Seq<char>) -> bool {
    n.len() > 0 && n[0] == 'E' && upper_or_digits(n)
}

/// The position in the table of a name of the table, told by its length and
/// a few of its letters.
pub open spec fn errno_name_index(s: Seq<char>) -> int {
    if s.len() == 3 {
        4
    } else if s.len() == 4 {
        if s[1] == 'A' {
            67
        } else {
            32
        }
    } else if s.len() == 5 {
        if s[1] == '2' {
            6
        } else if s[1] == 'B' {
            if s[4] == 'E' {
                51
            } else if s[4] == 'F' {
                8
            } else if s[4] == 'R' {
                52
            } else {
                15
            }
        } else if s[1] == 'C' {
            69
        } else if s[1] == 'F' {
            26
        } else if s[1] == 'I' {
            if s[2] == 'D' {
                42
            } else {
                3
            }
        } else if s[1] == 'L' {
            39
        } else if s[1] == 'N' {
            if s[2] == 'O' {
                62
            } else {
                5
            }
        } else if s[1] == 'P' {
            if s[2] == 'E' {
                0
            } else {
                31
            }
        } else if s[1] == 'R' {
            29
        } else if s[1] == 'S' {
            2
        } else if s[1] == 'T' {
            61
        } else {
            17
        }
    } else if s.len() == 6 {
        if s[3] == 'A' {
            if s[1] == 'A' {
                10
            } else if s[1] == 'N' {
                54
            } else {
                115
            }
        } else if s[3] == 'C' {
            if s[1] == 'A' {
                12
            } else {
                49
            }
        } else if s[3] == 'D' {
            if s[1] == 'B' {
                76
            } else if s[1] == 'I' {
                20
            } else {
                18
            }
        } else if s[3] == 'E' {
            if s[1] == 'N' {
                1
            } else {
                86
            }
        } else if s[3] == 'H' {
            if s[2] == '2' {
                50
            } else {
                45
            }
        } else if s[3] == 'I' {
            if s[1] == 'C' {
                9
            } else if s[1] == 'E' {
                16
            } else if s[1] == 'M' {
                if s[2] == 'F' {
                    23
                } else {
                    30
                }
            } else if s[1] == 'N' {
                22
            } else {
                28
            }
        } else if s[3] == 'K' {
            125
        } else if s[3] == 'L' {
            36
        } else if s[3] == 'M' {
            if s[4] == 'E' {
                11
            } else if s[4] == 'N' {
                68
            } else {
                41
            }
        } else if s[3] == 'N' {
            if s[1] == 'I' {
                119
            } else if s[1] == 'N' {
                63
            } else {
                33
            }
        } else if s[3] == 'O' {
            if s[1] == 'B' {
                58
            } else {
                70
            }
        } else if s[3] == 'P' {
            64
        } else if s[3] == 'R' {
            if s[2] == '3' {
                46
            } else if s[2] == 'H' {
                43
            } else {
                47
            }
        } else if s[3] == 'S' {
            if s[4] == 'E' {
                83
            } else if s[4] == 'P' {
                27
            } else if s[4] == 'T' {
                59
            } else {
                37
            }
        } else if s[3] == 'T' {
            24
        } else if s[3] == 'U' {
            if s[1] == 'D' {
                121
            } else if s[1] == 'F' {
                13
            } else {
                53
            }
        } else {
            21
        }
    } else if s.len() == 7 {
        if s[6] == 'A' {
            60
        } else if s[6] == 'C' {
            if s[1] == 'B' {
                55
            } else if s[1] == 'L' {
                78
            } else {
                7
            }
        } else if s[6] == 'D' {
            79
        } else if s[6] == 'E' {
            65
        } else if s[6] == 'G' {
            if s[1] == 'B' {
                73
            } else {
                77
            }
        } else if s[6] == 'H' {
            48
        } else if s[6] == 'K' {
            if s[3] == 'A' {
                34
            } else if s[3] == 'L' {
                66
            } else {
                14
            }
        } else if s[6] == 'L' {
            if s[1] == 'N' {
                118
            } else {
                131
            }
        } else if s[6] == 'M' {
            117
        } else if s[6] == 'N' {
            if s[1] == 'I' {
                105
            } else if s[1] == 'L' {
                80
            } else {
                116
            }
        } else if s[6] == 'P' {
            133
        } else if s[6] == 'R' {
            19
        } else if s[6] == 'S' {
            104
        } else if s[6] == 'T' {
            if s[1] == 'B' {
                56
            } else {
                72
            }
        } else if s[6] == 'X' {
            81
        } else {
            25
        }
    } else if s.len() == 8 {
        if s[6] == 'C' {
            87
        } else if s[6] == 'D' {
            113
        } else if s[6] == 'E' {
            82
        } else if s[6] == 'I' {
            75
        } else if s[6] == 'N' {
            if s[1] == 'L' {
                44
            } else {
                106
            }
        } else if s[6] == 'P' {
            85
        } else if s[6] == 'R' {
            84
        } else if s[6] == 'W' {
            99
        } else {
            89
        }
    } else if s.len() == 9 {
        if s[1] == 'C' {
            124
        } else if s[1] == 'D' {
            57
        } else if s[1] == 'H' {
            if s[2] == 'O' {
                111
            } else {
                132
            }
        } else if s[1] == 'M' {
            71
        } else if s[1] == 'N' {
            if s[5] == 'D' {
                122
            } else if s[5] == 'E' {
                101
            } else {
                38
            }
        } else if s[1] == 'O' {
            74
        } else if s[1] == 'R' {
            120
        } else if s[1] == 'S' {
            107
        } else {
            109
        }
    } else if s.len() == 10 {
        if s[2] == 'D' {
            97
        } else if s[2] == 'O' {
            103
        } else if s[2] == 'P' {
            94
        } else if s[2] == 'R' {
            90
        } else {
            129
        }
    } else if s.len() == 11 {
        if s[6] == 'B' {
            40
        } else if s[6] == 'G' {
            114
        } else if s[6] == 'M' {
            123
        } else if s[6] == 'P' {
            126
        } else if s[6] == 'R' {
            100
        } else if s[6] == 'T' {
            91
        } else {
            127
        }
    } else if s.len() == 12 {
        if s[1] == 'A' {
            96
        } else if s[1] == 'C' {
            if s[5] == 'A' {
                102
            } else {
                110
            }
        } else if s[1] == 'D' {
            88
        } else if s[1] == 'H' {
            112
        } else if s[1] == 'K' {
            128
        } else if s[1] == 'N' {
            35
        } else if s[1] == 'P' {
            95
        } else {
            108
        }
    } else if s.len() == 13 {
        98
    } else {
        if s[1] == 'N' {
            130
        } else if s[1] == 'P' {
            92
        } else {
            93
        }
    }
}

/// The number listed at position `k`: Linux numbers its error constants from 1
/// in the order of the listing, and each of the three aliases (at positions
/// 40, 57 and 133) takes the number of the constant it stands for.
spec fn number_at(k: int) -> int {
    if k == 40 {
        11
    } else if k == 57 {
        35
    } else if k == 133 {
        95
    } else {
        k + 1
    }
}

/// Every entry from here on, the first being at position `k`, has the number
/// of its position and a well-formed name, found at its own position.
spec fn entries_ok(s: Seq<(&'static str, i32)>, k: int) -> bool
    decreases s.len(),
{
    s.len() == 0 || (s[0].1 == number_at(k) && errno_name_ok(s[0].0@) && errno_name_index(s[0].0@) == k
        && entries_ok(s.drop_first(), k + 1))
}

proof fn lemma_entries_from_0()
    requires
        entries_ok(errno_table().skip(17), 17),
    ensures
        entries_ok(errno_table().skip(0), 0),
{
    let t = errno_table();
    reveal_with_fuel(upper_or_digits, 20);
    reveal_strlit("EEXIST");
    assert(t[16].0@ == "EEXIST"@ && t[16].1 == 17);
    assert(errno_name_ok("EEXIST"@) && errno_name_index("EEXIST"@) == 16);
    assert(t.skip(16).drop_first() =~= t.skip(17));
    assert(entries_ok(t.skip(16), 16));
    reveal_strlit("EBUSY");
    assert(t[15].0@ == "EBUSY"@ && t[15].1 == 16);
    assert(errno_name_ok("EBUSY"@) && errno_name_index("EBUSY"@) == 15);
    assert(t.skip(15).drop_first() =~= t.skip(16));
    assert(entries_ok(t.skip(15), 15));
    reveal_strlit("ENOTBLK");
    assert(t[14].0@ == "ENOTBLK"@ && t[14].1 == 15);
    assert(errno_name_ok("ENOTBLK"@) && errno_name_index("ENOTBLK"@) == 14);
    assert(t.skip(14).drop_first() =~= t.skip(15));
    assert(entries_ok(t.skip(14), 14));
    reveal_strlit("EFAULT");
    assert(t[13].0@ == "EFAULT"@ && t[13].1 == 14);
    assert(errno_name_ok("EFAULT"@) && errno_name_index("EFAULT"@) == 13);
    assert(t.skip(13).drop_first() =~= t.skip(14));
    assert(entries_ok(t.skip(13), 13));
    reveal_strlit("EACCES");
    assert(t[12].0@ == "EACCES"@ && t[12].1 == 13);
    assert(errno_name_ok("EACCES"@) && errno_name_index("EACCES"@) == 12);
    assert(t.skip(12).drop_first() =~= t.skip(13));
    assert(entries_ok(t.skip(12), 12));
    reveal_strlit("ENOMEM");
    assert(t[11].0@ == "ENOMEM"@ && t[11].1 == 12);
    assert(errno_name_ok("ENOMEM"@) && errno_name_index("ENOMEM"@) == 11);
    assert(t.skip(11).drop_first() =~= t.skip(12));
    assert(entries_ok(t.skip(11), 11));
    reveal_strlit("EAGAIN");
    assert(t[10].0@ == "EAGAIN"@ && t[10].1 == 11);
    assert(errno_name_ok("EAGAIN"@) && errno_name_index("EAGAIN"@) == 10);
    assert(t.skip(10).drop_first() =~= t.skip(11));
    assert(entries_ok(t.skip(10), 10));
    reveal_strlit("ECHILD");
    assert(t[9].0@ == "ECHILD"@ && t[9].1 == 10);
    assert(errno_name_ok("ECHILD"@) && errno_name_index("ECHILD"@) == 9);
    assert(t.skip(9).drop_first() =~= t.skip(10));
    assert(entries_ok(t.skip(9), 9));
    reveal_strlit("EBADF");
    assert(t[8].0@ == "EBADF"@ && t[8].1 == 9);
    assert(errno_name_ok("EBADF"@) && errno_name_index("EBADF"@) == 8);
    assert(t.skip(8).drop_first() =~= t.skip(9));
    assert(entries_ok(t.skip(8), 8));
    reveal_strlit("ENOEXEC");
    assert(t[7].0@ == "ENOEXEC"@ && t[7].1 == 8);
    assert(errno_name_ok("ENOEXEC"@) && errno_name_index("ENOEXEC"@) == 7);
    assert(t.skip(7).drop_first() =~= t.skip(8));
    assert(entries_ok(t.skip(7), 7));
    reveal_strlit("E2BIG");
    assert(t[6].0@ == "E2BIG"@ && t[6].1 == 7);
    assert(errno_name_ok("E2BIG"@) && errno_name_index("E2BIG"@) == 6);
    assert(t.skip(6).drop_first() =~= t.skip(7));
    assert(entries_ok(t.skip(6), 6));
    reveal_strlit("ENXIO");
    assert(t[5].0@ == "ENXIO"@ && t[5].1 == 6);
    assert(errno_name_ok("ENXIO"@) && errno_name_index("ENXIO"@) == 5);
    assert(t.skip(5).drop_first() =~= t.skip(6));
    assert(entries_ok(t.skip(5), 5));
    reveal_strlit("EIO");
    assert(t[4].0@ == "EIO"@ && t[4].1 == 5);
    assert(errno_name_ok("EIO"@) && errno_name_index("EIO"@) == 4);
    assert(t.skip(4).drop_first() =~= t.skip(5));
    assert(entries_ok(t.skip(4), 4));
    reveal_strlit("EINTR");
    assert(t[3].0@ == "EINTR"@ && t[3].1 == 4);
    assert(errno_name_ok("EINTR"@) && errno_name_index("EINTR"@) == 3);
    assert(t.skip(3).drop_first() =~= t.skip(4));
    assert(entries_ok(t.skip(3), 3));
    reveal_strlit("ESRCH");
    assert(t[2].0@ == "ESRCH"@ && t[2].1 == 3);
    assert(errno_name_ok("ESRCH"@) && errno_name_index("ESRCH"@) == 2);
    assert(t.skip(2).drop_first() =~= t.skip(3));
    assert(entries_ok(t.skip(2), 2));
    reveal_strlit("ENOENT");
    assert(t[1].0@ == "ENOENT"@ && t[1].1 == 2);
    assert(errno_name_ok("ENOENT"@) && errno_name_index("ENOENT"@) == 1);
    assert(t.skip(1).drop_first() =~= t.skip(2));
    assert(entries_ok(t.skip(1), 1));
    reveal_strlit("EPERM");
    assert(t[0].0@ == "EPERM"@ && t[0].1 == 1);
    assert(errno_name_ok("EPERM"@) && errno_name_index("EPERM"@) == 0);
    assert(t.skip(0).drop_first() =~= t.skip(1));
    assert(entries_ok(t.skip(0), 0));
}

proof fn lemma_entries_from_17()
    requires
        entries_ok(errno_table().skip(34), 34),
    ensures
        entries_ok(errno_table().skip(17), 17),
{
    let t = errno_table();
    reveal_with_fuel(upper_or_digits, 20);
    reveal_strlit("ERANGE");
    assert(t[33].0@ == "ERANGE"@ && t[33].1 == 34);
    assert(errno_name_ok("ERANGE"@) && errno_name_index("ERANGE"@) == 33);
    assert(t.skip(33).drop_first() =~= t.skip(34));
    assert(entries_ok(t.skip(33), 33));
    reveal_strlit("EDOM");
    assert(t[32].0@ == "EDOM"@ && t[32].1 == 33);
    assert(errno_name_ok("EDOM"@) && errno_name_index("EDOM"@) == 32);
    assert(t.skip(32).drop_first() =~= t.skip(33));
    assert(entries_ok(t.skip(32), 32));
    reveal_strlit("EPIPE");
    assert(t[31].0@ == "EPIPE"@ && t[31].1 == 32);
    assert(errno_name_ok("EPIPE"@) && errno_name_index("EPIPE"@) == 31);
    assert(t.skip(31).drop_first() =~= t.skip(32));
    assert(entries_ok(t.skip(31), 31));
    reveal_strlit("EMLINK");
    assert(t[30].0@ == "EMLINK"@ && t[30].1 == 31);
    assert(errno_name_ok("EMLINK"@) && errno_name_index("EMLINK"@) == 30);
    assert(t.skip(30).drop_first() =~= t.skip(31));
    assert(entries_ok(t.skip(30), 30));
    reveal_strlit("EROFS");
    assert(t[29].0@ == "EROFS"@ && t[29].1 == 30);
    assert(errno_name_ok("EROFS"@) && errno_name_index("EROFS"@) == 29);
    assert(t.skip(29).drop_first() =~= t.skip(30));
    assert(entries_ok(t.skip(29), 29));
    reveal_strlit("ESPIPE");
    assert(t[28].0@ == "ESPIPE"@ && t[28].1 == 29);
    assert(errno_name_ok("ESPIPE"@) && errno_name_index("ESPIPE"@) == 28);
    assert(t.skip(28).drop_first() =~= t.skip(29));
    assert(entries_ok(t.skip(28), 28));
    reveal_strlit("ENOSPC");
    assert(t[27].0@ == "ENOSPC"@ && t[27].1 == 28);
    assert(errno_name_ok("ENOSPC"@) && errno_name_index("ENOSPC"@) == 27);
    assert(t.skip(27).drop_first() =~= t.skip(28));
    assert(entries_ok(t.skip(27), 27));
    reveal_strlit("EFBIG");
    assert(t[26].0@ == "EFBIG"@ && t[26].1 == 27);
    assert(errno_name_ok("EFBIG"@) && errno_name_index("EFBIG"@) == 26);
    assert(t.skip(26).drop_first() =~= t.skip(27));
    assert(entries_ok(t.skip(26), 26));
    reveal_strlit("ETXTBSY");
    assert(t[25].0@ == "ETXTBSY"@ && t[25].1 == 26);
    assert(errno_name_ok("ETXTBSY"@) && errno_name_index("ETXTBSY"@) == 25);
    assert(t.skip(25).drop_first() =~= t.skip(26));
    assert(entries_ok(t.skip(25), 25));
    reveal_strlit("ENOTTY");
    assert(t[24].0@ == "ENOTTY"@ && t[24].1 == 25);
    assert(errno_name_ok("ENOTTY"@) && errno_name_index("ENOTTY"@) == 24);
    assert(t.skip(24).drop_first() =~= t.skip(25));
    assert(entries_ok(t.skip(24), 24));
    reveal_strlit("EMFILE");
    assert(t[23].0@ == "EMFILE"@ && t[23].1 == 24);
    assert(errno_name_ok("EMFILE"@) && errno_name_index("EMFILE"@) == 23);
    assert(t.skip(23).drop_first() =~= t.skip(24));
    assert(entries_ok(t.skip(23), 23));
    reveal_strlit("ENFILE");
    assert(t[22].0@ == "ENFILE"@ && t[22].1 == 23);
    assert(errno_name_ok("ENFILE"@) && errno_name_index("ENFILE"@) == 22);
    assert(t.skip(22).drop_first() =~= t.skip(23));
    assert(entries_ok(t.skip(22), 22));
    reveal_strlit("EINVAL");
    assert(t[21].0@ == "EINVAL"@ && t[21].1 == 22);
    assert(errno_name_ok("EINVAL"@) && errno_name_index("EINVAL"@) == 21);
    assert(t.skip(21).drop_first() =~= t.skip(22));
    assert(entries_ok(t.skip(21), 21));
    reveal_strlit("EISDIR");
    assert(t[20].0@ == "EISDIR"@ && t[20].1 == 21);
    assert(errno_name_ok("EISDIR"@) && errno_name_index("EISDIR"@) == 20);
    assert(t.skip(20).drop_first() =~= t.skip(21));
    assert(entries_ok(t.skip(20), 20));
    reveal_strlit("ENOTDIR");
    assert(t[19].0@ == "ENOTDIR"@ && t[19].1 == 20);
    assert(errno_name_ok("ENOTDIR"@) && errno_name_index("ENOTDIR"@) == 19);
    assert(t.skip(19).drop_first() =~= t.skip(20));
    assert(entries_ok(t.skip(19), 19));
    reveal_strlit("ENODEV");
    assert(t[18].0@ == "ENODEV"@ && t[18].1 == 19);
    assert(errno_name_ok("ENODEV"@) && errno_name_index("ENODEV"@) == 18);
    assert(t.skip(18).drop_first() =~= t.skip(19));
    assert(entries_ok(t.skip(18), 18));
    reveal_strlit("EXDEV");
    assert(t[17].0@ == "EXDEV"@ && t[17].1 == 18);
    assert(errno_name_ok("EXDEV"@) && errno_name_index("EXDEV"@) == 17);
    assert(t.skip(17).drop_first() =~= t.skip(18));
    assert(entries_ok(t.skip(17), 17));
}

proof fn lemma_entries_from_34()
    requires
        entries_ok(errno_table().skip(51), 51),
    ensures
        entries_ok(errno_table().skip(34), 34),
{
    let t = errno_table();
    reveal_with_fuel(upper_or_digits, 20);
    reveal_strlit("EL2HLT");
    assert(t[50].0@ == "EL2HLT"@ && t[50].1 == 51);
    assert(errno_name_ok("EL2HLT"@) && errno_name_index("EL2HLT"@) == 50);
    assert(t.skip(50).drop_first() =~= t.skip(51));
    assert(entries_ok(t.skip(50), 50));
    reveal_strlit("ENOCSI");
    assert(t[49].0@ == "ENOCSI"@ && t[49].1 == 50);
    assert(errno_name_ok("ENOCSI"@) && errno_name_index("ENOCSI"@) == 49);
    assert(t.skip(49).drop_first() =~= t.skip(50));
    assert(entries_ok(t.skip(49), 49));
    reveal_strlit("EUNATCH");
    assert(t[48].0@ == "EUNATCH"@ && t[48].1 == 49);
    assert(errno_name_ok("EUNATCH"@) && errno_name_index("EUNATCH"@) == 48);
    assert(t.skip(48).drop_first() =~= t.skip(49));
    assert(entries_ok(t.skip(48), 48));
    reveal_strlit("ELNRNG");
    assert(t[47].0@ == "ELNRNG"@ && t[47].1 == 48);
    assert(errno_name_ok("ELNRNG"@) && errno_name_index("ELNRNG"@) == 47);
    assert(t.skip(47).drop_first() =~= t.skip(48));
    assert(entries_ok(t.skip(47), 47));
    reveal_strlit("EL3RST");
    assert(t[46].0@ == "EL3RST"@ && t[46].1 == 47);
    assert(errno_name_ok("EL3RST"@) && errno_name_index("EL3RST"@) == 46);
    assert(t.skip(46).drop_first() =~= t.skip(47));
    assert(entries_ok(t.skip(46), 46));
    reveal_strlit("EL3HLT");
    assert(t[45].0@ == "EL3HLT"@ && t[45].1 == 46);
    assert(errno_name_ok("EL3HLT"@) && errno_name_index("EL3HLT"@) == 45);
    assert(t.skip(45).drop_first() =~= t.skip(46));
    assert(entries_ok(t.skip(45), 45));
    reveal_strlit("EL2NSYNC");
    assert(t[44].0@ == "EL2NSYNC"@ && t[44].1 == 45);
    assert(errno_name_ok("EL2NSYNC"@) && errno_name_index("EL2NSYNC"@) == 44);
    assert(t.skip(44).drop_first() =~= t.skip(45));
    assert(entries_ok(t.skip(44), 44));
    reveal_strlit("ECHRNG");
    assert(t[43].0@ == "ECHRNG"@ && t[43].1 == 44);
    assert(errno_name_ok("ECHRNG"@) && errno_name_index("ECHRNG"@) == 43);
    assert(t.skip(43).drop_first() =~= t.skip(44));
    assert(entries_ok(t.skip(43), 43));
    reveal_strlit("EIDRM");
    assert(t[42].0@ == "EIDRM"@ && t[42].1 == 43);
    assert(errno_name_ok("EIDRM"@) && errno_name_index("EIDRM"@) == 42);
    assert(t.skip(42).drop_first() =~= t.skip(43));
    assert(entries_ok(t.skip(42), 42));
    reveal_strlit("ENOMSG");
    assert(t[41].0@ == "ENOMSG"@ && t[41].1 == 42);
    assert(errno_name_ok("ENOMSG"@) && errno_name_index("ENOMSG"@) == 41);
    assert(t.skip(41).drop_first() =~= t.skip(42));
    assert(entries_ok(t.skip(41), 41));
    reveal_strlit("EWOULDBLOCK");
    assert(t[40].0@ == "EWOULDBLOCK"@ && t[40].1 == 11);
    assert(errno_name_ok("EWOULDBLOCK"@) && errno_name_index("EWOULDBLOCK"@) == 40);
    assert(t.skip(40).drop_first() =~= t.skip(41));
    assert(entries_ok(t.skip(40), 40));
    reveal_strlit("ELOOP");
    assert(t[39].0@ == "ELOOP"@ && t[39].1 == 40);
    assert(errno_name_ok("ELOOP"@) && errno_name_index("ELOOP"@) == 39);
    assert(t.skip(39).drop_first() =~= t.skip(40));
    assert(entries_ok(t.skip(39), 39));
    reveal_strlit("ENOTEMPTY");
    assert(t[38].0@ == "ENOTEMPTY"@ && t[38].1 == 39);
    assert(errno_name_ok("ENOTEMPTY"@) && errno_name_index("ENOTEMPTY"@) == 38);
    assert(t.skip(38).drop_first() =~= t.skip(39));
    assert(entries_ok(t.skip(38), 38));
    reveal_strlit("ENOSYS");
    assert(t[37].0@ == "ENOSYS"@ && t[37].1 == 38);
    assert(errno_name_ok("ENOSYS"@) && errno_name_index("ENOSYS"@) == 37);
    assert(t.skip(37).drop_first() =~= t.skip(38));
    assert(entries_ok(t.skip(37), 37));
    reveal_strlit("ENOLCK");
    assert(t[36].0@ == "ENOLCK"@ && t[36].1 == 37);
    assert(errno_name_ok("ENOLCK"@) && errno_name_index("ENOLCK"@) == 36);
    assert(t.skip(36).drop_first() =~= t.skip(37));
    assert(entries_ok(t.skip(36), 36));
    reveal_strlit("ENAMETOOLONG");
    assert(t[35].0@ == "ENAMETOOLONG"@ && t[35].1 == 36);
    assert(errno_name_ok("ENAMETOOLONG"@) && errno_name_index("ENAMETOOLONG"@) == 35);
    assert(t.skip(35).drop_first() =~= t.skip(36));
    assert(entries_ok(t.skip(35), 35));
    reveal_strlit("EDEADLK");
    assert(t[34].0@ == "EDEADLK"@ && t[34].1 == 35);
    assert(errno_name_ok("EDEADLK"@) && errno_name_index("EDEADLK"@) == 34);
    assert(t.skip(34).drop_first() =~= t.skip(35));
    assert(entries_ok(t.skip(34), 34));
}

proof fn lemma_entries_from_51()
    requires
        entries_ok(errno_table().skip(68), 68),
    ensures
        entries_ok(errno_table().skip(51), 51),
{
    let t = errno_table();
    reveal_with_fuel(upper_or_digits, 20);
    reveal_strlit("EADV");
    assert(t[67].0@ == "EADV"@ && t[67].1 == 68);
    assert(errno_name_ok("EADV"@) && errno_name_index("EADV"@) == 67);
    assert(t.skip(67).drop_first() =~= t.skip(68));
    assert(entries_ok(t.skip(67), 67));
    reveal_strlit("ENOLINK");
    assert(t[66].0@ == "ENOLINK"@ && t[66].1 == 67);
    assert(errno_name_ok("ENOLINK"@) && errno_name_index("ENOLINK"@) == 66);
    assert(t.skip(66).drop_first() =~= t.skip(67));
    assert(entries_ok(t.skip(66), 66));
    reveal_strlit("EREMOTE");
    assert(t[65].0@ == "EREMOTE"@ && t[65].1 == 66);
    assert(errno_name_ok("EREMOTE"@) && errno_name_index("EREMOTE"@) == 65);
    assert(t.skip(65).drop_first() =~= t.skip(66));
    assert(entries_ok(t.skip(65), 65));
    reveal_strlit("ENOPKG");
    assert(t[64].0@ == "ENOPKG"@ && t[64].1 == 65);
    assert(errno_name_ok("ENOPKG"@) && errno_name_index("ENOPKG"@) == 64);
    assert(t.skip(64).drop_first() =~= t.skip(65));
    assert(entries_ok(t.skip(64), 64));
    reveal_strlit("ENONET");
    assert(t[63].0@ == "ENONET"@ && t[63].1 == 64);
    assert(errno_name_ok("ENONET"@) && errno_name_index("ENONET"@) == 63);
    assert(t.skip(63).drop_first() =~= t.skip(64));
    assert(entries_ok(t.skip(63), 63));
    reveal_strlit("ENOSR");
    assert(t[62].0@ == "ENOSR"@ && t[62].1 == 63);
    assert(errno_name_ok("ENOSR"@) && errno_name_index("ENOSR"@) == 62);
    assert(t.skip(62).drop_first() =~= t.skip(63));
    assert(entries_ok(t.skip(62), 62));
    reveal_strlit("ETIME");
    assert(t[61].0@ == "ETIME"@ && t[61].1 == 62);
    assert(errno_name_ok("ETIME"@) && errno_name_index("ETIME"@) == 61);
    assert(t.skip(61).drop_first() =~= t.skip(62));
    assert(entries_ok(t.skip(61), 61));
    reveal_strlit("ENODATA");
    assert(t[60].0@ == "ENODATA"@ && t[60].1 == 61);
    assert(errno_name_ok("ENODATA"@) && errno_name_index("ENODATA"@) == 60);
    assert(t.skip(60).drop_first() =~= t.skip(61));
    assert(entries_ok(t.skip(60), 60));
    reveal_strlit("ENOSTR");
    assert(t[59].0@ == "ENOSTR"@ && t[59].1 == 60);
    assert(errno_name_ok("ENOSTR"@) && errno_name_index("ENOSTR"@) == 59);
    assert(t.skip(59).drop_first() =~= t.skip(60));
    assert(entries_ok(t.skip(59), 59));
    reveal_strlit("EBFONT");
    assert(t[58].0@ == "EBFONT"@ && t[58].1 == 59);
    assert(errno_name_ok("EBFONT"@) && errno_name_index("EBFONT"@) == 58);
    assert(t.skip(58).drop_first() =~= t.skip(59));
    assert(entries_ok(t.skip(58), 58));
    reveal_strlit("EDEADLOCK");
    assert(t[57].0@ == "EDEADLOCK"@ && t[57].1 == 35);
    assert(errno_name_ok("EDEADLOCK"@) && errno_name_index("EDEADLOCK"@) == 57);
    assert(t.skip(57).drop_first() =~= t.skip(58));
    assert(entries_ok(t.skip(57), 57));
    reveal_strlit("EBADSLT");
    assert(t[56].0@ == "EBADSLT"@ && t[56].1 == 57);
    assert(errno_name_ok("EBADSLT"@) && errno_name_index("EBADSLT"@) == 56);
    assert(t.skip(56).drop_first() =~= t.skip(57));
    assert(entries_ok(t.skip(56), 56));
    reveal_strlit("EBADRQC");
    assert(t[55].0@ == "EBADRQC"@ && t[55].1 == 56);
    assert(errno_name_ok("EBADRQC"@) && errno_name_index("EBADRQC"@) == 55);
    assert(t.skip(55).drop_first() =~= t.skip(56));
    assert(entries_ok(t.skip(55), 55));
    reveal_strlit("ENOANO");
    assert(t[54].0@ == "ENOANO"@ && t[54].1 == 55);
    assert(errno_name_ok("ENOANO"@) && errno_name_index("ENOANO"@) == 54);
    assert(t.skip(54).drop_first() =~= t.skip(55));
    assert(entries_ok(t.skip(54), 54));
    reveal_strlit("EXFULL");
    assert(t[53].0@ == "EXFULL"@ && t[53].1 == 54);
    assert(errno_name_ok("EXFULL"@) && errno_name_index("EXFULL"@) == 53);
    assert(t.skip(53).drop_first() =~= t.skip(54));
    assert(entries_ok(t.skip(53), 53));
    reveal_strlit("EBADR");
    assert(t[52].0@ == "EBADR"@ && t[52].1 == 53);
    assert(errno_name_ok("EBADR"@) && errno_name_index("EBADR"@) == 52);
    assert(t.skip(52).drop_first() =~= t.skip(53));
    assert(entries_ok(t.skip(52), 52));
    reveal_strlit("EBADE");
    assert(t[51].0@ == "EBADE"@ && t[51].1 == 52);
    assert(errno_name_ok("EBADE"@) && errno_name_index("EBADE"@) == 51);
    assert(t.skip(51).drop_first() =~= t.skip(52));
    assert(entries_ok(t.skip(51), 51));
}

proof fn lemma_entries_from_68()
    requires
        entries_ok(errno_table().skip(85), 85),
    ensures
        entries_ok(errno_table().skip(68), 68),
{
    let t = errno_table();
    reveal_with_fuel(upper_or_digits, 20);
    reveal_strlit("ERESTART");
    assert(t[84].0@ == "ERESTART"@ && t[84].1 == 85);
    assert(errno_name_ok("ERESTART"@) && errno_name_index("ERESTART"@) == 84);
    assert(t.skip(84).drop_first() =~= t.skip(85));
    assert(entries_ok(t.skip(84), 84));
    reveal_strlit("EILSEQ");
    assert(t[83].0@ == "EILSEQ"@ && t[83].1 == 84);
    assert(errno_name_ok("EILSEQ"@) && errno_name_index("EILSEQ"@) == 83);
    assert(t.skip(83).drop_first() =~= t.skip(84));
    assert(entries_ok(t.skip(83), 83));
    reveal_strlit("ELIBEXEC");
    assert(t[82].0@ == "ELIBEXEC"@ && t[82].1 == 83);
    assert(errno_name_ok("ELIBEXEC"@) && errno_name_index("ELIBEXEC"@) == 82);
    assert(t.skip(82).drop_first() =~= t.skip(83));
    assert(entries_ok(t.skip(82), 82));
    reveal_strlit("ELIBMAX");
    assert(t[81].0@ == "ELIBMAX"@ && t[81].1 == 82);
    assert(errno_name_ok("ELIBMAX"@) && errno_name_index("ELIBMAX"@) == 81);
    assert(t.skip(81).drop_first() =~= t.skip(82));
    assert(entries_ok(t.skip(81), 81));
    reveal_strlit("ELIBSCN");
    assert(t[80].0@ == "ELIBSCN"@ && t[80].1 == 81);
    assert(errno_name_ok("ELIBSCN"@) && errno_name_index("ELIBSCN"@) == 80);
    assert(t.skip(80).drop_first() =~= t.skip(81));
    assert(entries_ok(t.skip(80), 80));
    reveal_strlit("ELIBBAD");
    assert(t[79].0@ == "ELIBBAD"@ && t[79].1 == 80);
    assert(errno_name_ok("ELIBBAD"@) && errno_name_index("ELIBBAD"@) == 79);
    assert(t.skip(79).drop_first() =~= t.skip(80));
    assert(entries_ok(t.skip(79), 79));
    reveal_strlit("ELIBACC");
    assert(t[78].0@ == "ELIBACC"@ && t[78].1 == 79);
    assert(errno_name_ok("ELIBACC"@) && errno_name_index("ELIBACC"@) == 78);
    assert(t.skip(78).drop_first() =~= t.skip(79));
    assert(entries_ok(t.skip(78), 78));
    reveal_strlit("EREMCHG");
    assert(t[77].0@ == "EREMCHG"@ && t[77].1 == 78);
    assert(errno_name_ok("EREMCHG"@) && errno_name_index("EREMCHG"@) == 77);
    assert(t.skip(77).drop_first() =~= t.skip(78));
    assert(entries_ok(t.skip(77), 77));
    reveal_strlit("EBADFD");
    assert(t[76].0@ == "EBADFD"@ && t[76].1 == 77);
    assert(errno_name_ok("EBADFD"@) && errno_name_index("EBADFD"@) == 76);
    assert(t.skip(76).drop_first() =~= t.skip(77));
    assert(entries_ok(t.skip(76), 76));
    reveal_strlit("ENOTUNIQ");
    assert(t[75].0@ == "ENOTUNIQ"@ && t[75].1 == 76);
    assert(errno_name_ok("ENOTUNIQ"@) && errno_name_index("ENOTUNIQ"@) == 75);
    assert(t.skip(75).drop_first() =~= t.skip(76));
    assert(entries_ok(t.skip(75), 75));
    reveal_strlit("EOVERFLOW");
    assert(t[74].0@ == "EOVERFLOW"@ && t[74].1 == 75);
    assert(errno_name_ok("EOVERFLOW"@) && errno_name_index("EOVERFLOW"@) == 74);
    assert(t.skip(74).drop_first() =~= t.skip(75));
    assert(entries_ok(t.skip(74), 74));
    reveal_strlit("EBADMSG");
    assert(t[73].0@ == "EBADMSG"@ && t[73].1 == 74);
    assert(errno_name_ok("EBADMSG"@) && errno_name_index("EBADMSG"@) == 73);
    assert(t.skip(73).drop_first() =~= t.skip(74));
    assert(entries_ok(t.skip(73), 73));
    reveal_strlit("EDOTDOT");
    assert(t[72].0@ == "EDOTDOT"@ && t[72].1 == 73);
    assert(errno_name_ok("EDOTDOT"@) && errno_name_index("EDOTDOT"@) == 72);
    assert(t.skip(72).drop_first() =~= t.skip(73));
    assert(entries_ok(t.skip(72), 72));
    reveal_strlit("EMULTIHOP");
    assert(t[71].0@ == "EMULTIHOP"@ && t[71].1 == 72);
    assert(errno_name_ok("EMULTIHOP"@) && errno_name_index("EMULTIHOP"@) == 71);
    assert(t.skip(71).drop_first() =~= t.skip(72));
    assert(entries_ok(t.skip(71), 71));
    reveal_strlit("EPROTO");
    assert(t[70].0@ == "EPROTO"@ && t[70].1 == 71);
    assert(errno_name_ok("EPROTO"@) && errno_name_index("EPROTO"@) == 70);
    assert(t.skip(70).drop_first() =~= t.skip(71));
    assert(entries_ok(t.skip(70), 70));
    reveal_strlit("ECOMM");
    assert(t[69].0@ == "ECOMM"@ && t[69].1 == 70);
    assert(errno_name_ok("ECOMM"@) && errno_name_index("ECOMM"@) == 69);
    assert(t.skip(69).drop_first() =~= t.skip(70));
    assert(entries_ok(t.skip(69), 69));
    reveal_strlit("ESRMNT");
    assert(t[68].0@ == "ESRMNT"@ && t[68].1 == 69);
    assert(errno_name_ok("ESRMNT"@) && errno_name_index("ESRMNT"@) == 68);
    assert(t.skip(68).drop_first() =~= t.skip(69));
    assert(entries_ok(t.skip(68), 68));
}

proof fn lemma_entries_from_85()
    requires
        entries_ok(errno_table().skip(102), 102),
    ensures
        entries_ok(errno_table().skip(85), 85),
{
    let t = errno_table();
    reveal_with_fuel(upper_or_digits, 20);
    reveal_strlit("ENETRESET");
    assert(t[101].0@ == "ENETRESET"@ && t[101].1 == 102);
    assert(errno_name_ok("ENETRESET"@) && errno_name_index("ENETRESET"@) == 101);
    assert(t.skip(101).drop_first() =~= t.skip(102));
    assert(entries_ok(t.skip(101), 101));
    reveal_strlit("ENETUNREACH");
    assert(t[100].0@ == "ENETUNREACH"@ && t[100].1 == 101);
    assert(errno_name_ok("ENETUNREACH"@) && errno_name_index("ENETUNREACH"@) == 100);
    assert(t.skip(100).drop_first() =~= t.skip(101));
    assert(entries_ok(t.skip(100), 100));
    reveal_strlit("ENETDOWN");
    assert(t[99].0@ == "ENETDOWN"@ && t[99].1 == 100);
    assert(errno_name_ok("ENETDOWN"@) && errno_name_index("ENETDOWN"@) == 99);
    assert(t.skip(99).drop_first() =~= t.skip(100));
    assert(entries_ok(t.skip(99), 99));
    reveal_strlit("EADDRNOTAVAIL");
    assert(t[98].0@ == "EADDRNOTAVAIL"@ && t[98].1 == 99);
    assert(errno_name_ok("EADDRNOTAVAIL"@) && errno_name_index("EADDRNOTAVAIL"@) == 98);
    assert(t.skip(98).drop_first() =~= t.skip(99));
    assert(entries_ok(t.skip(98), 98));
    reveal_strlit("EADDRINUSE");
    assert(t[97].0@ == "EADDRINUSE"@ && t[97].1 == 98);
    assert(errno_name_ok("EADDRINUSE"@) && errno_name_index("EADDRINUSE"@) == 97);
    assert(t.skip(97).drop_first() =~= t.skip(98));
    assert(entries_ok(t.skip(97), 97));
    reveal_strlit("EAFNOSUPPORT");
    assert(t[96].0@ == "EAFNOSUPPORT"@ && t[96].1 == 97);
    assert(errno_name_ok("EAFNOSUPPORT"@) && errno_name_index("EAFNOSUPPORT"@) == 96);
    assert(t.skip(96).drop_first() =~= t.skip(97));
    assert(entries_ok(t.skip(96), 96));
    reveal_strlit("EPFNOSUPPORT");
    assert(t[95].0@ == "EPFNOSUPPORT"@ && t[95].1 == 96);
    assert(errno_name_ok("EPFNOSUPPORT"@) && errno_name_index("EPFNOSUPPORT"@) == 95);
    assert(t.skip(95).drop_first() =~= t.skip(96));
    assert(entries_ok(t.skip(95), 95));
    reveal_strlit("EOPNOTSUPP");
    assert(t[94].0@ == "EOPNOTSUPP"@ && t[94].1 == 95);
    assert(errno_name_ok("EOPNOTSUPP"@) && errno_name_index("EOPNOTSUPP"@) == 94);
    assert(t.skip(94).drop_first() =~= t.skip(95));
    assert(entries_ok(t.skip(94), 94));
    reveal_strlit("ESOCKTNOSUPPORT");
    assert(t[93].0@ == "ESOCKTNOSUPPORT"@ && t[93].1 == 94);
    assert(errno_name_ok("ESOCKTNOSUPPORT"@) && errno_name_index("ESOCKTNOSUPPORT"@) == 93);
    assert(t.skip(93).drop_first() =~= t.skip(94));
    assert(entries_ok(t.skip(93), 93));
    reveal_strlit("EPROTONOSUPPORT");
    assert(t[92].0@ == "EPROTONOSUPPORT"@ && t[92].1 == 93);
    assert(errno_name_ok("EPROTONOSUPPORT"@) && errno_name_index("EPROTONOSUPPORT"@) == 92);
    assert(t.skip(92).drop_first() =~= t.skip(93));
    assert(entries_ok(t.skip(92), 92));
    reveal_strlit("ENOPROTOOPT");
    assert(t[91].0@ == "ENOPROTOOPT"@ && t[91].1 == 92);
    assert(errno_name_ok("ENOPROTOOPT"@) && errno_name_index("ENOPROTOOPT"@) == 91);
    assert(t.skip(91).drop_first() =~= t.skip(92));
    assert(entries_ok(t.skip(91), 91));
    reveal_strlit("EPROTOTYPE");
    assert(t[90].0@ == "EPROTOTYPE"@ && t[90].1 == 91);
    assert(errno_name_ok("EPROTOTYPE"@) && errno_name_index("EPROTOTYPE"@) == 90);
    assert(t.skip(90).drop_first() =~= t.skip(91));
    assert(entries_ok(t.skip(90), 90));
    reveal_strlit("EMSGSIZE");
    assert(t[89].0@ == "EMSGSIZE"@ && t[89].1 == 90);
    assert(errno_name_ok("EMSGSIZE"@) && errno_name_index("EMSGSIZE"@) == 89);
    assert(t.skip(89).drop_first() =~= t.skip(90));
    assert(entries_ok(t.skip(89), 89));
    reveal_strlit("EDESTADDRREQ");
    assert(t[88].0@ == "EDESTADDRREQ"@ && t[88].1 == 89);
    assert(errno_name_ok("EDESTADDRREQ"@) && errno_name_index("EDESTADDRREQ"@) == 88);
    assert(t.skip(88).drop_first() =~= t.skip(89));
    assert(entries_ok(t.skip(88), 88));
    reveal_strlit("ENOTSOCK");
    assert(t[87].0@ == "ENOTSOCK"@ && t[87].1 == 88);
    assert(errno_name_ok("ENOTSOCK"@) && errno_name_index("ENOTSOCK"@) == 87);
    assert(t.skip(87).drop_first() =~= t.skip(88));
    assert(entries_ok(t.skip(87), 87));
    reveal_strlit("EUSERS");
    assert(t[86].0@ == "EUSERS"@ && t[86].1 == 87);
    assert(errno_name_ok("EUSERS"@) && errno_name_index("EUSERS"@) == 86);
    assert(t.skip(86).drop_first() =~= t.skip(87));
    assert(entries_ok(t.skip(86), 86));
    reveal_strlit("ESTRPIPE");
    assert(t[85].0@ == "ESTRPIPE"@ && t[85].1 == 86);
    assert(errno_name_ok("ESTRPIPE"@) && errno_name_index("ESTRPIPE"@) == 85);
    assert(t.skip(85).drop_first() =~= t.skip(86));
    assert(entries_ok(t.skip(85), 85));
}

proof fn lemma_entries_from_102()
    requires
        entries_ok(errno_table().skip(119), 119),
    ensures
        entries_ok(errno_table().skip(102), 102),
{
    let t = errno_table();
    reveal_with_fuel(upper_or_digits, 20);
    reveal_strlit("ENAVAIL");
    assert(t[118].0@ == "ENAVAIL"@ && t[118].1 == 119);
    assert(errno_name_ok("ENAVAIL"@) && errno_name_index("ENAVAIL"@) == 118);
    assert(t.skip(118).drop_first() =~= t.skip(119));
    assert(entries_ok(t.skip(118), 118));
    reveal_strlit("ENOTNAM");
    assert(t[117].0@ == "ENOTNAM"@ && t[117].1 == 118);
    assert(errno_name_ok("ENOTNAM"@) && errno_name_index("ENOTNAM"@) == 117);
    assert(t.skip(117).drop_first() =~= t.skip(118));
    assert(entries_ok(t.skip(117), 117));
    reveal_strlit("EUCLEAN");
    assert(t[116].0@ == "EUCLEAN"@ && t[116].1 == 117);
    assert(errno_name_ok("EUCLEAN"@) && errno_name_index("EUCLEAN"@) == 116);
    assert(t.skip(116).drop_first() =~= t.skip(117));
    assert(entries_ok(t.skip(116), 116));
    reveal_strlit("ESTALE");
    assert(t[115].0@ == "ESTALE"@ && t[115].1 == 116);
    assert(errno_name_ok("ESTALE"@) && errno_name_index("ESTALE"@) == 115);
    assert(t.skip(115).drop_first() =~= t.skip(116));
    assert(entries_ok(t.skip(115), 115));
    reveal_strlit("EINPROGRESS");
    assert(t[114].0@ == "EINPROGRESS"@ && t[114].1 == 115);
    assert(errno_name_ok("EINPROGRESS"@) && errno_name_index("EINPROGRESS"@) == 114);
    assert(t.skip(114).drop_first() =~= t.skip(115));
    assert(entries_ok(t.skip(114), 114));
    reveal_strlit("EALREADY");
    assert(t[113].0@ == "EALREADY"@ && t[113].1 == 114);
    assert(errno_name_ok("EALREADY"@) && errno_name_index("EALREADY"@) == 113);
    assert(t.skip(113).drop_first() =~= t.skip(114));
    assert(entries_ok(t.skip(113), 113));
    reveal_strlit("EHOSTUNREACH");
    assert(t[112].0@ == "EHOSTUNREACH"@ && t[112].1 == 113);
    assert(errno_name_ok("EHOSTUNREACH"@) && errno_name_index("EHOSTUNREACH"@) == 112);
    assert(t.skip(112).drop_first() =~= t.skip(113));
    assert(entries_ok(t.skip(112), 112));
    reveal_strlit("EHOSTDOWN");
    assert(t[111].0@ == "EHOSTDOWN"@ && t[111].1 == 112);
    assert(errno_name_ok("EHOSTDOWN"@) && errno_name_index("EHOSTDOWN"@) == 111);
    assert(t.skip(111).drop_first() =~= t.skip(112));
    assert(entries_ok(t.skip(111), 111));
    reveal_strlit("ECONNREFUSED");
    assert(t[110].0@ == "ECONNREFUSED"@ && t[110].1 == 111);
    assert(errno_name_ok("ECONNREFUSED"@) && errno_name_index("ECONNREFUSED"@) == 110);
    assert(t.skip(110).drop_first() =~= t.skip(111));
    assert(entries_ok(t.skip(110), 110));
    reveal_strlit("ETIMEDOUT");
    assert(t[109].0@ == "ETIMEDOUT"@ && t[109].1 == 110);
    assert(errno_name_ok("ETIMEDOUT"@) && errno_name_index("ETIMEDOUT"@) == 109);
    assert(t.skip(109).drop_first() =~= t.skip(110));
    assert(entries_ok(t.skip(109), 109));
    reveal_strlit("ETOOMANYREFS");
    assert(t[108].0@ == "ETOOMANYREFS"@ && t[108].1 == 109);
    assert(errno_name_ok("ETOOMANYREFS"@) && errno_name_index("ETOOMANYREFS"@) == 108);
    assert(t.skip(108).drop_first() =~= t.skip(109));
    assert(entries_ok(t.skip(108), 108));
    reveal_strlit("ESHUTDOWN");
    assert(t[107].0@ == "ESHUTDOWN"@ && t[107].1 == 108);
    assert(errno_name_ok("ESHUTDOWN"@) && errno_name_index("ESHUTDOWN"@) == 107);
    assert(t.skip(107).drop_first() =~= t.skip(108));
    assert(entries_ok(t.skip(107), 107));
    reveal_strlit("ENOTCONN");
    assert(t[106].0@ == "ENOTCONN"@ && t[106].1 == 107);
    assert(errno_name_ok("ENOTCONN"@) && errno_name_index("ENOTCONN"@) == 106);
    assert(t.skip(106).drop_first() =~= t.skip(107));
    assert(entries_ok(t.skip(106), 106));
    reveal_strlit("EISCONN");
    assert(t[105].0@ == "EISCONN"@ && t[105].1 == 106);
    assert(errno_name_ok("EISCONN"@) && errno_name_index("EISCONN"@) == 105);
    assert(t.skip(105).drop_first() =~= t.skip(106));
    assert(entries_ok(t.skip(105), 105));
    reveal_strlit("ENOBUFS");
    assert(t[104].0@ == "ENOBUFS"@ && t[104].1 == 105);
    assert(errno_name_ok("ENOBUFS"@) && errno_name_index("ENOBUFS"@) == 104);
    assert(t.skip(104).drop_first() =~= t.skip(105));
    assert(entries_ok(t.skip(104), 104));
    reveal_strlit("ECONNRESET");
    assert(t[103].0@ == "ECONNRESET"@ && t[103].1 == 104);
    assert(errno_name_ok("ECONNRESET"@) && errno_name_index("ECONNRESET"@) == 103);
    assert(t.skip(103).drop_first() =~= t.skip(104));
    assert(entries_ok(t.skip(103), 103));
    reveal_strlit("ECONNABORTED");
    assert(t[102].0@ == "ECONNABORTED"@ && t[102].1 == 103);
    assert(errno_name_ok("ECONNABORTED"@) && errno_name_index("ECONNABORTED"@) == 102);
    assert(t.skip(102).drop_first() =~= t.skip(103));
    assert(entries_ok(t.skip(102), 102));
}

proof fn lemma_entries_from_119()
    requires
        entries_ok(errno_table().skip(134), 134),
    ensures
        entries_ok(errno_table().skip(119), 119),
{
    let t = errno_table();
    reveal_with_fuel(upper_or_digits, 20);
    reveal_strlit("ENOTSUP");
    assert(t[133].0@ == "ENOTSUP"@ && t[133].1 == 95);
    assert(errno_name_ok("ENOTSUP"@) && errno_name_index("ENOTSUP"@) == 133);
    assert(t.skip(133).drop_first() =~= t.skip(134));
    assert(entries_ok(t.skip(133), 133));
    reveal_strlit("EHWPOISON");
    assert(t[132].0@ == "EHWPOISON"@ && t[132].1 == 133);
    assert(errno_name_ok("EHWPOISON"@) && errno_name_index("EHWPOISON"@) == 132);
    assert(t.skip(132).drop_first() =~= t.skip(133));
    assert(entries_ok(t.skip(132), 132));
    reveal_strlit("ERFKILL");
    assert(t[131].0@ == "ERFKILL"@ && t[131].1 == 132);
    assert(errno_name_ok("ERFKILL"@) && errno_name_index("ERFKILL"@) == 131);
    assert(t.skip(131).drop_first() =~= t.skip(132));
    assert(entries_ok(t.skip(131), 131));
    reveal_strlit("ENOTRECOVERABLE");
    assert(t[130].0@ == "ENOTRECOVERABLE"@ && t[130].1 == 131);
    assert(errno_name_ok("ENOTRECOVERABLE"@) && errno_name_index("ENOTRECOVERABLE"@) == 130);
    assert(t.skip(130).drop_first() =~= t.skip(131));
    assert(entries_ok(t.skip(130), 130));
    reveal_strlit("EOWNERDEAD");
    assert(t[129].0@ == "EOWNERDEAD"@ && t[129].1 == 130);
    assert(errno_name_ok("EOWNERDEAD"@) && errno_name_index("EOWNERDEAD"@) == 129);
    assert(t.skip(129).drop_first() =~= t.skip(130));
    assert(entries_ok(t.skip(129), 129));
    reveal_strlit("EKEYREJECTED");
    assert(t[128].0@ == "EKEYREJECTED"@ && t[128].1 == 129);
    assert(errno_name_ok("EKEYREJECTED"@) && errno_name_index("EKEYREJECTED"@) == 128);
    assert(t.skip(128).drop_first() =~= t.skip(129));
    assert(entries_ok(t.skip(128), 128));
    reveal_strlit("EKEYREVOKED");
    assert(t[127].0@ == "EKEYREVOKED"@ && t[127].1 == 128);
    assert(errno_name_ok("EKEYREVOKED"@) && errno_name_index("EKEYREVOKED"@) == 127);
    assert(t.skip(127).drop_first() =~= t.skip(128));
    assert(entries_ok(t.skip(127), 127));
    reveal_strlit("EKEYEXPIRED");
    assert(t[126].0@ == "EKEYEXPIRED"@ && t[126].1 == 127);
    assert(errno_name_ok("EKEYEXPIRED"@) && errno_name_index("EKEYEXPIRED"@) == 126);
    assert(t.skip(126).drop_first() =~= t.skip(127));
    assert(entries_ok(t.skip(126), 126));
    reveal_strlit("ENOKEY");
    assert(t[125].0@ == "ENOKEY"@ && t[125].1 == 126);
    assert(errno_name_ok("ENOKEY"@) && errno_name_index("ENOKEY"@) == 125);
    assert(t.skip(125).drop_first() =~= t.skip(126));
    assert(entries_ok(t.skip(125), 125));
    reveal_strlit("ECANCELED");
    assert(t[124].0@ == "ECANCELED"@ && t[124].1 == 125);
    assert(errno_name_ok("ECANCELED"@) && errno_name_index("ECANCELED"@) == 124);
    assert(t.skip(124).drop_first() =~= t.skip(125));
    assert(entries_ok(t.skip(124), 124));
    reveal_strlit("EMEDIUMTYPE");
    assert(t[123].0@ == "EMEDIUMTYPE"@ && t[123].1 == 124);
    assert(errno_name_ok("EMEDIUMTYPE"@) && errno_name_index("EMEDIUMTYPE"@) == 123);
    assert(t.skip(123).drop_first() =~= t.skip(124));
    assert(entries_ok(t.skip(123), 123));
    reveal_strlit("ENOMEDIUM");
    assert(t[122].0@ == "ENOMEDIUM"@ && t[122].1 == 123);
    assert(errno_name_ok("ENOMEDIUM"@) && errno_name_index("ENOMEDIUM"@) == 122);
    assert(t.skip(122).drop_first() =~= t.skip(123));
    assert(entries_ok(t.skip(122), 122));
    reveal_strlit("EDQUOT");
    assert(t[121].0@ == "EDQUOT"@ && t[121].1 == 122);
    assert(errno_name_ok("EDQUOT"@) && errno_name_index("EDQUOT"@) == 121);
    assert(t.skip(121).drop_first() =~= t.skip(122));
    assert(entries_ok(t.skip(121), 121));
    reveal_strlit("EREMOTEIO");
    assert(t[120].0@ == "EREMOTEIO"@ && t[120].1 == 121);
    assert(errno_name_ok("EREMOTEIO"@) && errno_name_index("EREMOTEIO"@) == 120);
    assert(t.skip(120).drop_first() =~= t.skip(121));
    assert(entries_ok(t.skip(120), 120));
    reveal_strlit("EISNAM");
    assert(t[119].0@ == "EISNAM"@ && t[119].1 == 120);
    assert(errno_name_ok("EISNAM"@) && errno_name_index("EISNAM"@) == 119);
    assert(t.skip(119).drop_first() =~= t.skip(120));
    assert(entries_ok(t.skip(119), 119));
}

proof fn lemma_entries_index(s: Seq<(&'static str, i32)>, k: int)
    requires
        entries_ok(s, k),
    ensures
        forall|i: int| 0 <= i < s.len() ==> (#[trigger] s[i]).1 == number_at(k + i) && errno_name_ok(s[i].0@)
            && errno_name_index(s[i].0@) == k + i,
    decreases s.len(),
{
    if s.len() > 0 {
        lemma_entries_index(s.drop_first(), k + 1);
        assert forall|i: int| 0 <= i < s.len() implies (#[trigger] s[i]).1 == number_at(k + i) && errno_name_ok(s[i].0@)
            && errno_name_index(s[i].0@) == k + i by {
            if i > 0 {
                assert(s[i] == s.drop_first()[i - 1]);
            }
        }
    }
}

/// Each entry of the table has the number of its position, and a well-formed
/// name that no other entry has.
proof fn lemma_table_facts()
    ensures
        errno_table().len() == 134,
        forall|i: int| 0 <= i < errno_table().len() ==> (#[trigger] errno_table()[i]).1 == number_at(i)
            && errno_name_ok(errno_table()[i].0@) && errno_name_index(errno_table()[i].0@) == i,
{
    assert(errno_table().skip(134) =~= Seq::<(&'static str, i32)>::empty());
    lemma_entries_from_119();
    lemma_entries_from_102();
    lemma_entries_from_85();
    lemma_entries_from_68();
    lemma_entries_from_51();
    lemma_entries_from_34();
    lemma_entries_from_17();
    lemma_entries_from_0();
    assert(errno_table().skip(0) =~= errno_table());
    lemma_entries_index(errno_table(), 0);
}

/// The laws of the error table: every number is positive, every name is `E`
/// followed by upper-case ASCII letters and digits, and no name occurs twice.
pub proof fn lemma_table_laws()
    ensures
        forall|i: int| 0 <= i < errno_table().len() ==> (#[trigger] errno_table()[i]).1 > 0
            && errno_name_ok(errno_table()[i].0@),
        forall|i: int, j: int| 0 <= i < j < errno_table().len() ==> (#[trigger] errno_table()[i]).0@
            != (#[trigger] errno_table()[j]).0@,
{
    lemma_table_facts();
}

/// The names that are aliases of another constant of the table.
pub open spec fn is_alias(name: Seq<char>) -> bool {
    name == "EWOULDBLOCK"@ || name == "EDEADLOCK"@ || name == "ENOTSUP"@
}

/// The constant an alias stands for (a name that is no alias stands for itself).
pub open spec fn alias_target(name: Seq<char>) -> Seq<char> {
    if name == "EWOULDBLOCK"@ {
        "EAGAIN"@
    } else if name == "EDEADLOCK"@ {
        "EDEADLK"@
    } else if name == "ENOTSUP"@ {
        "EOPNOTSUPP"@
    } else {
        name
    }
}

/// Some entry that is no alias carries the number `n`.
pub open spec fn number_listed(n: int) -> bool {
    exists|i: int|
        0 <= i < errno_table().len() && !is_alias((#[trigger] errno_table()[i]).0@) && errno_table()[i].1
            == n
}

/// Where the aliases and the constants they stand for are listed.
proof fn lemma_alias_positions()
    ensures
        forall|i: int| 0 <= i < errno_table().len() ==> (is_alias(#[trigger] errno_table()[i].0@) <==> (i
            == 40 || i == 57 || i == 133)),
        errno_table()[10].0@ == alias_target(errno_table()[40].0@),
        errno_table()[34].0@ == alias_target(errno_table()[57].0@),
        errno_table()[94].0@ == alias_target(errno_table()[133].0@),
{
    let t = errno_table();
    lemma_table_facts();
    reveal_strlit("EWOULDBLOCK");
    reveal_strlit("EDEADLOCK");
    reveal_strlit("ENOTSUP");
    reveal_strlit("EAGAIN");
    reveal_strlit("EDEADLK");
    reveal_strlit("EOPNOTSUPP");
    assert(errno_name_index("EWOULDBLOCK"@) == 40);
    assert(errno_name_index("EDEADLOCK"@) == 57);
    assert(errno_name_index("ENOTSUP"@) == 133);
    assert(t[40].0@ == "EWOULDBLOCK"@);
    assert(t[57].0@ == "EDEADLOCK"@);
    assert(t[133].0@ == "ENOTSUP"@);
    assert(t[10].0@ == "EAGAIN"@);
    assert(t[34].0@ == "EDEADLK"@);
    assert(t[94].0@ == "EOPNOTSUPP"@);
    assert("EWOULDBLOCK"@ != "EDEADLOCK"@ && "EWOULDBLOCK"@ != "ENOTSUP"@ && "EDEADLOCK"@ != "ENOTSUP"@);
}

/// The numbers of the table are those of Linux: apart from the aliases, the
/// entries are listed by increasing number and carry every number from 1 to
/// 133 but 41 and 58, which Linux leaves unused; each alias carries the number
/// of the constant it stands for; and two entries share a number only where
/// one is an alias of the other.
pub proof fn lemma_table_numbers()
    ensures
        forall|i: int| 0 <= i < errno_table().len() ==> 1 <= (#[trigger] errno_table()[i]).1 <= 133,
        forall|i: int, j: int|
            0 <= i < j < errno_table().len() && !is_alias((#[trigger] errno_table()[i]).0@) && !is_alias(
                (#[trigger] errno_table()[j]).0@,
            ) ==> errno_table()[i].1 < errno_table()[j].1,
        forall|n: int| 1 <= n <= 133 && n != 41 && n != 58 ==> #[trigger] number_listed(n),
        forall|i: int|
            0 <= i < errno_table().len() && is_alias((#[trigger] errno_table()[i]).0@) ==> exists|j: int|
                0 <= j < errno_table().len() && (#[trigger] errno_table()[j]).0@ == alias_target(
                    errno_table()[i].0@,
                ) && !is_alias(errno_table()[j].0@) && errno_table()[j].1 == errno_table()[i].1,
        forall|i: int, j: int|
            0 <= i < errno_table().len() && 0 <= j < errno_table().len() && i != j && (#[trigger] errno_table()[i]).1
                == (#[trigger] errno_table()[j]).1 ==> (is_alias(errno_table()[i].0@) && alias_target(
                errno_table()[i].0@,
            ) == errno_table()[j].0@) || (is_alias(errno_table()[j].0@) && alias_target(errno_table()[j].0@)
                == errno_table()[i].0@),
{
    let t = errno_table();
    lemma_table_facts();
    lemma_alias_positions();
    assert forall|n: int| 1 <= n <= 133 && n != 41 && n != 58 implies #[trigger] number_listed(n) by {
        assert(t[n - 1].1 == number_at(n - 1));
    }
    assert forall|i: int| 0 <= i < t.len() && is_alias((#[trigger] t[i]).0@) implies exists|j: int|
        0 <= j < t.len() && (#[trigger] t[j]).0@ == alias_target(t[i].0@) && !is_alias(t[j].0@) && t[j].1
            == t[i].1 by {
        if i == 40 {
            assert(t[10].1 == 11);
        } else if i == 57 {
            assert(t[34].1 == 35);
        } else {
            assert(t[94].1 == 95);
        }
    }
}

/// Looking up the number of an entry finds that entry, or, for an alias, the
/// constant it stands for.
pub proof fn lemma_number_lookup()
    ensures
        forall|i: int|
            0 <= i < errno_table().len() && !is_alias((#[trigger] errno_table()[i]).0@) ==> first_code_match(
                errno_table()[i].1 as int,
                i,
            ),
        forall|i: int|
            0 <= i < errno_table().len() && is_alias((#[trigger] errno_table()[i]).0@) ==> exists|j: int|
                first_code_match(errno_table()[i].1 as int, j) && (#[trigger] errno_table()[j]).0@
                    == alias_target(errno_table()[i].0@),
{
    let t = errno_table();
    lemma_table_facts();
    lemma_alias_positions();
    assert forall|i: int| 0 <= i < t.len() && is_alias((#[trigger] t[i]).0@) implies exists|j: int|
        first_code_match(t[i].1 as int, j) && (#[trigger] t[j]).0@ == alias_target(t[i].0@) by {
        if i == 40 {
            assert(first_code_match(t[i].1 as int, 10));
        } else if i == 57 {
            assert(first_code_match(t[i].1 as int, 34));
        } else {
            assert(first_code_match(t[i].1 as int, 94));
        }
    }
}

} // verus!
