//! Helpers shared by all the tools: exit statuses, shell invocations and the
//! cleaning of operating-system error messages.
use vstd::prelude::*;
use crate::text::{
    chars_of, has_prefix, index_of, matches_at, occurs_at, parse_int, parse_int_spec, starts_with,
    string_from_chars, sub_vec, split_chars, split_on, string_views, views_of, decimal, is_digit, signed_decimal,
};

verus! {

/// The status a tool exits with after a child ended with `code` or, when it
/// was killed, by `signal` (absent signal numbers count as 1).
pub open spec fn status_code_spec(code: Option<i32>, signal: Option<i32>) -> int {
    match code {
        Some(c) => c as int,
        None => 128 + match signal {
            Some(s) => s as int,
            None => 1,
        },
    }
}

/// The exit status that stands for a finished child: its own exit code, or
/// 128 plus the number of the signal that killed it.
pub fn status_code(code: Option<i32>, signal: Option<i32>) -> (r: i32)
    requires
        code is None ==> status_code_spec(code, signal) <= i32::MAX,
    ensures
        r == status_code_spec(code, signal),
{
    match code {
        Some(c) => c,
        None => match signal {
            Some(s) => 128 + s,
            None => 129,
        },
    }
}

/// How a shell command line is run: the program, the name it is given as
/// `argv[0]`, and its remaining arguments.
pub struct ShellInvocation {
    pub program: String,
    pub arg0: String,
    pub args: Vec<String>,
}

/// The invocation of `/bin/sh` (called `sh`) that runs `command` as
/// `sh -c -- command`.
pub fn shell_command(command: &str) -> (r: ShellInvocation)
    ensures
        r.program@ == "/bin/sh"@,
        r.arg0@ == "sh"@,
        r.args@.len() == 3,
        r.args@[0]@ == "-c"@,
        r.args@[1]@ == "--"@,
        r.args@[2]@ == command@,
{
    let mut args: Vec<String> = Vec::new();
    args.push(String::from_str("-c"));
    args.push(String::from_str("--"));
    args.push(String::from_str(command));
    ShellInvocation { program: String::from_str("/bin/sh"), arg0: String::from_str("sh"), args }
}

/// The marker that Rust puts between an OS error's text and its number.
pub open spec fn os_error_marker() -> Seq<char> {
    seq![' ', '(', 'o', 's', ' ', 'e', 'r', 'r', 'o', 'r', ' ']
}

/// The context that may follow the number.
pub open spec fn at_path_marker() -> Seq<char> {
    seq![' ', 'a', 't', ' ', 'p', 'a', 't', 'h', ' ']
}

/// `p` is the position of the first `)` in `s`.
pub open spec fn first_close_paren(s: Seq<char>, p: int) -> bool {
    0 <= p < s.len() && s[p] == ')' && forall|j: int| 0 <= j < p ==> s[j] != ')'
}

/// The marker at `i` is followed by an `i32`, a `)`, and then nothing or
/// ` at path ...`.
pub open spec fn os_suffix_at(m: Seq<char>, i: int) -> bool {
    let tail = m.skip(i + os_error_marker().len());
    exists|p: int|
        #![trigger first_close_paren(tail, p)]
        first_close_paren(tail, p) && parse_int_spec(
            tail.take(p),
            true,
            i32::MIN as int,
            i32::MAX as int,
        ) is Some && (p + 1 == tail.len() || starts_with(tail.skip(p + 1), at_path_marker()))
}

/// The first occurrence of the marker at or after `from`.
pub open spec fn first_marker_from(m: Seq<char>, from: int, i: int) -> bool {
    from <= i && occurs_at(m, os_error_marker(), i) && forall|j: int|
        from <= j < i ==> !occurs_at(m, os_error_marker(), j)
}

/// Scanning the markers from left to right without overlap (as
/// `str::match_indices` does), the position of the first one that begins the
/// suffix; `None` when none does.
pub open spec fn os_suffix_index_from(m: Seq<char>, from: int) -> Option<int>
    decreases m.len() - from,
{
    if from < 0 || from > m.len() || !(exists|i: int| first_marker_from(m, from, i)) {
        None
    } else {
        let i = choose|i: int| first_marker_from(m, from, i);
        if os_suffix_at(m, i) {
            Some(i)
        } else if i + os_error_marker().len() > from {
            os_suffix_index_from(m, i + os_error_marker().len())
        } else {
            None
        }
    }
}

proof fn lemma_first_marker_unique(m: Seq<char>, from: int, i: int, k: int)
    requires
        first_marker_from(m, from, i),
        first_marker_from(m, from, k),
    ensures
        i == k,
{
    if i < k {
        assert(!occurs_at(m, os_error_marker(), i));
    } else if k < i {
        assert(!occurs_at(m, os_error_marker(), k));
    }
}

fn marker() -> (v: Vec<char>)
    ensures
        v@ == os_error_marker(),
{
    let v = vec![' ', '(', 'o', 's', ' ', 'e', 'r', 'r', 'o', 'r', ' '];
    assert(v@ =~= os_error_marker());
    v
}

fn at_path() -> (v: Vec<char>)
    ensures
        v@ == at_path_marker(),
{
    let v = vec![' ', 'a', 't', ' ', 'p', 'a', 't', 'h', ' '];
    assert(v@ =~= at_path_marker());
    v
}

/// Whether the marker found at `i` begins the suffix.
fn suffix_at(m: &[char], i: usize) -> (r: bool)
    requires
        occurs_at(m@, os_error_marker(), i as int),
    ensures
        r == os_suffix_at(m@, i as int),
{
    assert(os_error_marker().len() == 11);
    assert(i + 11 <= m@.len());
    assert(m@.len() == m.len());
    let start = i + 11;
    let ghost tail = m@.skip(start as int);
    let tail_v = sub_vec(m, start, m.len());
    assert(tail_v@ =~= tail);
    match index_of(tail_v.as_slice(), ')') {
        None => {
            assert forall|p: int| !first_close_paren(tail, p) by {
                if 0 <= p < tail.len() && tail[p] == ')' {
                    assert(tail.contains(')'));
                }
            }
            false
        },
        Some(p) => {
            assert(first_close_paren(tail, p as int));
            let code = sub_vec(tail_v.as_slice(), 0, p);
            assert(code@ =~= tail.take(p as int));
            let parsed = parse_int(code.as_slice(), true, i32::MIN as i128, i32::MAX as i128);
            let rest = sub_vec(tail_v.as_slice(), p + 1, tail_v.len());
            assert(rest@ =~= tail.skip(p + 1));
            let at = at_path();
            let ok = parsed.is_some() && (rest.len() == 0 || has_prefix(rest.as_slice(), at.as_slice()));
            proof {
                if ok {
                    assert(os_suffix_at(m@, i as int));
                } else {
                    assert forall|q: int| #[trigger] first_close_paren(tail, q) implies q == p by {
                        if q < p {
                            assert(tail[q] != ')');
                        } else if p < q {
                            assert(tail[p as int] != ')');
                        }
                    }
                }
            }
            ok
        },
    }
}

/// The position where the ` (os error N)` suffix of `message` begins, if it
/// has one.
pub fn os_error_suffix_index(message: &[char]) -> (r: Option<usize>)
    ensures
        match r {
            Some(i) => os_suffix_index_from(message@, 0) == Some(i as int),
            None => os_suffix_index_from(message@, 0) is None,
        },
        r matches Some(i) ==> i + 11 <= message@.len(),
{
    let pat = marker();
    let n = message.len();
    assert(os_error_marker().len() == 11);
    let mut from: usize = 0;
    while from <= n
        invariant
            pat@ == os_error_marker(),
            n == message@.len(),
            from <= n + 11,
            os_suffix_index_from(message@, from as int) == os_suffix_index_from(message@, 0),
        decreases n + 12 - from,
    {
        let mut i = from;
        let mut found = false;
        while n >= 11 && i <= n - 11 && !found
            invariant
                from <= i,
                n == message@.len(),
                pat@ == os_error_marker(),
                found ==> i + 11 <= n && occurs_at(message@, os_error_marker(), i as int),
                forall|j: int| from <= j < i ==> !occurs_at(message@, os_error_marker(), j),
                !found ==> forall|j: int| from <= j < i ==> !occurs_at(message@, os_error_marker(), j),
            decreases n + 1 - i, (if found { 0int } else { 1int }),
        {
            if matches_at(message, pat.as_slice(), i) {
                found = true;
            } else {
                i += 1;
            }
        }
        if !found {
            assert forall|k: int| !first_marker_from(message@, from as int, k) by {
                if first_marker_from(message@, from as int, k) {
                    assert(occurs_at(message@, os_error_marker(), k));
                }
            }
            return None;
        }
        proof {
            assert(first_marker_from(message@, from as int, i as int));
            let k = choose|k: int| first_marker_from(message@, from as int, k);
            lemma_first_marker_unique(message@, from as int, i as int, k);
        }
        if suffix_at(message, i) {
            return Some(i);
        }
        from = i + 11;
    }
    None
}

/// The longest prefix of the `)` ... text removed: `message` cut at its
/// ` (os error N)` suffix, or `message` itself when there is none.
pub open spec fn remove_os_error_suffix_spec(m: Seq<char>) -> Seq<char> {
    match os_suffix_index_from(m, 0) {
        Some(i) => m.take(i),
        None => m,
    }
}

/// Cutting the suffix and putting ` (os error N)` back gives the message
/// again, for every error number and every message in which Rust's marker
/// ` (os error ` does not begin before the suffix.
pub proof fn lemma_os_error_suffix_restored(base: Seq<char>, n: i32)
    requires
        forall|j: int| 0 <= j < base.len() ==> !occurs_at(base + os_error_marker(), os_error_marker(), j),
    ensures
        remove_os_error_suffix_spec(base + os_error_marker() + signed_decimal(n as int) + seq![')']) == base,
{
    let d = signed_decimal(n as int);
    let m = base + os_error_marker() + d + seq![')'];
    let bm = base + os_error_marker();
    let l = base.len() as int;
    let k = os_error_marker().len() as int;
    let a = if n < 0 { (-n) as nat } else { n as nat };
    crate::text::lemma_decimal_digits(a);
    assert(m.subrange(l, l + k) =~= os_error_marker());
    assert forall|j: int| 0 <= j < l implies !occurs_at(m, os_error_marker(), j) by {
        assert(m.subrange(j, j + k) =~= bm.subrange(j, j + k));
        assert(!occurs_at(bm, os_error_marker(), j));
    }
    assert(first_marker_from(m, 0, l));
    let i = choose|i: int| first_marker_from(m, 0, i);
    lemma_first_marker_unique(m, 0, i, l);
    let tail = m.skip(l + k);
    assert(tail =~= d + seq![')']);
    let p = d.len() as int;
    let dd = decimal(a);
    assert forall|j: int| 0 <= j < p implies tail[j] != ')' by {
        assert(tail[j] == d[j]);
        if n < 0 {
            if j > 0 {
                assert(d[j] == dd[j - 1]);
                assert(is_digit(dd[j - 1]));
            }
        } else {
            assert(is_digit(dd[j]));
        }
    }
    assert(first_close_paren(tail, p));
    assert(tail.take(p) =~= d);
    if n < 0 {
        assert(d.drop_first() =~= dd);
        assert(is_digit(dd[0]));
    } else {
        assert(is_digit(dd[0]));
    }
    assert(parse_int_spec(tail.take(p), true, i32::MIN as int, i32::MAX as int) == Some(n as int));
    assert(os_suffix_at(m, l));
    assert(os_suffix_index_from(m, 0) == Some(l));
    assert(m.take(l) =~= base);
}

/// `message` without Rust's ` (os error N)` suffix and any ` at path ...`
/// context after it.
pub fn remove_os_error_suffix(message: String) -> (r: String)
    ensures
        r@ == remove_os_error_suffix_spec(message@),
{
    let chars = chars_of(message.as_str());
    assert(chars@ == message@);
    match os_error_suffix_index(chars.as_slice()) {
        Some(i) => {
            let kept = sub_vec(chars.as_slice(), 0, i);
            assert(kept@ =~= message@.take(i as int));
            string_from_chars(kept.as_slice())
        },
        None => message,
    }
}


#[verifier::external_type_specification]
#[verifier::external_body]
pub struct ExIoError(std::io::Error);

/// The `Display` text of `err` (`ToString::to_string`). For an OS error it is
/// the C library's message for the error number followed by ` (os error N)`;
/// nothing is stated of it here, since that message depends on the C library
/// and on the locale.
#[verifier::external_body]
fn io_error_text(err: &std::io::Error) -> String {
    err.to_string()
}

/// The text of `err` without Rust's ` (os error N)` suffix, the way C
/// programs print `strerror` messages.
pub fn plain_os_error(err: &std::io::Error) -> (r: String)
    ensures
        exists|text: Seq<char>| r@ == remove_os_error_suffix_spec(text),
{
    let text = io_error_text(err);
    let ghost t = text@;
    let r = remove_os_error_suffix(text);
    assert(r@ == remove_os_error_suffix_spec(t));
    r
}


// ---------------------------------------------------------------------------
// Finding a script in PATH
// ---------------------------------------------------------------------------

/// `dir` joined with the relative name `name` (`PathBuf::join`): a slash
/// between them unless `dir` already ends in one.
pub open spec fn join_path(dir: Seq<char>, name: Seq<char>) -> Seq<char> {
    if dir.len() > 0 && dir.last() == '/' {
        dir + name
    } else {
        dir.push('/') + name
    }
}

/// The places where `program` is looked for, in order: each directory of
/// `path` (split at colons, an empty one meaning `.`) joined with it.
pub open spec fn path_candidates_spec(path: Seq<char>, program: Seq<char>) -> Seq<Seq<char>> {
    split_on(path, ':', ':').map_values(|d: Seq<char>| join_path(if d.len() == 0 { seq!['.'] } else { d }, program))
}

pub fn path_candidates(path: &str, program: &str) -> (r: Vec<String>)
    ensures
        string_views(r@) == path_candidates_spec(path@, program@),
{
    let c = chars_of(path);
    let p = chars_of(program);
    let dirs = split_chars(c.as_slice(), ':', ':');
    let ghost dv = views_of(dirs@);
    let mut r: Vec<String> = Vec::new();
    let mut i: usize = 0;
    while i < dirs.len()
        invariant
            i <= dirs@.len(),
            dv == views_of(dirs@),
            dv == split_on(path@, ':', ':'),
            p@ == program@,
            string_views(r@) == dv.take(i as int).map_values(|d: Seq<char>| join_path(if d.len() == 0 { seq!['.'] } else { d }, program@)),
        decreases dirs@.len() - i,
    {
        let d = &dirs[i];
        let mut out: Vec<char> = if d.len() == 0 {
            let mut v: Vec<char> = Vec::new();
            v.push('.');
            v
        } else {
            sub_vec(d.as_slice(), 0, d.len())
        };
        let ghost dd = out@;
        assert(dd == (if dv[i as int].len() == 0 { seq!['.'] } else { dv[i as int] }));
        if !(out.len() > 0 && out[out.len() - 1] == '/') {
            out.push('/');
        }
        let mut j: usize = 0;
        let ghost mid = out@;
        while j < p.len()
            invariant
                j <= p@.len(),
                out@ == mid + p@.take(j as int),
            decreases p@.len() - j,
        {
            out.push(p[j]);
            j += 1;
            assert(p@.take(j as int) =~= p@.take(j - 1).push(p@[j - 1]));
        }
        assert(p@.take(p@.len() as int) =~= p@);
        assert(out@ =~= join_path(dd, program@));
        let ghost before = string_views(r@);
        r.push(string_from_chars(out.as_slice()));
        assert(string_views(r@) =~= before.push(join_path(dd, program@)));
        i += 1;
        assert(dv.take(i as int) =~= dv.take(i - 1).push(dv[i - 1]));
    }
    assert(dv.take(dv.len() as int) =~= dv);
    r
}

/// The script that `/bin/sh` runs when a program has no `#!` line: the
/// program itself when its name has a slash, else where it was found in
/// PATH, else its name.
pub fn script_path(program: &str, found: Option<String>) -> (r: String)
    ensures
        r@ == if program@.contains('/') {
            program@
        } else {
            match found {
                Some(f) => f@,
                None => program@,
            }
        },
{
    let c = chars_of(program);
    if index_of(c.as_slice(), '/').is_some() {
        String::from_str(program)
    } else {
        match found {
            Some(f) => f,
            None => String::from_str(program),
        }
    }
}

} // verus!
