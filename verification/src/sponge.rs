//! `sponge`: its options and the choices made before the output file is
//! written.
use vstd::prelude::*;
use crate::text::{chars_of, string_from_chars, string_views};

verus! {

broadcast use vstd::seq::group_seq_axioms;

/// What the arguments say.
pub struct SpongeArgs {
    pub append: bool,
    /// `-h` was seen: print the usage line and exit with status 0.
    pub help: bool,
    /// One "PROGRAM: invalid option -- 'C'" line for each unknown letter
    /// seen before any `-h`.
    pub warnings: Vec<String>,
    /// The output file (the first operand), if any.
    pub file: Option<String>,
}

pub open spec fn invalid_option_line(program: Seq<char>, c: char) -> Seq<char> {
    program + ": invalid option -- '"@ + seq![c] + "'"@
}

/// The letters of an option cluster from `pos` on: (append, help seen,
/// unknown letters before it).
pub open spec fn letters_scan(a: Seq<char>, pos: int, append: bool, unknown: Seq<char>) -> (bool, bool, Seq<char>)
    decreases a.len() - pos,
{
    if pos >= a.len() || pos < 0 {
        (append, false, unknown)
    } else if a[pos] == 'a' {
        letters_scan(a, pos + 1, true, unknown)
    } else if a[pos] == 'h' {
        (append, true, unknown)
    } else {
        letters_scan(a, pos + 1, append, unknown.push(a[pos]))
    }
}

/// The meaning of the arguments from `k` on: (append, help, unknown letters
/// before help, first operand).
pub open spec fn sponge_scan(args: Seq<Seq<char>>, k: int, options: bool, append: bool, unknown: Seq<char>, file: Option<Seq<char>>) -> (bool, bool, Seq<char>, Option<Seq<char>>)
    decreases args.len() - k,
{
    if k >= args.len() || k < 0 {
        (append, false, unknown, file)
    } else {
        let a = args[k];
        if options && a == "--"@ {
            sponge_scan(args, k + 1, false, append, unknown, file)
        } else if options && a.len() > 1 && a[0] == '-' {
            let (ap2, help, u2) = letters_scan(a, 1, append, unknown);
            if help {
                (ap2, true, u2, file)
            } else {
                sponge_scan(args, k + 1, options, ap2, u2, file)
            }
        } else {
            sponge_scan(args, k + 1, options, append, unknown, if file is Some { file } else { Some(a) })
        }
    }
}

fn lit_is(a: &[char], s: &str) -> (r: bool)
    ensures
        r == (a@ == s@),
{
    let b = chars_of(s);
    crate::text::same_chars(a, b.as_slice())
}

/// Reads the arguments (without the program name); `program` is the name
/// the program was called by.
pub fn parse_args(args: &[String], program: &str) -> (r: SpongeArgs)
    ensures
        ({
            let (ap, help, unknown, file) = sponge_scan(string_views(args@), 0, true, false, seq![], None);
            &&& r.append == ap
            &&& r.help == help
            &&& string_views(r.warnings@) == unknown.map_values(|c: char| invalid_option_line(program@, c))
            &&& match r.file { Some(f) => file == Some(f@), None => file is None }
        }),
{
    let ghost av = string_views(args@);
    let mut options = true;
    let mut append = false;
    let mut warnings: Vec<String> = Vec::new();
    let ghost mut unknown: Seq<char> = seq![];
    let mut file: Option<String> = None;
    let mut k: usize = 0;
    assert(string_views(warnings@) =~= unknown.map_values(|c: char| invalid_option_line(program@, c)));
    while k < args.len()
        invariant
            k <= args@.len(),
            av == string_views(args@),
            string_views(warnings@) == unknown.map_values(|c: char| invalid_option_line(program@, c)),
            sponge_scan(av, 0, true, false, seq![], None) == sponge_scan(
                av,
                k as int,
                options,
                append,
                unknown,
                match file { Some(f) => Some(f@), None => None },
            ),
        decreases args@.len() - k,
    {
        let a = chars_of(args[k].as_str());
        assert(a@ == av[k as int]);
        if options && lit_is(a.as_slice(), "--") {
            options = false;
        } else if options && a.len() > 1 && a[0] == '-' {
            let ghost ap0 = append;
            let ghost u0 = unknown;
            let mut pos: usize = 1;
            while pos < a.len()
                invariant
                    1 <= pos <= a@.len(),
                    k < args@.len(),
                    av == string_views(args@),
                    options,
                    a@ == av[k as int],
                    a@.len() > 1 && a@[0] == '-',
                    a@ != "--"@,
                    sponge_scan(av, 0, true, false, seq![], None) == sponge_scan(
                        av,
                        k as int,
                        options,
                        ap0,
                        u0,
                        match file { Some(f) => Some(f@), None => None },
                    ),
                    letters_scan(a@, 1, ap0, u0) == letters_scan(a@, pos as int, append, unknown),
                    string_views(warnings@) == unknown.map_values(|c: char| invalid_option_line(program@, c)),
                decreases a@.len() - pos,
            {
                let c = a[pos];
                if c == 'a' {
                    append = true;
                } else if c == 'h' {
                    return SpongeArgs { append, help: true, warnings, file };
                } else {
                    let mut m = chars_of(program);
                    let h = chars_of(": invalid option -- '");
                    let mut j: usize = 0;
                    let ghost st = m@;
                    while j < h.len()
                        invariant
                            j <= h@.len(),
                            m@ == st + h@.take(j as int),
                        decreases h@.len() - j,
                    {
                        m.push(h[j]);
                        j += 1;
                        assert(h@.take(j as int) =~= h@.take(j - 1).push(h@[j - 1]));
                    }
                    assert(h@.take(h@.len() as int) =~= h@);
                    m.push(c);
                    m.push('\'');
                    assert(m@ =~= invalid_option_line(program@, c)) by {
                        reveal_strlit("'");
                        assert("'"@ =~= seq!['\'']);
                    }
                    let ghost before = string_views(warnings@);
                    warnings.push(string_from_chars(m.as_slice()));
                    proof {
                        unknown = unknown.push(c);
                    }
                    assert(string_views(warnings@) =~= before.push(invalid_option_line(program@, c)));
                }
                pos += 1;
            }
        } else {
            if file.is_none() {
                file = Some(args[k].clone());
            }
        }
        k += 1;
    }
    SpongeArgs { append, help: false, warnings, file }
}

/// The usage line (written to standard output).
pub open spec fn usage_spec() -> Seq<char> {
    "sponge [-a] <file>: soak up all input from stdin and write it to <file>\n"@
}

pub fn usage_text() -> (r: String)
    ensures
        r@ == usage_spec(),
{
    String::from_str("sponge [-a] <file>: soak up all input from stdin and write it to <file>\n")
}

/// Whether the file is replaced atomically (through a temporary file): it
/// does not exist yet, or it is a regular file and not a symbolic link.
pub fn atomic_candidate(meta: Option<(bool, bool)>) -> (r: bool)
    ensures
        r == match meta {
            Some((is_file, is_symlink)) => is_file && !is_symlink,
            None => true,
        },
{
    match meta {
        Some((is_file, is_symlink)) => is_file && !is_symlink,
        None => true,
    }
}

/// The permission bits of a new file under the creation mask `mask`.
pub fn new_file_mode(mask: u32) -> (r: u32)
    ensures
        r == 0o666u32 & !mask,
{
    0o666 & !mask
}

/// The permission bits of the output: those of the file it replaces, else
/// those of a new file.
pub fn output_mode(existing: Option<u32>, mask: u32) -> (r: u32)
    ensures
        r == match existing { Some(m) => m, None => 0o666u32 & !mask },
{
    match existing {
        Some(m) => m,
        None => new_file_mode(mask),
    }
}

/// What is written: with `-a`, the old contents of a regular file first,
/// then the input.
pub fn output_bytes(old: Option<Vec<u8>>, input: &[u8]) -> (r: Vec<u8>)
    ensures
        r@ == match old { Some(o) => o@ + input@, None => input@ },
{
    let mut data: Vec<u8> = match old {
        Some(o) => o,
        None => Vec::new(),
    };
    let ghost start = data@;
    let mut i: usize = 0;
    while i < input.len()
        invariant
            i <= input@.len(),
            data@ == start + input@.take(i as int),
        decreases input@.len() - i,
    {
        data.push(input[i]);
        i += 1;
        assert(input@.take(i as int) =~= input@.take(i - 1).push(input@[i - 1]));
    }
    assert(input@.take(input@.len() as int) =~= input@);
    assert(start == match old { Some(o) => o@, None => Seq::<u8>::empty() });
    data
}

} // verus!
