//! `isutf8`: its options, where the first invalid byte of a file is, and
//! what is reported about it.
use vstd::prelude::*;
use vstd::utf8::*;
use crate::ifdata::{hex_byte, hex_char};
use crate::text::{
    chars_of, decimal, decode_utf8_prefix, lemma_valid_prefix_len_of_valid, push_decimal,
    same_chars, string_from_chars, string_views, sub_vec,
};

verus! {

broadcast use vstd::seq::group_seq_axioms;

/// The options of `isutf8`.
#[derive(Clone, Copy, Debug, PartialEq, Eq, Structural)]
pub struct Opts {
    pub quiet: bool,
    pub list: bool,
    pub invert: bool,
    pub verbose: bool,
}

/// What the arguments ask for.
pub enum Request {
    /// The usage line, exit status 0.
    Help,
    /// An unknown option: the usage line, exit status 1.
    Invalid,
    /// Check these files (standard input when there are none).
    Check(Opts, Vec<String>),
}

/// The usage line.
pub open spec fn help_spec() -> Seq<char> {
    "Usage: isutf8 [-hqliv] [--help] [--quiet] [--list] [--invert] [--verbose] [file ...]\n"@
}

pub fn help_text() -> (r: String)
    ensures
        r@ == help_spec(),
{
    String::from_str("Usage: isutf8 [-hqliv] [--help] [--quiet] [--list] [--invert] [--verbose] [file ...]\n")
}

/// The meaning of the arguments, as a request kind (0 run, 1 help, 2
/// invalid), the options and the files.
pub open spec fn cluster_spec(a: Seq<char>, pos: int, o: Opts) -> (int, Opts)
    decreases a.len() - pos,
{
    if pos >= a.len() || pos < 0 {
        (0, o)
    } else {
        let c = a[pos];
        if c == 'h' {
            (1, o)
        } else if c == 'q' {
            cluster_spec(a, pos + 1, Opts { quiet: true, ..o })
        } else if c == 'l' {
            cluster_spec(a, pos + 1, Opts { list: true, ..o })
        } else if c == 'i' {
            cluster_spec(a, pos + 1, Opts { invert: true, ..o })
        } else if c == 'v' {
            cluster_spec(a, pos + 1, Opts { verbose: true, ..o })
        } else {
            (2, o)
        }
    }
}

pub open spec fn args_spec(args: Seq<Seq<char>>, k: int, o: Opts, files: Seq<Seq<char>>) -> (int, Opts, Seq<Seq<char>>)
    decreases args.len() - k,
{
    if k >= args.len() || k < 0 {
        (0, o, files)
    } else {
        let a = args[k];
        if a == "--help"@ {
            (1, o, files)
        } else if a == "--quiet"@ {
            args_spec(args, k + 1, Opts { quiet: true, ..o }, files)
        } else if a == "--list"@ {
            args_spec(args, k + 1, Opts { list: true, ..o }, files)
        } else if a == "--invert"@ {
            args_spec(args, k + 1, Opts { invert: true, ..o }, files)
        } else if a == "--verbose"@ {
            args_spec(args, k + 1, Opts { verbose: true, ..o }, files)
        } else if a.len() > 0 && a[0] == '-' && a != "-"@ {
            let (kind, o2) = cluster_spec(a, 1, o);
            if kind != 0 {
                (kind, o2, files)
            } else {
                args_spec(args, k + 1, o2, files)
            }
        } else {
            args_spec(args, k + 1, o, files.push(a))
        }
    }
}

fn lit_is(a: &[char], s: &str) -> (r: bool)
    ensures
        r == (a@ == s@),
{
    let b = chars_of(s);
    same_chars(a, b.as_slice())
}

/// Reads the arguments (without the program name).
pub fn parse_args(args: &[String]) -> (r: Request)
    ensures
        ({
            let res = args_spec(string_views(args@), 0, Opts { quiet: false, list: false, invert: false, verbose: false }, seq![]);
            &&& (r is Help <==> res.0 == 1)
            &&& (r is Invalid <==> res.0 == 2)
            &&& (r matches Request::Check(ro, rf) ==> res.0 == 0 && ro == res.1 && string_views(rf@) == res.2)
        }),
{
    let ghost av = string_views(args@);
    let ghost o0 = Opts { quiet: false, list: false, invert: false, verbose: false };
    let mut o = Opts { quiet: false, list: false, invert: false, verbose: false };
    let mut files: Vec<String> = Vec::new();
    let mut k: usize = 0;
    assert(string_views(files@) =~= Seq::<Seq<char>>::empty());
    while k < args.len()
        invariant
            k <= args@.len(),
            av == string_views(args@),
            o0 == (Opts { quiet: false, list: false, invert: false, verbose: false }),
            args_spec(av, 0, o0, seq![]) == args_spec(av, k as int, o, string_views(files@)),
        decreases args@.len() - k,
    {
        let a = chars_of(args[k].as_str());
        assert(a@ == av[k as int]);
        if lit_is(a.as_slice(), "--help") {
            return Request::Help;
        } else if lit_is(a.as_slice(), "--quiet") {
            o.quiet = true;
        } else if lit_is(a.as_slice(), "--list") {
            o.list = true;
        } else if lit_is(a.as_slice(), "--invert") {
            o.invert = true;
        } else if lit_is(a.as_slice(), "--verbose") {
            o.verbose = true;
        } else if a.len() > 0 && a[0] == '-' && !lit_is(a.as_slice(), "-") {
            let ghost ostart = o;
            let mut pos: usize = 1;
            while pos < a.len()
                invariant
                    1 <= pos <= a@.len(),
                    k < args@.len(),
                    av == string_views(args@),
                    o0 == (Opts { quiet: false, list: false, invert: false, verbose: false }),
                    a@ == av[k as int],
                    a@.len() > 0 && a@[0] == '-' && a@ != "-"@,
                    a@ != "--help"@ && a@ != "--quiet"@ && a@ != "--list"@ && a@ != "--invert"@ && a@ != "--verbose"@,
                    args_spec(av, 0, o0, seq![]) == args_spec(av, k as int, ostart, string_views(files@)),
                    cluster_spec(a@, 1, ostart) == cluster_spec(a@, pos as int, o),
                decreases a@.len() - pos,
            {
                let c = a[pos];
                if c == 'h' {
                    return Request::Help;
                } else if c == 'q' {
                    o.quiet = true;
                } else if c == 'l' {
                    o.list = true;
                } else if c == 'i' {
                    o.invert = true;
                } else if c == 'v' {
                    o.verbose = true;
                } else {
                    return Request::Invalid;
                }
                pos += 1;
            }
        } else {
            let ghost before = string_views(files@);
            files.push(args[k].clone());
            assert(string_views(files@) =~= before.push(av[k as int]));
        }
        k += 1;
    }
    Request::Check(o, files)
}

// ---------------------------------------------------------------------------
// Where the error is
// ---------------------------------------------------------------------------

/// Number of newlines in `b`.
pub open spec fn count_newlines(b: Seq<u8>) -> nat
    decreases b.len(),
{
    if b.len() == 0 {
        0
    } else {
        count_newlines(b.drop_last()) + if b.last() == 10 { 1nat } else { 0nat }
    }
}

/// Where the last line of `b` starts: just after its last newline, or 0.
pub open spec fn line_start(b: Seq<u8>) -> nat
    decreases b.len(),
{
    if b.len() == 0 {
        0
    } else if b.last() == 10 {
        b.len()
    } else {
        line_start(b.drop_last())
    }
}

/// The line (from 1), the character in that line (from 1; by bytes when the
/// line so far is not valid UTF-8) and the byte offset of position `pos`.
pub open spec fn line_char_spec(bytes: Seq<u8>, pos: int) -> (int, int, int) {
    let before = bytes.take(pos);
    let ls = line_start(before) as int;
    let seg = bytes.subrange(ls, pos);
    let ch: int = if valid_utf8(seg) { decode_utf8(seg).len() as int + 1 } else { pos - ls + 1 };
    ((count_newlines(before) + 1) as int, ch, pos)
}

proof fn lemma_line_start_le(b: Seq<u8>)
    ensures
        line_start(b) <= b.len(),
    decreases b.len(),
{
    if b.len() > 0 {
        lemma_line_start_le(b.drop_last());
    }
}

pub fn line_char(bytes: &[u8], pos: usize) -> (r: (usize, usize, usize))
    requires
        pos <= bytes.len() < usize::MAX,
    ensures
        (r.0 as int, r.1 as int, r.2 as int) == line_char_spec(bytes@, pos as int),
{
    let mut lines: usize = 0;
    let mut ls: usize = 0;
    let mut i: usize = 0;
    assert(bytes@.take(0) =~= Seq::<u8>::empty());
    while i < pos
        invariant
            i <= pos <= bytes@.len(),
            lines == count_newlines(bytes@.take(i as int)),
            ls == line_start(bytes@.take(i as int)),
            lines <= i,
        decreases pos - i,
    {
        assert(bytes@.take(i + 1).drop_last() =~= bytes@.take(i as int));
        if bytes[i] == 10 {
            lines += 1;
            ls = i + 1;
        }
        i += 1;
    }
    proof {
        lemma_line_start_le(bytes@.take(pos as int));
    }
    let seg = sub_vec(bytes, ls, pos);
    let (chars, n) = decode_utf8_prefix(seg.as_slice());
    let ch = if n == seg.len() {
        assert(seg@.subrange(0, n as int) =~= seg@);
        assert(chars@.len() <= seg@.len() && seg@.len() <= bytes@.len()) by {
            crate::text::lemma_decode_len(seg@);
        }
        assert(seg@.len() <= pos);
        chars.len() + 1
    } else {
        proof {
            if valid_utf8(seg@) {
                lemma_valid_prefix_len_of_valid(seg@);
            }
        }
        pos - ls + 1
    };
    (lines + 1, ch, pos)
}

// ---------------------------------------------------------------------------
// The report
// ---------------------------------------------------------------------------

/// How a byte is shown in the dump: itself when printable ASCII or a space,
/// else a dot.
pub open spec fn shown(b: u8) -> char {
    if (33 <= b && b <= 126) || b == 32 {
        b as char
    } else {
        '.'
    }
}

pub open spec fn hex_cells(s: Seq<u8>) -> Seq<char>
    decreases s.len(),
{
    if s.len() == 0 {
        Seq::empty()
    } else {
        hex_cells(s.drop_last()) + hex_byte(s.last()) + seq![' ']
    }
}

pub open spec fn spaces(n: nat) -> Seq<char> {
    Seq::new(n, |i: int| ' ')
}

/// The two lines of `--verbose` around position `pos`: up to sixteen bytes
/// on each side in hex and as text, then markers under the byte at `pos`.
pub open spec fn verbose_spec(bytes: Seq<u8>, pos: int) -> Seq<char> {
    let start = if pos >= 16 { pos - 16 } else { 0 };
    let end = if pos + 16 <= bytes.len() { pos + 16 } else { bytes.len() as int };
    let slice = bytes.subrange(start, end);
    let pad = if slice.len() < 16 { 3 * (16 - slice.len()) } else { 0 };
    hex_cells(slice) + spaces(pad as nat) + " | "@ + slice.map_values(|b: u8| shown(b)) + seq!['\n']
        + Seq::new((end - start) as nat, |i: int| i).map_values(|i: int| if start + i == pos { "^^ "@ } else { "   "@ }).flatten()
        + " | "@ + Seq::new((end - start) as nat, |i: int| if start + i == pos { '^' } else { ' ' }) + seq!['\n']
}

fn push_str(out: &mut Vec<char>, s: &str)
    ensures
        final(out)@ == old(out)@ + s@,
{
    let c = chars_of(s);
    let mut i: usize = 0;
    let ghost start = out@;
    while i < c.len()
        invariant
            i <= c@.len(),
            out@ == start + c@.take(i as int),
        decreases c@.len() - i,
    {
        out.push(c[i]);
        i += 1;
        assert(c@.take(i as int) =~= c@.take(i - 1).push(c@[i - 1]));
    }
    assert(c@.take(c@.len() as int) =~= c@);
}

/// The dump of `--verbose`.
#[verifier::spinoff_prover]
#[verifier::rlimit(40)]
pub fn verbose_dump(bytes: &[u8], pos: usize) -> (r: String)
    requires
        pos <= bytes.len(),
    ensures
        r@ == verbose_spec(bytes@, pos as int),
{
    let start: usize = if pos >= 16 { pos - 16 } else { 0 };
    let end: usize = if bytes.len() >= 16 && pos <= bytes.len() - 16 { pos + 16 } else { bytes.len() };
    let ghost slice = bytes@.subrange(start as int, end as int);
    let mut out: Vec<char> = Vec::new();
    let mut i: usize = start;
    assert(slice.take(0) =~= Seq::<u8>::empty());
    while i < end
        invariant
            start <= i <= end <= bytes@.len(),
            slice == bytes@.subrange(start as int, end as int),
            out@ == hex_cells(slice.take(i - start)),
        decreases end - i,
    {
        let b = bytes[i];
        out.push(hex_char(b / 16));
        out.push(hex_char(b % 16));
        out.push(' ');
        assert(slice.take(i + 1 - start).drop_last() =~= slice.take(i - start));
        i += 1;
        assert(out@ =~= hex_cells(slice.take(i - start)));
    }
    assert(slice.take(end - start) =~= slice);
    let n = end - start;
    let pad: usize = if n < 16 { 3 * (16 - n) } else { 0 };
    let ghost h = out@;
    let mut p: usize = 0;
    while p < pad
        invariant
            p <= pad,
            out@ == h + spaces(p as nat),
        decreases pad - p,
    {
        out.push(' ');
        p += 1;
        assert(spaces(p as nat) =~= spaces((p - 1) as nat).push(' '));
    }
    push_str(&mut out, " | ");
    let ghost h2 = out@;
    let mut i: usize = start;
    while i < end
        invariant
            start <= i <= end <= bytes@.len(),
            slice == bytes@.subrange(start as int, end as int),
            out@ == h2 + slice.take(i - start).map_values(|b: u8| shown(b)),
        decreases end - i,
    {
        let b = bytes[i];
        let c = if (33 <= b && b <= 126) || b == 32 { b as char } else { '.' };
        out.push(c);
        i += 1;
        assert(slice.take(i - start).map_values(|b: u8| shown(b)) =~= slice.take(i - 1 - start).map_values(|b: u8| shown(b)).push(shown(bytes@[i - 1])));
    }
    out.push('\n');
    let ghost h3 = out@;
    let ghost marks = Seq::new((end - start) as nat, |i: int| i).map_values(|i: int| if start + i == pos { "^^ "@ } else { "   "@ });
    let mut i: usize = start;
    assert(marks.take(0).flatten() =~= Seq::<char>::empty());
    while i < end
        invariant
            start <= i <= end,
            marks == Seq::new((end - start) as nat, |i: int| i).map_values(|i: int| if start + i == pos { "^^ "@ } else { "   "@ }),
            out@ == h3 + marks.take(i - start).flatten(),
        decreases end - i,
    {
        if i == pos {
            push_str(&mut out, "^^ ");
        } else {
            push_str(&mut out, "   ");
        }
        proof {
            let t = marks.take(i + 1 - start);
            assert(t =~= marks.take(i - start).push(marks[i - start]));
            marks.take(i - start).lemma_flatten_push(marks[i - start]);
        }
        i += 1;
    }
    assert(marks.take(end - start) =~= marks);
    push_str(&mut out, " | ");
    let ghost h4 = out@;
    let mut i: usize = start;
    while i < end
        invariant
            start <= i <= end,
            out@ == h4 + Seq::new((i - start) as nat, |j: int| if start + j == pos { '^' } else { ' ' }),
        decreases end - i,
    {
        out.push(if i == pos { '^' } else { ' ' });
        i += 1;
        assert(Seq::new((i - start) as nat, |j: int| if start + j == pos { '^' } else { ' ' }) =~= Seq::new(
            (i - 1 - start) as nat,
            |j: int| if start + j == pos { '^' } else { ' ' },
        ).push(if i - 1 == pos { '^' } else { ' ' }));
    }
    out.push('\n');
    assert(out@ =~= verbose_spec(bytes@, pos as int));
    string_from_chars(out.as_slice())
}

/// What checking one file reports on standard output, and whether it was
/// valid UTF-8.
pub open spec fn check_spec(name: Seq<char>, bytes: Seq<u8>, o: Opts) -> (bool, Seq<char>) {
    if valid_utf8(bytes) {
        (true, if o.invert && o.list && !o.quiet { name + seq!['\n'] } else { Seq::empty() })
    } else if !o.invert && !o.quiet {
        if o.list {
            (false, name + seq!['\n'])
        } else {
            let pos = utf8_valid_prefix_len_of(bytes);
            let (l, c, b) = line_char_spec(bytes, pos);
            (false, name + ": line "@ + decimal(l as nat) + ", char "@ + decimal(c as nat) + ", byte "@
                + decimal(b as nat) + ": invalid UTF-8\n"@ + if o.verbose { verbose_spec(bytes, pos) } else { Seq::empty() })
        }
    } else {
        (false, Seq::empty())
    }
}

/// The length of the longest valid UTF-8 prefix (`valid_up_to`).
pub open spec fn utf8_valid_prefix_len_of(bytes: Seq<u8>) -> int {
    crate::text::utf8_valid_prefix_len(bytes) as int
}

/// Checks the contents of one file.
pub fn check(name: &str, bytes: &[u8], o: Opts) -> (r: (bool, String))
    requires
        bytes.len() < usize::MAX,
    ensures
        (r.0, r.1@) == check_spec(name@, bytes@, o),
{
    let (_chars, n) = decode_utf8_prefix(bytes);
    if n == bytes.len() {
        assert(bytes@.subrange(0, n as int) =~= bytes@);
        let mut out: Vec<char> = Vec::new();
        if o.invert && o.list && !o.quiet {
            push_str(&mut out, name);
            out.push('\n');
        }
        return (true, string_from_chars(out.as_slice()));
    }
    proof {
        if valid_utf8(bytes@) {
            lemma_valid_prefix_len_of_valid(bytes@);
        }
    }
    let mut out: Vec<char> = Vec::new();
    if !o.invert && !o.quiet {
        push_str(&mut out, name);
        if o.list {
            out.push('\n');
        } else {
            let (l, c, b) = line_char(bytes, n);
            push_str(&mut out, ": line ");
            push_decimal(&mut out, l as u64);
            push_str(&mut out, ", char ");
            push_decimal(&mut out, c as u64);
            push_str(&mut out, ", byte ");
            push_decimal(&mut out, b as u64);
            push_str(&mut out, ": invalid UTF-8\n");
            if o.verbose {
                let v = verbose_dump(bytes, n);
                let vc = chars_of(v.as_str());
                let mut j: usize = 0;
                let ghost h = out@;
                while j < vc.len()
                    invariant
                        j <= vc@.len(),
                        out@ == h + vc@.take(j as int),
                    decreases vc@.len() - j,
                {
                    out.push(vc[j]);
                    j += 1;
                    assert(vc@.take(j as int) =~= vc@.take(j - 1).push(vc@[j - 1]));
                }
                assert(vc@.take(vc@.len() as int) =~= vc@);
            }
        }
    }
    (false, string_from_chars(out.as_slice()))
}

} // verus!
