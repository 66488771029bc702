//! `zrun`: which arguments are compressed files, how each is decompressed,
//! which program a `zCMD` link runs, and how the run ends.
use vstd::prelude::*;
use crate::text::{
    chars_of, decimal, ends_with, same_chars, signed_decimal, starts_with, string_from_chars, sub_vec,
    push_signed_decimal,
};

verus! {

broadcast use vstd::seq::group_seq_axioms;

/// The compressions `zrun` recognises, by file extension.
#[derive(Clone, Copy, Debug, PartialEq, Eq, Structural)]
pub enum Compression {
    Gz,
    Z,
    Bz2,
    Xz,
    Lzo,
    Lzma,
}

/// The extension of compression number `k`, in the order they are tried.
pub open spec fn ext_bytes(k: int) -> Seq<u8> {
    if k == 0 {
        seq![103u8, 122]
    } else if k == 1 {
        seq![90u8]
    } else if k == 2 {
        seq![98u8, 122, 50]
    } else if k == 3 {
        seq![120u8, 122]
    } else if k == 4 {
        seq![108u8, 122, 111]
    } else {
        seq![108u8, 122, 109, 97]
    }
}

pub open spec fn compression_of(k: int) -> Compression {
    if k == 0 {
        Compression::Gz
    } else if k == 1 {
        Compression::Z
    } else if k == 2 {
        Compression::Bz2
    } else if k == 3 {
        Compression::Xz
    } else if k == 4 {
        Compression::Lzo
    } else {
        Compression::Lzma
    }
}

fn ext_of(k: usize) -> (r: Vec<u8>)
    requires
        k < 6,
    ensures
        r@ == ext_bytes(k as int),
{
    let r = if k == 0 {
        vec![103u8, 122]
    } else if k == 1 {
        vec![90u8]
    } else if k == 2 {
        vec![98u8, 122, 50]
    } else if k == 3 {
        vec![120u8, 122]
    } else if k == 4 {
        vec![108u8, 122, 111]
    } else {
        vec![108u8, 122, 109, 97]
    };
    assert(r@ =~= ext_bytes(k as int));
    r
}

/// `path` ends with a dot and the extension of compression `k`.
pub open spec fn has_ext(path: Seq<u8>, k: int) -> bool {
    ends_with(path, seq![46u8] + ext_bytes(k))
}

/// The first compression, from number `k` on, whose extension ends `path`.
pub open spec fn first_ext(path: Seq<u8>, k: int) -> Option<int>
    decreases 6 - k,
{
    if k >= 6 || k < 0 {
        None
    } else if has_ext(path, k) {
        Some(k)
    } else {
        first_ext(path, k + 1)
    }
}

/// Where the last path component of `b` starts: just after its last slash,
/// or 0.
pub open spec fn basename_start(b: Seq<u8>) -> nat
    decreases b.len(),
{
    if b.len() == 0 {
        0
    } else if b.last() == 47 {
        b.len()
    } else {
        basename_start(b.drop_last())
    }
}

proof fn lemma_basename_start(b: Seq<u8>)
    ensures
        basename_start(b) <= b.len(),
    decreases b.len(),
{
    if b.len() > 0 {
        lemma_basename_start(b.drop_last());
    }
}

/// For a compressed file argument: its compression, and the suffix of the
/// temporary file that holds it decompressed: a dash and the file's name
/// without the directory and the extension.
pub open spec fn compressed_arg_spec(path: Seq<u8>) -> Option<(Compression, Seq<u8>)> {
    match first_ext(path, 0) {
        None => None,
        Some(k) => {
            let stem = path.take(path.len() - (ext_bytes(k).len() + 1));
            Some((compression_of(k), seq![45u8] + stem.skip(basename_start(stem) as int)))
        },
    }
}

fn has_suffix_bytes(s: &[u8], suffix: &[u8]) -> (r: bool)
    ensures
        r == ends_with(s@, suffix@),
{
    if suffix.len() > s.len() {
        return false;
    }
    let off = s.len() - suffix.len();
    let mut i: usize = 0;
    while i < suffix.len()
        invariant
            off == s@.len() - suffix@.len(),
            off + suffix@.len() == s@.len(),
            s@.len() == s.len(),
            i <= suffix@.len(),
            forall|j: int| 0 <= j < i ==> s@[off + j] == suffix@[j],
        decreases suffix@.len() - i,
    {
        if s[off + i] != suffix[i] {
            assert(s@.skip(off as int)[i as int] != suffix@[i as int]);
            return false;
        }
        i += 1;
    }
    assert(s@.skip(off as int) =~= suffix@);
    true
}

pub fn compressed_arg(path: &[u8]) -> (r: Option<(Compression, Vec<u8>)>)
    ensures
        match r {
            Some((c, suffix)) => compressed_arg_spec(path@) == Some((c, suffix@)),
            None => compressed_arg_spec(path@) is None,
        },
{
    let mut k: usize = 0;
    while k < 6
        invariant
            k <= 6,
            first_ext(path@, 0) == first_ext(path@, k as int),
        decreases 6 - k,
    {
        let e = ext_of(k);
        let mut dotted: Vec<u8> = Vec::new();
        dotted.push(46u8);
        let mut j: usize = 0;
        while j < e.len()
            invariant
                j <= e@.len(),
                dotted@ == seq![46u8] + e@.take(j as int),
            decreases e@.len() - j,
        {
            dotted.push(e[j]);
            j += 1;
            assert(e@.take(j as int) =~= e@.take(j - 1).push(e@[j - 1]));
        }
        assert(e@.take(e@.len() as int) =~= e@);
        if has_suffix_bytes(path, dotted.as_slice()) {
            let stem_len = path.len() - dotted.len();
            let stem = sub_vec(path, 0, stem_len);
            assert(stem@ == path@.take(path@.len() - (ext_bytes(k as int).len() + 1)));
            let mut b: usize = stem_len;
            assert(stem@.take(b as int) =~= stem@);
            while b > 0 && stem[b - 1] != 47u8
                invariant
                    b <= stem@.len(),
                    basename_start(stem@) == basename_start(stem@.take(b as int)),
                decreases b,
            {
                assert(stem@.take(b as int).drop_last() =~= stem@.take(b - 1));
                b -= 1;
            }
            proof {
                if b > 0 {
                    assert(stem@.take(b as int).last() == 47u8);
                } else {
                    assert(stem@.take(0) =~= Seq::<u8>::empty());
                }
                if b == stem@.len() {
                    assert(stem@.take(b as int) =~= stem@);
                }
            }
            let mut suffix: Vec<u8> = Vec::new();
            suffix.push(45u8);
            let base = sub_vec(stem.as_slice(), b, stem_len);
            let mut j: usize = 0;
            while j < base.len()
                invariant
                    j <= base@.len(),
                    suffix@ == seq![45u8] + base@.take(j as int),
                decreases base@.len() - j,
            {
                suffix.push(base[j]);
                j += 1;
                assert(base@.take(j as int) =~= base@.take(j - 1).push(base@[j - 1]));
            }
            assert(base@.take(base@.len() as int) =~= base@);
            let c = if k == 0 {
                Compression::Gz
            } else if k == 1 {
                Compression::Z
            } else if k == 2 {
                Compression::Bz2
            } else if k == 3 {
                Compression::Xz
            } else if k == 4 {
                Compression::Lzo
            } else {
                Compression::Lzma
            };
            return Some((c, suffix));
        }
        k += 1;
    }
    None
}

/// The command that decompresses to standard output: `bzip2`, `xz`, `lzop`
/// or `lzma` for those formats, `gzip` for the others, each with `-d -c`.
pub open spec fn decompressor_spec(c: Compression) -> Seq<char> {
    match c {
        Compression::Bz2 => "bzip2"@,
        Compression::Xz => "xz"@,
        Compression::Lzo => "lzop"@,
        Compression::Lzma => "lzma"@,
        _ => "gzip"@,
    }
}

/// The program and arguments that decompress a file of compression `c`.
pub fn decompressor(c: Compression) -> (r: (&'static str, &'static str, &'static str))
    ensures
        r.0@ == decompressor_spec(c),
        r.1@ == "-d"@,
        r.2@ == "-c"@,
{
    match c {
        Compression::Bz2 => ("bzip2", "-d", "-c"),
        Compression::Xz => ("xz", "-d", "-c"),
        Compression::Lzo => ("lzop", "-d", "-c"),
        Compression::Lzma => ("lzma", "-d", "-c"),
        _ => ("gzip", "-d", "-c"),
    }
}

/// The final component that `std::path::Path::file_name` gives for `p`.
pub uninterp spec fn path_file_name_spec(p: Seq<char>) -> Option<Seq<char>>;

/// std: `Path::new(p).file_name()`, written back as a string (lossless,
/// since it came from one).
#[verifier::external_body]
fn path_file_name(p: &str) -> (r: Option<String>)
    ensures
        match r {
            Some(s) => path_file_name_spec(p@) == Some(s@),
            None => path_file_name_spec(p@) is None,
        },
{
    match std::path::Path::new(p).file_name() {
        Some(n) => Some(n.to_string_lossy().into_owned()),
        None => None,
    }
}

/// The program that a link named `zCMD` runs: `CMD`, unless the name is
/// `z` or `zrun` or does not start with `z`.
pub open spec fn linked_program_spec(argv0: Seq<char>) -> Option<Seq<char>> {
    match path_file_name_spec(argv0) {
        None => None,
        Some(base) => if base.len() > 0 && base[0] == 'z' {
            let rest = base.drop_first();
            if rest.len() == 0 || rest == "run"@ {
                None
            } else {
                Some(rest)
            }
        } else {
            None
        },
    }
}

pub fn linked_program(argv0: &str) -> (r: Option<String>)
    ensures
        match r {
            Some(p) => linked_program_spec(argv0@) == Some(p@),
            None => linked_program_spec(argv0@) is None,
        },
{
    match path_file_name(argv0) {
        None => None,
        Some(base) => {
            let b = chars_of(base.as_str());
            if b.len() > 0 && b[0] == 'z' {
                let rest = sub_vec(b.as_slice(), 1, b.len());
                assert(rest@ =~= b@.drop_first());
                let run = chars_of("run");
                if rest.len() == 0 || same_chars(rest.as_slice(), run.as_slice()) {
                    None
                } else {
                    Some(string_from_chars(rest.as_slice()))
                }
            } else {
                None
            }
        },
    }
}

/// The usage message when no command (or no argument) is given.
pub fn usage_message(linked: Option<&str>) -> (r: String)
    ensures
        r@ == match linked {
            Some(p) => "Usage: z"@ + p@ + " <args>\nEquivalent to: zrun "@ + p@ + " <args>"@,
            None => "Usage: zrun <command> <args>"@,
        },
{
    match linked {
        Some(p) => {
            let mut out = chars_of("Usage: z");
            let pc = chars_of(p);
            append(&mut out, pc.as_slice());
            let mid = chars_of(" <args>\nEquivalent to: zrun ");
            append(&mut out, mid.as_slice());
            append(&mut out, pc.as_slice());
            let tail = chars_of(" <args>");
            append(&mut out, tail.as_slice());
            string_from_chars(out.as_slice())
        },
        None => String::from_str("Usage: zrun <command> <args>"),
    }
}

fn append(out: &mut Vec<char>, s: &[char])
    ensures
        final(out)@ == old(out)@ + s@,
{
    let mut i: usize = 0;
    let ghost start = out@;
    while i < s.len()
        invariant
            i <= s@.len(),
            out@ == start + s@.take(i as int),
        decreases s@.len() - i,
    {
        out.push(s[i]);
        i += 1;
        assert(s@.take(i as int) =~= s@.take(i - 1).push(s@[i - 1]));
    }
    assert(s@.take(s@.len() as int) =~= s@);
}

/// The message and status of a failed program start: ENOENT and EACCES by name, others as ENOENT.
pub fn perl_exec_error(errno: Option<i32>) -> (r: (&'static str, i32))
    ensures
        errno == Some(13i32) ==> r.0@ == "Permission denied"@ && r.1 == 13,
        errno != Some(13i32) ==> r.0@ == "No such file or directory"@ && r.1 == 2,
{
    match errno {
        Some(13) => ("Permission denied", 13),
        _ => ("No such file or directory", 2),
    }
}

/// The message when decompressing `arg` failed: with the exit code, or
/// abnormally (killed).
pub fn preprocessing_failed_msg(arg: &str, code: Option<i32>) -> (r: String)
    ensures
        r@ == match code {
            Some(c) => "zrun: preprocessing for "@ + arg@ + " terminated with code "@ + signed_decimal(c as int),
            None => "zrun: preprocessing for "@ + arg@ + " terminated abnormally: 1"@,
        },
{
    let mut out = chars_of("zrun: preprocessing for ");
    let a = chars_of(arg);
    append(&mut out, a.as_slice());
    match code {
        Some(c) => {
            let m = chars_of(" terminated with code ");
            append(&mut out, m.as_slice());
            push_signed_decimal(&mut out, c as i64);
        },
        None => {
            let m = chars_of(" terminated abnormally: 1");
            append(&mut out, m.as_slice());
        },
    }
    string_from_chars(out.as_slice())
}

/// The exit status after the program ran: when it was killed by a signal,
/// 25 if files were decompressed and 255 otherwise; else its own status.
pub fn final_status(code: Option<i32>, had_temporaries: bool) -> (r: i32)
    ensures
        r == match code {
            Some(c) => c as int,
            None => if had_temporaries { 25 } else { 255 },
        },
{
    match code {
        Some(c) => c,
        None => if had_temporaries { 25 } else { 255 },
    }
}

/// The tool that decompresses a file argument, if it is one.
pub open spec fn tool_for(path: Seq<u8>) -> Option<Seq<char>> {
    match compressed_arg_spec(path) {
        Some((c, _)) => Some(decompressor_spec(c)),
        None => None,
    }
}

proof fn lemma_ends_at(p: Seq<u8>, s: Seq<u8>, i: int)
    requires
        ends_with(p, s),
        0 <= i < s.len(),
    ensures
        p[p.len() - s.len() + i] == s[i],
{
    assert(p.skip(p.len() - s.len())[i] == p[p.len() - s.len() + i]);
}

proof fn lemma_last_two(p: Seq<u8>, s: Seq<u8>)
    requires
        ends_with(p, s),
        s.len() >= 2,
    ensures
        p[p.len() - 1] == s[s.len() - 1],
        p[p.len() - 2] == s[s.len() - 2],
{
    lemma_ends_at(p, s, s.len() - 1);
    lemma_ends_at(p, s, s.len() - 2);
}

/// A file is decompressed by the tool of its extension: `.gz` and `.Z` by
/// `gzip`, `.bz2` by `bzip2`, `.xz` by `xz`, `.lzo` by `lzop` and `.lzma` by
/// `lzma`.
pub proof fn lemma_tool_of_extension(path: Seq<u8>)
    ensures
        ends_with(path, seq![46u8, 103, 122]) ==> tool_for(path) == Some("gzip"@),
        ends_with(path, seq![46u8, 90]) ==> tool_for(path) == Some("gzip"@),
        ends_with(path, seq![46u8, 98, 122, 50]) ==> tool_for(path) == Some("bzip2"@),
        ends_with(path, seq![46u8, 120, 122]) ==> tool_for(path) == Some("xz"@),
        ends_with(path, seq![46u8, 108, 122, 111]) ==> tool_for(path) == Some("lzop"@),
        ends_with(path, seq![46u8, 108, 122, 109, 97]) ==> tool_for(path) == Some("lzma"@),
{
    let exts = seq![
        seq![46u8, 103, 122],
        seq![46u8, 90],
        seq![46u8, 98, 122, 50],
        seq![46u8, 120, 122],
        seq![46u8, 108, 122, 111],
        seq![46u8, 108, 122, 109, 97],
    ];
    assert forall|k: int| 0 <= k < 6 implies #[trigger] (seq![46u8] + ext_bytes(k)) =~= exts[k] by {}
    assert forall|k: int, j: int| 0 <= k < 6 && 0 <= j < 6 && ends_with(path, exts[k]) && ends_with(path, exts[j])
        implies k == j by {
        lemma_last_two(path, exts[k]);
        lemma_last_two(path, exts[j]);
    }
    assert forall|k: int| 0 <= k < 6 && ends_with(path, exts[k]) implies first_ext(path, 0) == Some(k) by {
        assert(has_ext(path, k));
        assert forall|j: int| 0 <= j < k implies !has_ext(path, j) by {
            if has_ext(path, j) {
                assert(ends_with(path, exts[j]));
            }
        }
        assert(first_ext(path, 0) == first_ext(path, 1) || has_ext(path, 0));
        reveal_with_fuel(first_ext, 7);
    }
    reveal_strlit("gzip");
    reveal_strlit("bzip2");
    reveal_strlit("xz");
    reveal_strlit("lzop");
    reveal_strlit("lzma");
}

} // verus!
