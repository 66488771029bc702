//! `vipe`: its one option, and the editor it runs.
use vstd::prelude::*;
use crate::text::{
    after_first, before_first, chars_of, fields, lower_chars, lower_seq, split_fields, split_once,
    starts_with, has_prefix, string_from_chars, string_views, views_of, Sep,
};
use crate::vidir::{trim_dashes, trim_dashes_exec};

verus! {

broadcast use vstd::seq::group_seq_axioms;

pub open spec fn usage_line(argv0: Seq<char>) -> Seq<char> {
    "Usage: "@ + argv0 + " [--suffix=extension]"@
}

/// The error for an option other than `--suffix` (or a prefix of it).
pub open spec fn unknown_option_spec(argv0: Seq<char>, name: Seq<char>) -> Seq<char> {
    "Unknown option: "@ + name + seq!['\n'] + usage_line(argv0)
}

/// The error for `--suffix` without its value.
pub open spec fn missing_suffix_spec(argv0: Seq<char>) -> Seq<char> {
    "Option suffix requires an argument"@ + seq!['\n'] + usage_line(argv0)
}

/// The suffix the arguments give from argument `i` on (the last one given
/// wins; other arguments are ignored), or the message of a usage error
/// (exit status 255).
pub open spec fn suffix_scan(args: Seq<Seq<char>>, i: int, options: bool, suffix: Seq<char>, argv0: Seq<char>) -> Result<Seq<char>, Seq<char>>
    decreases args.len() - i,
{
    if i >= args.len() || i < 0 {
        Ok(suffix)
    } else {
        let a = args[i];
        if options && a == "--"@ {
            suffix_scan(args, i + 1, false, suffix, argv0)
        } else if options && a.len() > 1 && a[0] == '-' {
            let t = trim_dashes(a);
            let name = before_first(t, '=');
            let lower = lower_seq(name);
            if lower.len() == 0 || !starts_with("suffix"@, lower) {
                Err(unknown_option_spec(argv0, name))
            } else if t.contains('=') {
                suffix_scan(args, i + 1, options, after_first(t, '='), argv0)
            } else if i + 1 >= args.len() {
                Err(missing_suffix_spec(argv0))
            } else {
                suffix_scan(args, i + 2, options, args[i + 1], argv0)
            }
        } else {
            suffix_scan(args, i + 1, options, suffix, argv0)
        }
    }
}

/// The suffix given, with a dot in front unless it is empty or has one.
pub open spec fn dotted(s: Seq<char>) -> Seq<char> {
    if s.len() > 0 && s[0] != '.' {
        seq!['.'] + s
    } else {
        s
    }
}

fn append(out: &mut Vec<char>, s: &[char])
    ensures
        final(out)@ == old(out)@ + s@,
{
    let mut i: usize = 0;
    let ghost start = out@;
    while i < s.len()
        invariant
            i <= s@.len(),
            out@ == start + s@.take(i as int),
        decreases s@.len() - i,
    {
        out.push(s[i]);
        i += 1;
        assert(s@.take(i as int) =~= s@.take(i - 1).push(s@[i - 1]));
    }
    assert(s@.take(s@.len() as int) =~= s@);
}

fn with_usage(head: &[char], argv0: &str) -> (r: String)
    ensures
        r@ == head@ + seq!['\n'] + usage_line(argv0@),
{
    let mut out: Vec<char> = Vec::new();
    append(&mut out, head);
    out.push('\n');
    let u = chars_of("Usage: ");
    append(&mut out, u.as_slice());
    let a = chars_of(argv0);
    append(&mut out, a.as_slice());
    let t = chars_of(" [--suffix=extension]");
    append(&mut out, t.as_slice());
    assert(out@ =~= head@ + seq!['\n'] + usage_line(argv0@));
    string_from_chars(out.as_slice())
}

/// The suffix of the temporary file, from the arguments (without the
/// program name); `argv0` is the name the program was called by.
pub fn parse_suffix(args: &[String], argv0: &str) -> (r: Result<String, String>)
    ensures
        match r {
            Ok(s) => suffix_scan(string_views(args@), 0, true, seq![], argv0@) matches Ok(v) && s@ == dotted(v),
            Err(m) => suffix_scan(string_views(args@), 0, true, seq![], argv0@) == Err::<Seq<char>, Seq<char>>(m@),
        },
{
    let ghost av = string_views(args@);
    let mut suffix: Vec<char> = Vec::new();
    let mut options = true;
    let mut i: usize = 0;
    while i < args.len()
        invariant
            i <= args@.len(),
            av == string_views(args@),
            suffix_scan(av, 0, true, seq![], argv0@) == suffix_scan(av, i as int, options, suffix@, argv0@),
        decreases args@.len() - i,
    {
        let a = chars_of(args[i].as_str());
        assert(a@ == av[i as int]);
        let dd = chars_of("--");
        if options && crate::text::same_chars(a.as_slice(), dd.as_slice()) {
            options = false;
            i += 1;
        } else if options && a.len() > 1 && a[0] == '-' {
            let t = trim_dashes_exec(a.as_slice());
            let (name, inline) = match split_once(t.as_slice(), '=') {
                Some((n, v)) => (n, Some(v)),
                None => {
                    proof {
                        crate::text::lemma_before_first_absent(t@, '=');
                    }
                    (t.clone(), None)
                },
            };
            assert(name@ == before_first(t@, '='));
            let lower = lower_chars(name.as_slice());
            let sfx = chars_of("suffix");
            if lower.len() == 0 || !has_prefix(sfx.as_slice(), lower.as_slice()) {
                let mut head = chars_of("Unknown option: ");
                append(&mut head, name.as_slice());
                return Err(with_usage(head.as_slice(), argv0));
            }
            match inline {
                Some(v) => {
                    suffix = v;
                    i += 1;
                },
                None => {
                    if i + 1 >= args.len() {
                        let head = chars_of("Option suffix requires an argument");
                        return Err(with_usage(head.as_slice(), argv0));
                    }
                    suffix = chars_of(args[i + 1].as_str());
                    assert(suffix@ == av[i + 1]);
                    i += 2;
                },
            }
        } else {
            i += 1;
        }
    }
    if suffix.len() > 0 && suffix[0] != '.' {
        let mut d: Vec<char> = Vec::new();
        d.push('.');
        append(&mut d, suffix.as_slice());
        assert(d@ =~= dotted(suffix@));
        Ok(string_from_chars(d.as_slice()))
    } else {
        Ok(string_from_chars(suffix.as_slice()))
    }
}

/// The words of an editor setting (`split_whitespace`).
pub fn split_editor(value: &str) -> (r: Vec<String>)
    ensures
        string_views(r@) == fields(value@, Sep::Whitespace),
{
    let c = chars_of(value);
    let parts = split_fields(c.as_slice(), Sep::Whitespace);
    let mut r: Vec<String> = Vec::new();
    let mut i: usize = 0;
    while i < parts.len()
        invariant
            i <= parts@.len(),
            string_views(r@) == views_of(parts@).take(i as int),
        decreases parts@.len() - i,
    {
        let ghost before = string_views(r@);
        let piece = string_from_chars(parts[i].as_slice());
        r.push(piece);
        assert(string_views(r@) =~= before.push(parts@[i as int]@));
        i += 1;
        assert(views_of(parts@).take(i as int) =~= views_of(parts@).take(i - 1).push(parts@[i - 1]@));
    }
    assert(views_of(parts@).take(parts@.len() as int) =~= views_of(parts@));
    r
}

/// `/usr/bin/editor` counts when it is a regular file with an execute bit.
pub fn is_executable(is_file: bool, mode: u32) -> (r: bool)
    ensures
        r == (is_file && mode & 0o111u32 != 0),
{
    is_file && mode & 0o111 != 0
}

/// The editor command: `vi`, or `/usr/bin/editor` when it is executable,
/// overridden by `EDITOR`, then by `VISUAL` (split at whitespace; possibly
/// empty).
pub open spec fn editor_spec(system_editor: bool, editor: Option<Seq<char>>, visual: Option<Seq<char>>) -> Seq<Seq<char>> {
    let base = if system_editor { seq!["/usr/bin/editor"@] } else { seq!["vi"@] };
    let e = match editor {
        Some(v) => fields(v, Sep::Whitespace),
        None => base,
    };
    match visual {
        Some(v) => fields(v, Sep::Whitespace),
        None => e,
    }
}

pub fn editor_command(system_editor: bool, editor: Option<&str>, visual: Option<&str>) -> (r: Vec<String>)
    ensures
        string_views(r@) == editor_spec(
            system_editor,
            match editor { Some(e) => Some(e@), None => None },
            match visual { Some(v) => Some(v@), None => None },
        ),
{
    let mut cmd: Vec<String> = Vec::new();
    if system_editor {
        cmd.push(String::from_str("/usr/bin/editor"));
    } else {
        cmd.push(String::from_str("vi"));
    }
    assert(string_views(cmd@) =~= (if system_editor { seq!["/usr/bin/editor"@] } else { seq!["vi"@] }));
    match editor {
        Some(e) => {
            cmd = split_editor(e);
        },
        None => {},
    }
    match visual {
        Some(v) => {
            cmd = split_editor(v);
        },
        None => {},
    }
    cmd
}

} // verus!
