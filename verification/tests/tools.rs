use moreutils::chronic::{self as chronic_lib, ExecFailure};
use moreutils::combine::{self as combine_lib, combine, counts, read_lines, render, Op};
use moreutils::ifne::{self as ifne_lib, IfneAction};
use moreutils::isutf8::{self as isutf8_lib, check, line_char, verbose_dump, Opts, Request};
use moreutils::lckdo::{self as lckdo_lib, parse_keep_fd, parse_wait_time, polling_step, LockStep};
use moreutils::mispipe;
use moreutils::parallel::{self as parallel_lib, batch_size, job_argv, max_running, OptionError, Plan};
use moreutils::pee as pee_lib;
use moreutils::sponge as sponge_lib;
use moreutils::vidir::{
    build_listing, classify_edit, dirname, is_dot_or_dotdot_path, parse_edit_line, split_editor,
    backup_candidate, editor_command, rename_step, EditStep, Items, RenameEvent, RenameState,
};
use moreutils::vipe as vipe_lib;
use moreutils::zrun::{self as zrun_lib, compressed_arg, decompressor, linked_program, Compression};

fn strings(v: &[&str]) -> Vec<String> {
    v.iter().map(|s| s.to_string()).collect()
}

fn bytes_lines(v: &[&str]) -> Vec<Vec<u8>> {
    v.iter().map(|s| s.as_bytes().to_vec()).collect()
}

#[test]
fn combine_operations() {
    let a = read_lines(b"x\ny\nz\nx\n");
    let b = read_lines(b"y\nw\nx");
    assert_eq!(a, bytes_lines(&["x", "y", "z", "x"]));
    assert_eq!(b, bytes_lines(&["y", "w", "x"]));
    assert_eq!(combine(Op::And, &a, &b), bytes_lines(&["x", "y", "x"]));
    assert_eq!(combine(Op::Not, &a, &b), bytes_lines(&["z"]));
    assert_eq!(combine(Op::Or, &a, &b), bytes_lines(&["x", "y", "z", "x", "y", "w", "x"]));
    assert_eq!(combine(Op::Xor, &a, &b), bytes_lines(&["z", "w"]));
    assert_eq!(render(&bytes_lines(&["a", ""])), b"a\n\n".to_vec());
    assert_eq!(read_lines(b""), Vec::<Vec<u8>>::new());
    assert_eq!(read_lines(b"\n\n"), bytes_lines(&["", ""]));
    let c = counts(&a);
    assert_eq!(c, vec![(b"x".to_vec(), 2), (b"y".to_vec(), 1), (b"z".to_vec(), 1)]);
}

#[test]
fn combine_lines_written_back() {
    for text in [&b""[..], b"\n", b"a\n", b"a\nb b\n\nc\n", b"x\r\n"] {
        assert_eq!(render(&read_lines(text)), text.to_vec());
    }
    assert_eq!(render(&read_lines(b"no newline")), b"no newline\n".to_vec());
}

#[test]
fn combine_arguments() {
    let ok = combine_lib::parse_args(&strings(&["f1", "AND", "f2", "_"])).unwrap();
    assert_eq!((ok.file1.as_str(), ok.op, ok.op_name.as_str(), ok.file2.as_str()), ("f1", Some(Op::And), "and", "f2"));
    let unknown = combine_lib::parse_args(&strings(&["f1", "nand", "f2"])).unwrap();
    assert_eq!(unknown.op, None);
    assert_eq!(combine_lib::unknown_operation_msg("nand"), "unknown operation, nand");
    assert_eq!(combine_lib::parse_args(&strings(&["f1", "or"])).err().unwrap(), "Usage: combine file1 OP file2");
    assert!(combine_lib::parse_args(&strings(&["a", "or", "b", "c"])).is_err());
}

#[test]
fn isutf8_reports() {
    let o = Opts { quiet: false, list: false, invert: false, verbose: false };
    assert_eq!(check("f", b"ok\n", o), (true, String::new()));
    assert_eq!(
        check("f", b"ab\ncd\xffx", o),
        (false, "f: line 2, char 3, byte 5: invalid UTF-8\n".to_string())
    );
    assert_eq!(line_char("h\u{e9}\n\u{e9}\u{e9}x".as_bytes(), 8), (2, 3, 8));
    assert_eq!(line_char("h\u{e9}\n\u{e9}\u{e9}x".as_bytes(), 7), (2, 4, 7));
    let list = Opts { list: true, ..o };
    assert_eq!(check("f", b"\xff", list), (false, "f\n".to_string()));
    let inv = Opts { invert: true, list: true, ..o };
    assert_eq!(check("g", b"fine", inv), (true, "g\n".to_string()));
    assert_eq!(check("g", b"\xc3", inv), (false, String::new()));
    let quiet = Opts { quiet: true, ..o };
    assert_eq!(check("g", b"\xc3", quiet), (false, String::new()));
    assert_eq!(
        verbose_dump(b"ab\xffc", 2),
        "61 62 FF 63                                      | ab.c\n      ^^     |   ^ \n"
    );
    match isutf8_lib::parse_args(&strings(&["-qv", "a", "--list", "b"])) {
        Request::Check(o, files) => {
            assert!(o.quiet && o.verbose && o.list && !o.invert);
            assert_eq!(files, strings(&["a", "b"]));
        }
        _ => panic!("not a check"),
    }
    assert!(matches!(isutf8_lib::parse_args(&strings(&["-qh"])), Request::Help));
    assert!(matches!(isutf8_lib::parse_args(&strings(&["-x", "-h"])), Request::Invalid));
    assert!(matches!(isutf8_lib::parse_args(&strings(&["--help", "-x"])), Request::Help));
    assert_eq!(
        isutf8_lib::help_text(),
        "Usage: isutf8 [-hqliv] [--help] [--quiet] [--list] [--invert] [--verbose] [file ...]\n"
    );
}

#[test]
fn lckdo_numbers_and_options() {
    assert_eq!(parse_wait_time("10abc"), Ok(10));
    assert_eq!(parse_wait_time("0").unwrap_err(), "lckdo: invalid wait time `0'");
    assert!(parse_wait_time("x").is_err());
    assert!(parse_wait_time("9223372036854775808").is_err());
    assert_eq!(parse_wait_time("9223372036854775807"), Ok(9223372036854775807));
    assert_eq!(parse_keep_fd("5"), Ok(5));
    assert_eq!(parse_keep_fd(""), Ok(0));
    assert_eq!(parse_keep_fd("2").unwrap_err(), "lckdo: invalid fd# `2'");
    assert!(parse_keep_fd("-1").is_err());
    assert!(parse_keep_fd("2147483648").is_err());
    let (c, rest) = lckdo_lib::parse_args(&strings(&["-qW5", "-s", "lock", "prog", "-x"])).unwrap();
    assert!(c.quiet && c.wait && c.shared && !c.test_only);
    assert_eq!(c.timeout, Some(5));
    assert_eq!(rest, strings(&["lock", "prog", "-x"]));
    let (t, rest) = lckdo_lib::parse_args(&strings(&["-t", "-E", "7", "--", "-lock"])).unwrap();
    assert!(t.test_only && t.no_create && t.exec_direct);
    assert_eq!(t.keep_fd, Some(7));
    assert_eq!(rest, strings(&["-lock"]));
    assert_eq!(
        lckdo_lib::parse_args(&strings(&["-W"])).unwrap_err(),
        "lckdo: option requires an argument -- 'W'"
    );
    assert_eq!(lckdo_lib::parse_args(&strings(&["-z"])).unwrap_err(), "lckdo: invalid option -- 'z'");
    assert!(lckdo_lib::too_few_operands(false, 1));
    assert!(!lckdo_lib::too_few_operands(true, 1));
}

#[test]
fn lckdo_numbers_read_back() {
    for n in [1u64, 7, 30, 86400, 9223372036854775807] {
        assert_eq!(parse_wait_time(&n.to_string()), Ok(n));
    }
    for fd in [0i32, 1, 3, 9, 255, 2147483647] {
        assert_eq!(parse_keep_fd(&fd.to_string()), Ok(fd));
    }
}

#[test]
fn lckdo_lock_steps() {
    let base = lckdo_lib::parse_args(&strings(&["lock", "prog"])).unwrap().0;
    assert_eq!(polling_step(base, None, 0), LockStep::Locked);
    assert_eq!(polling_step(base, Some(Some(11)), 0), LockStep::AlreadyLocked { timed_out: false });
    assert_eq!(polling_step(base, Some(Some(9)), 0), LockStep::Failed);
    let timed = lckdo_lib::parse_args(&strings(&["-W", "3", "lock", "prog"])).unwrap().0;
    assert_eq!(polling_step(timed, Some(Some(13)), 2), LockStep::Retry);
    assert_eq!(polling_step(timed, Some(Some(13)), 3), LockStep::AlreadyLocked { timed_out: true });
    assert_eq!(lckdo_lib::blocking_step(Some(Some(4))), LockStep::Retry);
    assert_eq!(
        lckdo_lib::already_locked_msg("f", true),
        "lckdo: lock file `f' is already locked (timeout waiting)"
    );
    assert_eq!(
        lckdo_lib::test_report("f", false, Some(42)),
        (Some("lockfile `f' is locked by process 42".to_string()), 75)
    );
    assert_eq!(lckdo_lib::test_report("f", true, None), (None, 0));
    assert_eq!(lckdo_lib::signal_description(9, None), "signal 9");
    assert_eq!(lckdo_lib::program_outcome("p", Some(9), "Killed", None), (Some("lckdo: p: Killed".to_string()), 70));
    assert_eq!(lckdo_lib::program_outcome("p", None, "", Some(3)), (None, 3));
    assert!(lckdo_lib::usage_text().starts_with("lckdo: execute a program with a lock set.\n"));
}

#[test]
fn vidir_listing_and_edits() {
    let paths = strings(&["./a", ".", "dir/..", "b c", "x/"]);
    let (items, text) = build_listing(&paths);
    assert_eq!(text, "0001\t./a\n0002\tb c\n0003\tx/\n");
    assert_eq!(items.get(2), Some("b c".to_string()));
    assert_eq!(items.get(4), None);
    assert_eq!(parse_edit_line("0002\tnew name"), Some((2, "new name".to_string())));
    assert_eq!(parse_edit_line("7"), Some((7, String::new())));
    assert_eq!(parse_edit_line("x1\ta"), None);
    assert_eq!(parse_edit_line("99999999999999999999999\ta"), None);
    assert!(matches!(classify_edit("vidir", "   ", &items), EditStep::Skip));
    assert!(matches!(classify_edit("vidir", "0001\t./a\r", &items), EditStep::Keep(1)));
    match classify_edit("vidir", "0002\tc d", &items) {
        EditStep::Rename { number, src, name } => {
            assert_eq!((number, src.as_str(), name.as_str()), (2, "b c", "c d"));
        }
        _ => panic!("not a rename"),
    }
    match classify_edit("vidir", "bad line", &items) {
        EditStep::Fatal(m) => assert_eq!(m, "vidir: unable to parse line \"bad line\", aborting"),
        _ => panic!("not fatal"),
    }
    match classify_edit("vidir", "9\tz", &items) {
        EditStep::Fatal(m) => assert_eq!(m, "vidir: unknown item number 9"),
        _ => panic!("not fatal"),
    }
    assert!(matches!(classify_edit("vidir", "3", &items), EditStep::Skip));
}

#[test]
fn vidir_unedited_listing_keeps_every_item() {
    let paths = strings(&["./a", "b c", "x/", "deep/er/path"]);
    let (items, text) = build_listing(&paths);
    for (k, line) in text.lines().enumerate() {
        assert!(matches!(classify_edit("vidir", line, &items), EditStep::Keep(n) if n == k + 1));
    }
}

#[test]
fn vidir_rename_steps() {
    let paths = strings(&["./a", "b c", "b c/x"]);
    let (mut items, _) = build_listing(&paths);
    let mut state = RenameState::Start;
    let mut event = RenameEvent::Begin;
    let answers = [
        RenameEvent::Exists(true),
        RenameEvent::Exists(true),
        RenameEvent::Exists(false),
        RenameEvent::Outcome(None),
        RenameEvent::Exists(true),
        RenameEvent::Outcome(None),
        RenameEvent::Exists(true),
    ];
    let mut actions = Vec::new();
    let mut outs = Vec::new();
    for answer in answers {
        let step = rename_step("vidir", true, 2, "b c", "c d", state, event, &mut items);
        actions.push(format!("{:?}", step.action));
        if let Some(o) = step.out {
            outs.push(o);
        }
        assert!(!step.failed);
        state = step.state;
        event = answer;
    }
    let last = rename_step("vidir", true, 2, "b c", "c d", state, event, &mut items);
    assert_eq!(last.state, RenameState::Done);
    if let Some(o) = last.out {
        outs.push(o);
    }
    assert_eq!(
        actions,
        vec![
            "AskExists(\"b c\")",
            "AskExists(\"c d\")",
            "AskExists(\"c d~\")",
            "Rename { from: \"c d\", to: \"c d~\" }",
            "AskDir(\".\")",
            "Rename { from: \"b c\", to: \"c d\" }",
            "AskDir(\"c d\")",
        ]
    );
    assert_eq!(outs, strings(&["'c d' -> 'c d~'", "'b c' => 'c d'"]));
    assert_eq!(items.get(2), None);
    assert_eq!(items.get(3), Some("c d/x".to_string()));
    let mut items2 = build_listing(&paths).0;
    let gone = rename_step("vidir", false, 1, "./a", "z", RenameState::AskedSource, RenameEvent::Exists(false), &mut items2);
    assert_eq!(gone.err.as_deref(), Some("vidir: ./a does not exist"));
    assert_eq!(items2.get(1), None);
    let failed = rename_step(
        "vidir",
        false,
        1,
        "./a",
        "z",
        RenameState::Moved,
        RenameEvent::Outcome(Some("Permission denied".to_string())),
        &mut items2,
    );
    assert_eq!(failed.err.as_deref(), Some("vidir: failed to rename ./a to z: Permission denied"));
    assert!(failed.failed);
}

#[test]
fn vidir_items_bookkeeping() {
    let (mut items, _) = build_listing(&strings(&["d", "d/x", "d/y/z", "dd/q", "e"]));
    items.update_directory_children("d", "n");
    assert_eq!(items.get(1), Some("n".to_string()));
    assert_eq!(items.get(2), Some("n/x".to_string()));
    assert_eq!(items.get(3), Some("n/y/z".to_string()));
    assert_eq!(items.get(4), Some("dd/q".to_string()));
    items.replace_value("e", "e~");
    assert_eq!(items.get(5), Some("e~".to_string()));
    items.remove(2);
    assert_eq!(items.get(2), None);
    assert_eq!(items.len(), 4);
    assert_eq!(items.removal_order(), strings(&["n/y/z", "n", "e~", "dd/q"]));
    let mut empty = Items::new();
    empty.push(3, "p".to_string());
    assert_eq!(empty.get(3), Some("p".to_string()));
    assert_eq!(backup_candidate("f", 0), "f~");
    assert_eq!(backup_candidate("f", 12), "f~12");
}

#[test]
fn vidir_paths_and_editor() {
    assert!(is_dot_or_dotdot_path("."));
    assert!(is_dot_or_dotdot_path("a/..//"));
    assert!(!is_dot_or_dotdot_path("a/.b"));
    assert_eq!(dirname("a/b/c"), "a/b");
    assert_eq!(dirname("c"), ".");
    assert_eq!(dirname("/c"), "/");
    assert_eq!(dirname("/"), ".");
    assert_eq!(split_editor(" vim  -f "), strings(&["vim", "-f"]));
    assert_eq!(editor_command(false, None, None), strings(&["vi"]));
    assert_eq!(editor_command(true, None, None), strings(&["/usr/bin/editor"]));
    assert_eq!(editor_command(true, Some("nano -w"), None), strings(&["nano", "-w"]));
    assert_eq!(editor_command(true, Some("nano"), Some("  ")), strings(&[""]));
    let a = moreutils::vidir::parse_args(&strings(&["-v", "x"]), "vidir").unwrap();
    assert!(a.verbose);
    assert_eq!(a.paths, strings(&["x"]));
    let d = moreutils::vidir::parse_args(&strings(&[]), "vidir").unwrap();
    assert_eq!(d.paths, strings(&["."]));
    assert_eq!(
        moreutils::vidir::parse_args(&strings(&["--what"]), "vidir").err().unwrap(),
        "Unknown option: what\nUsage: vidir [--verbose] [directory|file|-]\n"
    );
    assert_eq!(
        moreutils::vidir::directory_paths("d//", &strings(&["b", "a"])),
        strings(&["d/a", "d/b"])
    );
    assert!(moreutils::vidir::has_control_chars(&strings(&["ok", "t\tab"])));
    assert!(!moreutils::vidir::has_control_chars(&strings(&["ok"])));
}

#[test]
fn zrun_compressed_arguments() {
    assert_eq!(compressed_arg(b"dir/file.txt.gz"), Some((Compression::Gz, b"-file.txt".to_vec())));
    assert_eq!(compressed_arg(b"a.Z"), Some((Compression::Z, b"-a".to_vec())));
    assert_eq!(compressed_arg(b"/x/y.lzma"), Some((Compression::Lzma, b"-y".to_vec())));
    assert_eq!(compressed_arg(b"plain.txt"), None);
    assert_eq!(compressed_arg(b"gz"), None);
    assert_eq!(decompressor(Compression::Bz2), ("bzip2", "-d", "-c"));
    assert_eq!(decompressor(Compression::Z), ("gzip", "-d", "-c"));
    assert_eq!(linked_program("/usr/bin/zcat"), Some("cat".to_string()));
    assert_eq!(linked_program("zrun"), None);
    assert_eq!(linked_program("z"), None);
    assert_eq!(linked_program("cat"), None);
    assert_eq!(zrun_lib::usage_message(Some("cat")), "Usage: zcat <args>\nEquivalent to: zrun cat <args>");
    assert_eq!(zrun_lib::perl_exec_error(Some(13)), ("Permission denied", 13));
    assert_eq!(zrun_lib::perl_exec_error(Some(8)), ("No such file or directory", 2));
    assert_eq!(
        zrun_lib::preprocessing_failed_msg("f.gz", Some(1)),
        "zrun: preprocessing for f.gz terminated with code 1"
    );
    assert_eq!(zrun_lib::final_status(None, true), 25);
    assert_eq!(zrun_lib::final_status(Some(4), true), 4);
}

#[test]
fn parallel_options_and_jobs() {
    let (o, i) = parallel_lib::parse_options(&strings(&["-j2", "-n", "3", "cmd", "--", "a"]), "parallel").ok().unwrap();
    assert_eq!((o.maxjobs, o.nargs, o.replace, i), (2, 3, false, 3));
    let (o, _) = parallel_lib::parse_options(&strings(&["-il", "1.5"]), "parallel").ok().unwrap();
    assert!(o.replace);
    assert_eq!(o.maxload.as_deref(), Some("1.5"));
    match parallel_lib::parse_options(&strings(&["-n0"]), "parallel") {
        Err(OptionError::Fatal(m)) => assert_eq!(m, "option '0' is not a positive number"),
        _ => panic!(),
    }
    match parallel_lib::parse_options(&strings(&["-jx"]), "parallel") {
        Err(OptionError::Fatal(m)) => assert_eq!(m, "option 'x' is not a number"),
        _ => panic!(),
    }
    match parallel_lib::parse_options(&strings(&["-q"]), "parallel") {
        Err(OptionError::WithUsage(m)) => assert_eq!(m, "parallel: invalid option -- 'q'"),
        _ => panic!(),
    }
    match parallel_lib::parse_options(&strings(&["-j"]), "parallel") {
        Err(OptionError::WithUsage(m)) => assert_eq!(m, "parallel: option requires an argument -- 'j'"),
        _ => panic!(),
    }
    assert!(matches!(parallel_lib::parse_options(&strings(&["-h"]), "parallel"), Err(OptionError::Help)));
    assert_eq!(job_argv(&strings(&["echo", "<{}>{}"]), &strings(&["x", "y"]), true), strings(&["echo", "<x>x"]));
    assert_eq!(job_argv(&strings(&["echo"]), &strings(&["x", "y"]), false), strings(&["echo", "x", "y"]));
    assert_eq!(batch_size(false, 5, 9), 1);
    assert_eq!(batch_size(true, 5, 3), 3);
    assert_eq!(max_running(0), Some(1));
    assert_eq!(max_running(-1), None);
    assert_eq!(parallel_lib::job_status(None), 1);
    match parallel_lib::plan(false, 1, &strings(&["echo", "--", "a", "b"])) {
        Plan::Run { command, arguments } => {
            assert_eq!(command, strings(&["echo"]));
            assert_eq!(arguments, strings(&["a", "b"]));
        }
        _ => panic!(),
    }
    assert!(matches!(parallel_lib::plan(false, 1, &strings(&["echo"])), Plan::Nothing));
    assert!(matches!(parallel_lib::plan(true, 2, &strings(&["--"])), Plan::Fatal(_)));
    match parallel_lib::plan(false, 2, &strings(&["--", "a"])) {
        Plan::Fatal(m) => assert_eq!(m, "option -n cannot be used without a command"),
        _ => panic!(),
    }
}

#[test]
fn chronic_decisions() {
    let a = chronic_lib::parse_args(&strings(&["-ve-", "-x", "cmd", "-v"]));
    assert!(a.verbose && a.stderr_trigger);
    assert_eq!(a.warnings, strings(&["Unknown option: x"]));
    assert_eq!(a.command, strings(&["cmd", "-v"]));
    let b = chronic_lib::parse_args(&strings(&["--", "-v"]));
    assert!(!b.verbose);
    assert_eq!(b.command, strings(&["-v"]));
    assert!(!chronic_lib::should_show(Some(0), 0, true));
    assert!(chronic_lib::should_show(Some(0), 3, true));
    assert!(chronic_lib::should_show(None, 0, false));
    assert_eq!(chronic_lib::exit_status(Some(0), 3, true), 2);
    assert_eq!(chronic_lib::exit_status(None, 0, false), 1);
    assert_eq!(chronic_lib::exit_status(Some(5), 0, false), 5);
    assert_eq!(
        chronic_lib::exec_error("nope", ExecFailure::NotFound, "/bin:/usr/bin", ""),
        ("Command 'nope' not found in /bin, /usr/bin at /bin/chronic line 69.".to_string(), 2)
    );
    assert_eq!(
        chronic_lib::exec_error("./x", ExecFailure::PermissionDenied, "", ""),
        ("permission denied: ./x at /bin/chronic line 69.".to_string(), 255)
    );
    assert_eq!(
        chronic_lib::missing_path_msg("ls", None),
        Some("Command 'ls' not found in  at /bin/chronic line 69.".to_string())
    );
    assert_eq!(chronic_lib::missing_path_msg("./ls", None), None);
}

#[test]
fn chronic_silent_exactly_when_successful() {
    for code in [Some(0), Some(1), Some(2), Some(255), None] {
        for len in [0usize, 1, 10] {
            for trigger in [false, true] {
                assert_eq!(
                    chronic_lib::should_show(code, len, trigger),
                    chronic_lib::exit_status(code, len, trigger) != 0
                );
            }
        }
    }
}

#[test]
fn small_tools() {
    assert_eq!(ifne_lib::parse_args(&strings(&["-n"])), None);
    assert_eq!(ifne_lib::parse_args(&strings(&["-n", "cat"])), Some((true, strings(&["cat"]))));
    assert_eq!(ifne_lib::decide(true, false), IfneAction::Nothing);
    assert_eq!(ifne_lib::decide(false, true), IfneAction::PassThrough);
    assert_eq!(ifne_lib::decide(true, true), IfneAction::Run);
    assert_eq!(ifne_lib::child_exit(None, Some(13)), None);
    let p = pee_lib::parse_args(&strings(&["--no-ignore-sigpipe", "cat", "--ignore-write-errors"]));
    assert!(!p.ignore_sigpipe && p.ignore_write_errors);
    assert_eq!(p.commands, strings(&["cat", "--ignore-write-errors"]));
    assert_eq!(pee_lib::on_write_failure(true, 2, 2), (false, true));
    assert_eq!(pee_lib::on_write_failure(true, 1, 2), (false, false));
    let s = sponge_lib::parse_args(&strings(&["-az", "out", "more"]), "sponge");
    assert!(s.append && !s.help);
    assert_eq!(s.warnings, strings(&["sponge: invalid option -- 'z'"]));
    assert_eq!(s.file.as_deref(), Some("out"));
    let h = sponge_lib::parse_args(&strings(&["-xh", "out"]), "sponge");
    assert!(h.help);
    assert_eq!(h.warnings.len(), 1);
    assert_eq!(sponge_lib::new_file_mode(0o022), 0o644);
    assert_eq!(sponge_lib::output_mode(Some(0o600), 0o022), 0o600);
    assert_eq!(sponge_lib::output_bytes(Some(b"old".to_vec()), b"new"), b"oldnew".to_vec());
    assert!(sponge_lib::atomic_candidate(None));
    assert!(!sponge_lib::atomic_candidate(Some((true, true))));
    assert_eq!(mispipe::check_args(2, "mispipe"), Some("mispipe: Wrong number of args, aborting".to_string()));
    assert_eq!(mispipe::check_args(3, "mispipe"), None);
    assert_eq!(vipe_lib::parse_suffix(&strings(&["--suf=txt"]), "vipe"), Ok(".txt".to_string()));
    assert_eq!(vipe_lib::parse_suffix(&strings(&["-s", ".md", "x"]), "vipe"), Ok(".md".to_string()));
    assert_eq!(vipe_lib::parse_suffix(&strings(&["--", "--bad"]), "vipe"), Ok(String::new()));
    assert_eq!(
        vipe_lib::parse_suffix(&strings(&["--bad"]), "vipe"),
        Err("Unknown option: bad\nUsage: vipe [--suffix=extension]".to_string())
    );
    assert_eq!(
        vipe_lib::parse_suffix(&strings(&["--suffix"]), "vipe"),
        Err("Option suffix requires an argument\nUsage: vipe [--suffix=extension]".to_string())
    );
    assert_eq!(vipe_lib::editor_command(false, Some(" ed  -s"), None), strings(&["ed", "-s"]));
    assert!(vipe_lib::is_executable(true, 0o755));
}
