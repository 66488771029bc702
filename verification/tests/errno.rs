use moreutils::errno::{
    description_matches, format_entry, lookup, lowercase_words, not_understood_msg, parse_args,
    search_flags, table, usage_text, Action, Lookup,
};

fn strings(v: &[&str]) -> Vec<String> {
    v.iter().map(|s| s.to_string()).collect()
}

fn parsed(args: &[&str]) -> (Option<Action>, Vec<String>, Vec<String>) {
    let p = parse_args(&strings(args));
    (p.action, p.operands, p.diagnostics)
}

fn found(arg: &str) -> Option<(&'static str, i32)> {
    match lookup(arg) {
        Lookup::Found(i) => Some(table()[i]),
        _ => None,
    }
}

#[test]
fn cli_parsing_and_options_match() {
    let inv = |c: char| format!("/bin/errno: invalid option -- '{c}'");
    let cases: Vec<(&[&str], Option<Action>, Vec<String>, Vec<String>)> = vec![
        (&[], None, vec![], vec![]),
        (&["-h"], Some(Action::Help), vec![], vec![]),
        (&["--help"], Some(Action::Help), vec![], vec![]),
        (&["-x"], None, vec![], vec![inv('x')]),
        (&["--bad"], None, vec![], vec!["/bin/errno: unrecognized option '--bad'".to_string()]),
        (&["-x", "ENOENT"], None, strings(&["ENOENT"]), vec![inv('x')]),
        (&["--bad", "ENOENT"], None, strings(&["ENOENT"]), vec!["/bin/errno: unrecognized option '--bad'".to_string()]),
        (&["-2"], None, vec![], vec![inv('2')]),
        (&["--", "-2"], None, strings(&["-2"]), vec![]),
        (&["ENOENT", "-l"], Some(Action::List), strings(&["ENOENT"]), vec![]),
        (&["-l", "ENOENT"], Some(Action::List), strings(&["ENOENT"]), vec![]),
        (&["-ls", "no"], Some(Action::Search), strings(&["no"]), vec![]),
        (&["-sl", "no"], Some(Action::List), strings(&["no"]), vec![]),
        (&["-sno"], Some(Action::Search), vec![], vec![inv('n'), inv('o')]),
        (&["-s", "no", "-l"], Some(Action::List), strings(&["no"]), vec![]),
        (&["-l", "-s", "no"], Some(Action::Search), strings(&["no"]), vec![]),
        (&["--search=no"], None, vec![], vec!["/bin/errno: option '--search' doesn't allow an argument".to_string()]),
        (&["--list=foo"], None, vec![], vec!["/bin/errno: option '--list' doesn't allow an argument".to_string()]),
    ];
    for (args, action, operands, diagnostics) in cases {
        assert_eq!(parsed(args), (action, operands, diagnostics), "{args:?}");
    }
    assert_eq!(
        usage_text(),
        "Usage: errno [-lsS] [--list] [--search] [--search-all-locales] [keyword]\n"
    );
}

#[test]
fn lookup_by_name_matches() {
    assert_eq!(found("ENOENT"), Some(("ENOENT", 2)));
    assert_eq!(found("EACCES"), Some(("EACCES", 13)));
    assert_eq!(found("EPERM"), Some(("EPERM", 1)));
    assert_eq!(found("EINVAL"), Some(("EINVAL", 22)));
    assert_eq!(found("EPIPE"), Some(("EPIPE", 32)));
    assert_eq!(found("EHWPOISON"), Some(("EHWPOISON", 133)));
    assert_eq!(found("ERFKILL"), Some(("ERFKILL", 132)));
    assert_eq!(found("ENOKEY"), Some(("ENOKEY", 126)));
    assert_eq!(found("EOWNERDEAD"), Some(("EOWNERDEAD", 130)));
    assert_eq!(found("EWOULDBLOCK"), Some(("EWOULDBLOCK", 11)));
    assert_eq!(found("EDEADLOCK"), Some(("EDEADLOCK", 35)));
    assert_eq!(found("ENOTSUP"), Some(("ENOTSUP", 95)));
    assert_eq!(found("enoent"), Some(("ENOENT", 2)));
    assert_eq!(found("EnOeNt"), Some(("ENOENT", 2)));
    assert_eq!(lookup("EFOO"), Lookup::Unknown);
    assert_eq!(lookup("efoo"), Lookup::Unknown);
    assert_eq!(lookup("foo"), Lookup::NotUnderstood);
    assert_eq!(not_understood_msg("foo"), "ERROR: Not understood: foo");
    assert_eq!(lookup("EINVALx"), Lookup::Unknown);
    assert_eq!(lookup("noent"), Lookup::NotUnderstood);
    assert_eq!(lookup("+ENOENT"), Lookup::NotUnderstood);
    assert_eq!(lookup(""), Lookup::NotUnderstood);
    assert_eq!(not_understood_msg(""), "ERROR: Not understood: ");
    let mixed: Vec<Lookup> = ["ENOENT", "foo", "EACCES", "EFOO"].iter().map(|a| lookup(a)).collect();
    assert!(matches!(mixed[0], Lookup::Found(_)));
    assert_eq!(mixed[1], Lookup::NotUnderstood);
    assert!(matches!(mixed[2], Lookup::Found(_)));
    assert_eq!(mixed[3], Lookup::Unknown);
    assert_eq!(
        format_entry("ENOENT", 2, b"No such file or directory"),
        b"ENOENT 2 No such file or directory\n".to_vec()
    );
}

#[test]
fn lookup_by_number_matches() {
    assert_eq!(found("1"), Some(("EPERM", 1)));
    assert_eq!(found("2"), Some(("ENOENT", 2)));
    assert_eq!(found("13"), Some(("EACCES", 13)));
    assert_eq!(found("22"), Some(("EINVAL", 22)));
    assert_eq!(found("32"), Some(("EPIPE", 32)));
    assert_eq!(found("11"), Some(("EAGAIN", 11)));
    assert_eq!(found("35"), Some(("EDEADLK", 35)));
    assert_eq!(found("95"), Some(("EOPNOTSUPP", 95)));
    assert_eq!(found("132"), Some(("ERFKILL", 132)));
    assert_eq!(found("133"), Some(("EHWPOISON", 133)));
    assert_eq!(lookup("0"), Lookup::Unknown);
    assert_eq!(parsed(&["--", "-1"]).1, strings(&["-1"]));
    assert_eq!(lookup("-1"), Lookup::NotUnderstood);
    assert_eq!(lookup("999999"), Lookup::Unknown);
    assert_eq!(lookup("999999999999999999999999"), Lookup::Unknown);
    assert_eq!(lookup("2147483647"), Lookup::Unknown);
    assert_eq!(lookup("2147483648"), Lookup::Unknown);
    assert_eq!(found("02"), Some(("ENOENT", 2)));
    assert_eq!(lookup("0x2"), Lookup::Unknown);
    assert_eq!(lookup("+2"), Lookup::NotUnderstood);
    assert_eq!(found("2x"), Some(("ENOENT", 2)));
    assert_eq!(found("02x"), Some(("ENOENT", 2)));
    assert_eq!(found("3"), Some(("ESRCH", 3)));
    assert_eq!(lookup("999999"), Lookup::Unknown);
}

#[test]
fn listing_matches_exactly() {
    let t = table();
    assert_eq!(t.len(), 134);
    assert_eq!(t[0], ("EPERM", 1));
    assert_eq!(t[40], ("EWOULDBLOCK", 11));
    assert_eq!(t[133], ("ENOTSUP", 95));
    assert_eq!(
        format_entry(t[0].0, t[0].1, b"Operation not permitted"),
        b"EPERM 1 Operation not permitted\n".to_vec()
    );
}

const DESCS: [&str; 6] = [
    "Operation not permitted",
    "No such file or directory",
    "Resource temporarily unavailable",
    "Resource deadlock avoided",
    "Is a directory",
    "Read-only file system",
];

fn search(words: &[&str]) -> Vec<bool> {
    let descs: Vec<Vec<u8>> = DESCS.iter().map(|d| d.as_bytes().to_vec()).collect();
    search_flags(&descs, &lowercase_words(&strings(words)))
}

#[test]
fn search_matches() {
    assert_eq!(search(&[]), vec![true; 6]);
    assert_eq!(search(&["file"]), vec![false, true, false, false, false, true]);
    assert_eq!(search(&["FILE"]), vec![false, true, false, false, false, true]);
    assert_eq!(search(&["not", "permitted"]), vec![true, false, false, false, false, false]);
    assert_eq!(search(&["not", "xyz"]), vec![false; 6]);
    assert_eq!(search(&["ENOENT"]), vec![false; 6]);
    assert_eq!(search(&["."]), vec![false; 6]);
    assert_eq!(search(&["["]), vec![false; 6]);
    assert_eq!(search(&["deadlock"]), vec![false, false, false, true, false, false]);
    assert_eq!(search(&["Resource"]), vec![false, false, true, true, false, false]);
    assert!(description_matches(b"Read-only file system", &strings(&["read-only", "system"])));
}

#[test]
fn search_all_locales_matches() {
    assert_eq!(search(&["no", "such"]), vec![false, true, false, false, false, false]);
    assert_eq!(search(&["deadlock"]), vec![false, false, false, true, false, false]);
    assert!(description_matches(
        "Aucun fichier ou dossier de ce type".as_bytes(),
        &lowercase_words(&strings(&["FICHIER"]))
    ));
}

#[test]
fn search_all_locales_without_words_matches() {
    assert_eq!(search(&[]), vec![true; 6]);
    assert!(description_matches(b"\xffanything", &[]));
}

#[test]
fn table_names_are_distinct_and_well_formed() {
    let t = table();
    for (i, (name, code)) in t.iter().enumerate() {
        assert!(*code > 0, "{name}");
        assert!(name.starts_with('E'), "{name}");
        assert!(name.chars().all(|c| c.is_ascii_uppercase() || c.is_ascii_digit()), "{name}");
        for (other, _) in &t[i + 1..] {
            assert!(!name.eq_ignore_ascii_case(other), "{name} {other}");
        }
    }
}
