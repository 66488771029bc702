use moreutils::common::{
    os_error_suffix_index, path_candidates, plain_os_error, remove_os_error_suffix, script_path,
    shell_command, status_code,
};
use std::io;

#[test]
fn plain_os_error_removes_the_raw_os_error_suffix_and_context() {
    let error = io::Error::from_raw_os_error(2);
    let rendered = error.to_string();
    let expected = rendered
        .split_once(" (os error ")
        .map_or(rendered.as_str(), |(message, _)| message);

    assert_eq!(plain_os_error(&error), expected);
    assert_eq!(
        remove_os_error_suffix(
            "No such file or directory (os error 2) at path \"missing\"".to_owned(),
        ),
        "No such file or directory",
    );
}

#[test]
fn plain_os_error_preserves_non_os_errors() {
    let error = io::Error::other("detail (os error 2) retained");

    assert_eq!(plain_os_error(&error), "detail (os error 2) retained");
}

#[test]
fn os_error_suffix_needs_a_number_and_an_end() {
    let chars = |s: &str| s.chars().collect::<Vec<char>>();
    assert_eq!(os_error_suffix_index(&chars("Denied (os error 13)")), Some(6));
    assert_eq!(os_error_suffix_index(&chars("Denied (os error x)")), None);
    assert_eq!(os_error_suffix_index(&chars("Denied (os error 13) later")), None);
    assert_eq!(
        remove_os_error_suffix("a (os error 1) b (os error 2)".to_owned()),
        "a (os error 1) b"
    );
    assert_eq!(remove_os_error_suffix("plain".to_owned()), "plain");
}

#[test]
fn status_codes_follow_the_shell() {
    assert_eq!(status_code(Some(3), None), 3);
    assert_eq!(status_code(None, Some(9)), 137);
    assert_eq!(status_code(None, None), 129);
}

#[test]
fn shell_command_runs_sh_dash_c() {
    let s = shell_command("echo hi");
    assert_eq!(s.program, "/bin/sh");
    assert_eq!(s.arg0, "sh");
    assert_eq!(s.args, vec!["-c".to_string(), "--".to_string(), "echo hi".to_string()]);
}

#[test]
fn path_candidates_join_each_directory() {
    assert_eq!(
        path_candidates("/bin:/usr/bin/::x", "prog"),
        vec!["/bin/prog", "/usr/bin/prog", "./prog", "x/prog"]
    );
    assert_eq!(path_candidates("", "p"), vec!["./p"]);
}

#[test]
fn script_path_prefers_names_with_slashes() {
    assert_eq!(script_path("./run", Some("/bin/run".into())), "./run");
    assert_eq!(script_path("run", Some("/bin/run".into())), "/bin/run");
    assert_eq!(script_path("run", None), "run");
}

#[test]
fn os_error_suffix_put_back_restores_the_message() {
    for n in [1, 2, 13, 28, 110, 0, -5, 4096] {
        let err = std::io::Error::from_raw_os_error(n);
        assert_eq!(format!("{} (os error {})", plain_os_error(&err), n), err.to_string());
    }
}
