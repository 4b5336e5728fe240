use cargo_geiger::scan::dep_info::parse_rustc_dep_info;
use cargo_geiger::scan::rs_file::{scan_rustc_args, CustomExecutorError};

fn entry(target: &str, files: &[&str]) -> (String, Vec<String>) {
    (target.to_string(), files.iter().map(|f| f.to_string()).collect())
}

#[test]
fn dep_info_reads_targets_and_files() {
    let contents = "/out/lib.rmeta: src/lib.rs src/a.rs\n\nsrc/lib.rs:\nsrc/a.rs:\n";
    assert_eq!(
        parse_rustc_dep_info(contents),
        Some(vec![entry("/out/lib.rmeta", &["src/lib.rs", "src/a.rs"])])
    );
}

#[test]
fn dep_info_joins_escaped_spaces() {
    let contents = "t.d: src/my\\ file.rs other.rs\n";
    assert_eq!(
        parse_rustc_dep_info(contents),
        Some(vec![entry("t.d", &["src/my file.rs", "other.rs"])])
    );
}

#[test]
fn dep_info_joins_several_escapes() {
    let contents = "t: a\\ b\\ c d";
    assert_eq!(parse_rustc_dep_info(contents), Some(vec![entry("t", &["a b c", "d"])]));
}

#[test]
fn dep_info_refuses_trailing_backslash() {
    assert_eq!(parse_rustc_dep_info("t: a b\\\n"), None);
}

#[test]
fn dep_info_strips_carriage_returns() {
    let contents = "x: a\r\ny: \r\n";
    assert_eq!(
        parse_rustc_dep_info(contents),
        Some(vec![entry("x", &["a"]), entry("y", &[])])
    );
}

#[test]
fn dep_info_empty_contents() {
    assert_eq!(parse_rustc_dep_info(""), Some(vec![]));
}

#[test]
fn dep_info_first_separator_splits() {
    let contents = "a: b: c\n";
    assert_eq!(parse_rustc_dep_info(contents), Some(vec![entry("a", &["b:", "c"])]));
}

fn strings(v: &[&str]) -> Vec<String> {
    v.iter().map(|s| s.to_string()).collect()
}

#[test]
fn rustc_args_give_out_dir_and_rs_files() {
    let args = strings(&[
        "--crate-name", "demo", "src/lib.rs", "--out-dir", "/t/deps", "--extern", "x=/t/libx.rlib",
        "build/MAIN.RS", "notes.rst",
    ]);
    assert_eq!(
        scan_rustc_args(&args),
        Ok(("/t/deps".to_string(), strings(&["src/lib.rs", "build/MAIN.RS"])))
    );
}

#[test]
fn rustc_args_without_out_dir() {
    let args = strings(&["src/lib.rs"]);
    assert_eq!(scan_rustc_args(&args), Err(CustomExecutorError::OutDirKeyMissing));
}

#[test]
fn rustc_args_with_out_dir_last() {
    let args = strings(&["src/lib.rs", "--out-dir"]);
    assert_eq!(scan_rustc_args(&args), Err(CustomExecutorError::OutDirValueMissing));
}

#[test]
fn rustc_args_first_out_dir_counts() {
    let args = strings(&["--out-dir", "a", "--out-dir", "b"]);
    assert_eq!(scan_rustc_args(&args), Ok(("a".to_string(), vec![])));
}
