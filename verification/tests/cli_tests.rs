use cargo_geiger::cli::{host_target_from_rustc_output, parse_cfgs};
use cargo_platform::Cfg;

#[test]
fn host_target_is_read_from_rustc_version_output() {
    let output = "rustc 1.80.0 (051478957 2024-07-21)\nbinary: rustc\nhost: x86_64-unknown-linux-gnu\nrelease: 1.80.0\n";
    assert_eq!(host_target_from_rustc_output(output), Some("x86_64-unknown-linux-gnu".to_string()));
}

#[test]
fn host_target_takes_the_first_host_line() {
    let output = "host: first\r\nhost: second\n";
    assert_eq!(host_target_from_rustc_output(output), Some("first".to_string()));
}

#[test]
fn host_target_needs_a_space() {
    assert_eq!(host_target_from_rustc_output("host:nothing\nhost: later\n"), None);
    assert_eq!(host_target_from_rustc_output("release: 1.0\n"), None);
    assert_eq!(host_target_from_rustc_output("host: a b"), Some("a".to_string()));
    assert_eq!(host_target_from_rustc_output("host:  a"), Some("".to_string()));
}

#[test]
fn cfgs_are_read_line_by_line() {
    let output = "debug_assertions\ntarget_os=\"linux\"\nunix\n";
    assert_eq!(
        parse_cfgs(output),
        Some(vec![
            Cfg::Name("debug_assertions".to_string()),
            Cfg::KeyPair("target_os".to_string(), "linux".to_string()),
            Cfg::Name("unix".to_string()),
        ])
    );
}

#[test]
fn cfgs_refuse_a_malformed_line() {
    assert_eq!(parse_cfgs("unix\nnot a cfg(\n"), None);
    assert_eq!(parse_cfgs(""), Some(vec![]));
}
