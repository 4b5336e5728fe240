use cargo_geiger::source::{handle_path_source, handle_source_repr, Source};

#[test]
fn handle_source_repr_test() {
    assert_eq!(
        handle_source_repr("registry+https://github.com/rust-lang/crates.io-index"),
        Some(Source::Registry {
            name: "crates.io".to_string(),
            url: "https://github.com/rust-lang/crates.io-index".to_string(),
        })
    );
    assert_eq!(
        handle_source_repr("git+https://github.com/rust-itertools/itertools.git?rev=8761fbefb3b209"),
        Some(Source::Git {
            url: "https://github.com/rust-itertools/itertools.git".to_string(),
            rev: "8761fbefb3b209".to_string(),
        })
    );
}

#[test]
fn handle_source_repr_refuses_other_kinds() {
    assert_eq!(handle_source_repr("path+file:///x"), None);
    assert_eq!(handle_source_repr("git+https://example.com/repo.git"), None);
    assert_eq!(handle_source_repr("registry+not a url"), None);
}

#[test]
fn handle_source_repr_normalizes_the_registry_url() {
    assert_eq!(
        handle_source_repr("registry+https://example.com"),
        Some(Source::Registry { name: "crates.io".to_string(), url: "https://example.com/".to_string() })
    );
}

#[test]
fn handle_path_source_test() {
    assert_eq!(
        handle_path_source("(path+file:///cargo_geiger/test_crates/test1_package_with_no_deps)"),
        Some(Source::Path("file:///cargo_geiger/test_crates/test1_package_with_no_deps".to_string()))
    );
}

#[test]
fn handle_path_source_needs_a_file_url() {
    assert_eq!(handle_path_source("(registry+https://x)"), None);
    assert_eq!(handle_path_source("x"), None);
    assert_eq!(handle_path_source("(path+file://relative/path)"), None);
}
