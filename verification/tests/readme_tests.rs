use cargo_geiger::readme::{
    construct_regex_expression_for_section_header, find_start_and_end_lines_of_safety_report_section,
    update_readme_content, update_readme_content_checked, ReadmeArgs,
};

fn lines(v: &[&str]) -> Vec<String> {
    v.iter().map(|s| s.to_string()).collect()
}

#[test]
fn construct_regex_expression_for_section_header_test() {
    let default = ReadmeArgs { section_name: None, ..Default::default() };
    assert_eq!(
        construct_regex_expression_for_section_header(&default).unwrap().as_str(),
        "^#+\\sCargo\\sGeiger\\sSafety\\sReport\\s*"
    );
    let named = ReadmeArgs { section_name: Some(String::from("Test Section Name")), ..Default::default() };
    assert_eq!(
        construct_regex_expression_for_section_header(&named).unwrap().as_str(),
        "^#+\\sTest\\sSection\\sName\\s*"
    );
}

#[test]
fn find_start_and_end_lines_of_safety_report_section_test() {
    let args = ReadmeArgs::default();
    let cases = vec![
        (lines(&["## Cargo Geiger Safety Report", "First line", "Second line"]), 0, -1),
        (lines(&["# Cargo Geiger Safety Report", "First line", "Second line"]), 0, -1),
        (lines(&["First line", "## Cargo Geiger Safety Report", "Second line", "Third line"]), 1, -1),
        (lines(&["# Another header", "First line", "## Cargo Geiger Safety Report", "Second line", "Third line"]), 2, -1),
        (
            lines(&["# Another header", "First line", "## Cargo Geiger Safety Report", "Second line", "Third line", "# Next header", "Fourth line"]),
            2,
            5,
        ),
        (lines(&["# Another header", "First line"]), -1, -1),
    ];
    for (content, start, end) in cases {
        assert_eq!(find_start_and_end_lines_of_safety_report_section(&args, &content), (start, end));
    }
}

#[test]
fn update_readme_content_test_no_safety_report_present() {
    let cases = vec![
        (ReadmeArgs { section_name: None, ..Default::default() }, "## Cargo Geiger Safety Report"),
        (ReadmeArgs { section_name: Some(String::from("Test Section Name")), ..Default::default() }, "## Test Section Name"),
    ];
    for (args, header) in cases {
        let mut readme = lines(&["# readme header", "line of text", "another line of text", "## another header"]);
        let scan = lines(&["first line of scan result", "second line of scan result", "third line of scan result"]);
        update_readme_content(&args, &mut readme, &scan);
        assert_eq!(
            readme,
            lines(&[
                "# readme header",
                "line of text",
                "another line of text",
                "## another header",
                header,
                "```",
                "first line of scan result",
                "second line of scan result",
                "third line of scan result",
                "```",
            ])
        );
    }
}

#[test]
fn update_readme_content_test_safety_report_present_in_middle_of_readme() {
    let args = ReadmeArgs::default();
    let mut readme = lines(&[
        "# readme header",
        "line of text",
        "another line of text",
        "## Cargo Geiger Safety Report",
        "first line of old scan result",
        "second line of old scan result",
        "# another header",
        "line of text",
    ]);
    let scan = lines(&["first line of scan result", "second line of scan result", "third line of scan result"]);
    assert!(update_readme_content_checked(&args, &mut readme, &scan));
    assert_eq!(
        readme,
        lines(&[
            "# readme header",
            "line of text",
            "another line of text",
            "## Cargo Geiger Safety Report",
            "```",
            "first line of scan result",
            "second line of scan result",
            "third line of scan result",
            "```",
            "# another header",
            "line of text",
        ])
    );
}

#[test]
fn updating_twice_gives_the_same_readme() {
    let args = ReadmeArgs::default();
    let mut readme = lines(&["# readme header", "text"]);
    let scan = lines(&["  scan line"]);
    update_readme_content(&args, &mut readme, &scan);
    let once = readme.clone();
    update_readme_content(&args, &mut readme, &scan);
    assert_eq!(readme, once);
}

#[test]
fn an_invalid_section_name_leaves_the_readme_unchanged() {
    let args = ReadmeArgs { section_name: Some(String::from("broken (")), ..Default::default() };
    let mut readme = lines(&["# readme header"]);
    assert!(!update_readme_content_checked(&args, &mut readme, &lines(&["x"])));
    assert_eq!(readme, lines(&["# readme header"]));
}

#[test]
fn updating_twice_changes_nothing_more() {
    let scan = lines(&["a table row", "another row"]);
    for args in [
        ReadmeArgs::default(),
        ReadmeArgs { section_name: Some(String::from("Unsafe Report 2")), ..Default::default() },
    ] {
        for readme in [
            lines(&["# Title", "text"]),
            lines(&["# Title", "## Cargo Geiger Safety Report", "old", "## Next", "more"]),
            lines(&["## Unsafe Report 2", "old", "old"]),
        ] {
            let mut once = readme.clone();
            assert!(update_readme_content_checked(&args, &mut once, &scan));
            let mut twice = once.clone();
            assert!(update_readme_content_checked(&args, &mut twice, &scan));
            assert_eq!(twice, once);
        }
    }
}
