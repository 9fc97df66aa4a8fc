use lineman::report::{should_process, LinemanFileError, Report};

#[test]
fn every_file_is_processed_without_extension_list() {
    assert!(should_process(Some("rs"), &None));
    assert!(should_process(None, &None));
}

#[test]
fn only_listed_extensions_are_processed() {
    let list = Some(vec!["rs".to_string(), "py".to_string()]);
    assert!(should_process(Some("rs"), &list));
    assert!(should_process(Some("py"), &list));
    assert!(!should_process(Some("txt"), &list));
    assert!(!should_process(Some("RS"), &list));
    assert!(!should_process(None, &list));
    assert!(!should_process(Some("rs"), &Some(Vec::new())));
}

#[test]
fn outcomes_are_sorted_into_lists() {
    let mut report = Report::new();
    report.record_file("a.rs".to_string(), Ok(true));
    report.record_file("b.rs".to_string(), Ok(false));
    report.record_file("c.rs".to_string(), Err(LinemanFileError::FileNotOpened));
    report.record_file("d.rs".to_string(), Err(LinemanFileError::FileNotCleaned));
    report.record_walk_error("permission denied".to_string());
    assert_eq!(vec!["a.rs".to_string()], report.cleaned);
    assert_eq!(vec!["c.rs".to_string(), "d.rs".to_string()], report.skipped);
    assert_eq!(vec!["permission denied".to_string()], report.walk_errors);
}

#[test]
fn report_lines_have_headers_and_indented_entries() {
    let mut report = Report::new();
    report.record_file("a.rs".to_string(), Ok(true));
    report.record_file("b.rs".to_string(), Ok(true));
    report.record_file("c.rs".to_string(), Err(LinemanFileError::FileNotOpened));
    report.record_walk_error("loop".to_string());
    assert_eq!(
        vec![
            "Cleaned Files:",
            "    a.rs",
            "    b.rs",
            "Skipped Files:",
            "    c.rs",
            "Walkdir Errors:",
            "    loop",
        ],
        report.lines()
    );
}

#[test]
fn empty_sections_are_left_out() {
    let report = Report::new();
    assert!(report.lines().is_empty());

    let mut report = Report::new();
    report.record_file("x".to_string(), Err(LinemanFileError::FileNotCleaned));
    report.record_file("y".to_string(), Ok(false));
    assert_eq!(vec!["Skipped Files:", "    x"], report.lines());
}
