use cosmic_applet_show_desktop::state_file::{encode, parse};

#[test]
fn a_written_set_reads_back_the_same() {
    let identifiers = vec!["toplevel-1".to_string(), "toplevel-2".to_string()];
    assert_eq!(parse(&encode(&identifiers)), identifiers);
}

#[test]
fn a_missing_or_empty_file_means_nothing_is_put_away() {
    assert!(parse("").is_empty());
    assert!(parse("\n\n").is_empty());
}

#[test]
fn stray_whitespace_does_not_invent_entries() {
    assert_eq!(parse("  toplevel-1  \n\n  \n"), vec!["toplevel-1".to_string()]);
}
