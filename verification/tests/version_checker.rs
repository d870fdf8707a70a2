use nym_client::version_checker::{is_compatible, parse_release_line};

#[test]
fn patch_releases_of_one_line_are_compatible() {
    assert!(is_compatible("0.3.0", "0.3.2"));
    assert!(is_compatible("0.3.2", "0.3.0"));
    assert!(is_compatible("0.3.2", "0.3.2"));
    assert!(is_compatible("10.20.30", "10.20.0"));
}

#[test]
fn other_lines_are_not_compatible() {
    assert!(!is_compatible("0.3.0", "0.4.0"));
    assert!(!is_compatible("1.3.0", "0.3.0"));
    assert!(!is_compatible("0.3.0", "0.30.0"));
    assert!(!is_compatible("0.30.0", "0.3.0"));
    assert!(!is_compatible("1.12.0", "11.2.0"));
}

#[test]
fn what_is_no_version_is_compatible_with_nothing() {
    for bad in [
        "", "0", "0.3", "0.3.", ".3.0", "0..0", "0.3.x", "0.3.0.1", "0.3.0-alpha", "01.3.0",
        "0.03.0", "0.3.00", " 0.3.0", "0.3.0 ", "v0.3.0", "0,3,0",
    ] {
        assert!(!is_compatible(bad, "0.3.0"), "{:?}", bad);
        assert!(!is_compatible("0.3.0", bad), "{:?}", bad);
        assert!(!is_compatible(bad, bad), "{:?}", bad);
        assert_eq!(parse_release_line(bad), None, "{:?}", bad);
    }
}

#[test]
fn the_release_line_ends_at_the_second_dot() {
    assert_eq!(parse_release_line("0.3.0"), Some(3));
    assert_eq!(parse_release_line("10.20.30"), Some(5));
    assert_eq!(parse_release_line("0.0.0"), Some(3));
    assert_eq!(parse_release_line("123456789012345678901234567890.1.2"), Some(32));
}
