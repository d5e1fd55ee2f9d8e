//! The program banner stays plain ASCII that fits a standard terminal.

use pyrudder::banner::BANNER;

#[test]
fn banner_is_ascii() {
    assert!(BANNER.is_ascii());
}

#[test]
fn banner_has_no_trailing_whitespace() {
    for (line_number, line) in BANNER.lines().enumerate() {
        assert!(
            !line.ends_with(' ') && !line.ends_with('\t'),
            "banner line {} has trailing whitespace",
            line_number + 1
        );
    }
}

#[test]
fn banner_lines_fit_standard_terminal() {
    for (line_number, line) in BANNER.lines().enumerate() {
        assert!(
            line.len() <= 80,
            "banner line {} is {} columns wide",
            line_number + 1,
            line.len()
        );
    }
}
