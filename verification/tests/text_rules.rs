use rwiki::text::{parse_usize, strip_citations, trim};

fn chars(s: &str) -> Vec<char> {
    s.chars().collect()
}

fn string_of(v: &[char]) -> String {
    v.iter().collect()
}

fn strip_body(s: &str) -> String {
    let stripped = strip_citations(&chars(s), None);
    string_of(&trim(&stripped))
}

fn strip_infobox(s: &str) -> String {
    let stripped = strip_citations(&chars(s), Some(6));
    string_of(&trim(&stripped))
}

#[test]
fn citation_markers_removed() {
    assert_eq!(strip_body("See [1][edit][a] more[42]"), "See  more");
}

#[test]
fn non_qualifying_brackets_unwrapped() {
    assert_eq!(strip_body("a [note here] b"), "a note here b");
}

#[test]
fn lone_close_bracket_dropped() {
    assert_eq!(strip_body("a ] b"), "a  b");
}

#[test]
fn unmatched_open_bracket_kept() {
    assert_eq!(strip_body("a [ b"), "a [ b");
}

#[test]
fn empty_brackets_removed() {
    assert_eq!(strip_body("x[]y"), "xy");
}

#[test]
fn stripping_is_idempotent_on_samples() {
    for s in [
        "See [1][edit][a] more[42]",
        "a [note here] b",
        "a ] b [",
        "[[nested [1]]]",
        "",
        "   spaced [edit]   ",
    ] {
        let once = strip_body(s);
        let twice = strip_body(&once);
        assert_eq!(once, twice);
    }
}

#[test]
fn infobox_window_bounds_lookahead() {
    // The close bracket lies beyond the six-character window, so the span is
    // treated as unmatched: the bracket survives, the far close is dropped.
    assert_eq!(strip_infobox("x[123456]y"), "x[123456y");
    // Within the window the numeric span is removed.
    assert_eq!(strip_infobox("x[12]y"), "xy");
    assert_eq!(strip_infobox("x[edit]y"), "xy");
}

#[test]
fn parse_usize_accepts_digit_runs() {
    assert_eq!(parse_usize(&chars("3")), Some(3));
    assert_eq!(parse_usize(&chars("007")), Some(7));
    assert_eq!(parse_usize(&chars("")), None);
    assert_eq!(parse_usize(&chars("3a")), None);
    assert_eq!(parse_usize(&chars("-3")), None);
    assert_eq!(parse_usize(&chars("99999999999999999999999999")), None);
}

#[test]
fn trim_removes_surrounding_blanks() {
    let v = chars("  \t hello \r\n");
    assert_eq!(string_of(&trim(&v)), "hello");
}
