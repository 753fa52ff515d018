use textmark::convert_to_markdown;
use textmark::detect_and_format;
use textmark::determine_heading_level;
use textmark::is_likely_heading;
use textmark::split_marker;

// The heading heuristic accepts any short line without a trailing period or
// a comma, so plain short sentences render as headings; the expected values
// below follow the heuristic literally.
#[test]
fn test_convert_to_markdown() {
    let test_cases = vec![
        (
            "Hello World",
            "### Hello World\n\n",
            "short plain line passes the heading heuristic",
        ),
        (
            "1. INTRODUCTION\nThis is a sample text",
            "# INTRODUCTION\n\n### This is a sample text\n\n",
            "numbered heading",
        ),
        (
            "   THIS IS IMPORTANT   ",
            "# THIS IS IMPORTANT\n\n",
            "short all-caps line",
        ),
        (
            "First paragraph\n\nSecond paragraph",
            "### First paragraph\n\n\n\n### Second paragraph\n\n",
            "blank separated lines",
        ),
    ];

    for (input, expected, desc) in test_cases {
        let result = convert_to_markdown(input);
        assert_eq!(result, expected, "Test failed: {}", desc);
    }
}

#[test]
fn empty_input_stays_empty() {
    assert_eq!(convert_to_markdown(""), "");
}

#[test]
fn paragraph_lines_join_with_a_space() {
    // commas keep both lines out of the heading heuristic
    let out = convert_to_markdown("Hello, world.\nmore, text.");
    assert_eq!(out, "Hello, world. more, text.");
}

#[test]
fn one_blank_line_makes_one_hard_break() {
    let out = convert_to_markdown("one, two\n   \nthree, four");
    assert_eq!(out, "one, two\n\nthree, four");
}

#[test]
fn every_blank_line_appends_a_break() {
    let out = convert_to_markdown("a, b\n\n\nc, d");
    assert_eq!(out, "a, b\n\n\n\nc, d");
}

#[test]
fn paragraph_after_heading_opens_fresh() {
    let out = convert_to_markdown("1. TITLE\nbody, text.");
    assert_eq!(out, "# TITLE\n\nbody, text.\n\n");
}

#[test]
fn hash_marker_is_stripped() {
    assert_eq!(convert_to_markdown("# INTRO"), "# INTRO\n\n");
    assert_eq!(convert_to_markdown("## INTRO"), "# INTRO\n\n");
}

#[test]
fn long_line_is_a_paragraph() {
    let line = "a".repeat(120);
    let out = convert_to_markdown(&line);
    assert_eq!(out, line);
}

#[test]
fn emphasis_is_word_local() {
    assert_eq!(detect_and_format("THIS is IMPORTANT"), "**THIS** is **IMPORTANT**");
}

#[test]
fn emphasis_wraps_every_shouted_word() {
    assert_eq!(detect_and_format("   THIS IS IMPORTANT   "), "**THIS** **IS** **IMPORTANT**");
}

#[test]
fn emphasis_on_empty_input_is_empty() {
    assert_eq!(detect_and_format(""), "");
    assert_eq!(detect_and_format("   "), "");
}

#[test]
fn emphasis_needs_a_letter_and_length() {
    // single characters, numbers and punctuation stay bare
    assert_eq!(detect_and_format("A 42 !! OK"), "A 42 !! **OK**");
}

#[test]
fn likely_heading_heuristic() {
    assert!(is_likely_heading("Short title"));
    assert!(!is_likely_heading("ends with a period."));
    assert!(!is_likely_heading("has, a comma"));
    let long = "b".repeat(100);
    assert!(!is_likely_heading(&long));
    assert!(is_likely_heading(""));
}

#[test]
fn heading_level_prefix_rules() {
    assert_eq!(determine_heading_level("1.", "1. INTRODUCTION"), 1);
    assert_eq!(determine_heading_level("1.2", "1.2 Some Heading"), 1);
    assert_eq!(determine_heading_level("2.", "2. Background"), 2);
    assert_eq!(determine_heading_level("2.1", "2.1 Details"), 2);
}

// A prefix opening with "1." matches the first resolver rule, so a "1.1"
// prefix resolves to depth 1 and never reaches the short-all-caps rule.
#[test]
fn heading_level_first_match_wins() {
    assert_eq!(determine_heading_level("1.1", "1.1 SHORT"), 1);
    assert_eq!(convert_to_markdown("1.1 SHORT"), "# SHORT\n\n");
}

#[test]
fn heading_level_all_caps_rule() {
    assert_eq!(determine_heading_level("", "SHORT CAPS"), 1);
    assert_eq!(determine_heading_level("", "lowercase text here"), 3);
    assert_eq!(determine_heading_level("#", "# INTRO"), 1);
    let caps = "C".repeat(30);
    assert_eq!(determine_heading_level("", &caps), 3);
}

#[test]
fn marker_extraction() {
    assert_eq!(split_marker("1.2 Some Heading"), ("1.2".to_string(), "Some Heading".to_string()));
    assert_eq!(split_marker("12. Hello"), ("12.".to_string(), "Hello".to_string()));
    assert_eq!(split_marker("## Title"), ("##".to_string(), "Title".to_string()));
    assert_eq!(split_marker("No marker here"), ("".to_string(), "No marker here".to_string()));
    // without whitespace after the run there is no marker
    assert_eq!(split_marker("1.Hello"), ("".to_string(), "1.Hello".to_string()));
    // a digit run without a dot is no enumeration marker
    assert_eq!(split_marker("123 Main"), ("".to_string(), "123 Main".to_string()));
}

#[test]
fn marker_keeps_inner_spacing_of_the_body() {
    assert_eq!(
        split_marker("1.  Doubly  Spaced"),
        ("1.".to_string(), "Doubly  Spaced".to_string())
    );
}

#[test]
fn carriage_returns_are_trimmed_with_the_line() {
    assert_eq!(convert_to_markdown("a, b\r\nc, d"), "a, b c, d");
}

#[test]
fn trailing_newline_adds_no_line() {
    assert_eq!(convert_to_markdown("ends, here.\n"), "ends, here.");
}

#[test]
fn non_ascii_text_passes_through() {
    let out = convert_to_markdown("こんにちは、世界。");
    assert_eq!(out, "# こんにちは、世界。\n\n");
}
