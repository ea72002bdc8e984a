use python_cleaner::fix_backslash_space;
use python_cleaner::normalize_blank_lines;
use python_cleaner::normalize_line_endings;
use python_cleaner::remove_trailing_spaces;
use python_cleaner::tabs_to_spaces;

#[test]
fn test_tabs_to_spaces() {
    let input = "\tprint('hello')";
    let expected = "    print('hello')";
    assert_eq!(tabs_to_spaces(input), expected);
}

#[test]
fn test_remove_trailing_spaces() {
    let input = "hello   \nworld   ";
    let expected = "hello\nworld";
    assert_eq!(remove_trailing_spaces(input), expected);
}

#[test]
fn test_fix_backslash_space() {
    let input = "print('hi') \\   \nnext";
    let expected = "print('hi') \\\nnext";
    assert_eq!(fix_backslash_space(input), expected);
}

#[test]
fn test_normalize_blank_lines() {
    let input = "line1\n\n\nline2\n\n";
    let expected = "line1\n\nline2\n";
    assert_eq!(normalize_blank_lines(input), expected);
}

#[test]
fn test_normalize_line_endings() {
    let input = "line1\r\nline2\r\n";
    let expected = "line1\nline2\n";
    assert_eq!(normalize_line_endings(input), expected);
}

#[test]
fn tabs_in_middle_of_line() {
    assert_eq!(tabs_to_spaces("a\tb\tc"), "a    b    c");
}

#[test]
fn tab_expansion_length_grows_by_three_per_tab() {
    let input = "\ta\t\tb";
    let out = tabs_to_spaces(input);
    assert!(!out.contains('\t'));
    assert_eq!(out.chars().count(), input.chars().count() + 3 * 3);
}

#[test]
fn trailing_removal_leaves_no_line_ending_in_whitespace() {
    let out = remove_trailing_spaces("a \t\nb\u{00A0}\n \n\tc");
    for line in out.lines() {
        assert!(!line.ends_with(|c: char| c.is_whitespace()));
    }
    assert_eq!(out, "a\nb\n\n\tc");
}

#[test]
fn trailing_removal_drops_final_newline_only_by_splitting() {
    assert_eq!(remove_trailing_spaces("a\n"), "a");
    assert_eq!(remove_trailing_spaces("a\n\n"), "a\n");
}

#[test]
fn backslash_line_keeps_interior_whitespace() {
    assert_eq!(fix_backslash_space("x =  1  \\ \t"), "x =  1  \\");
}

#[test]
fn non_continuation_line_keeps_trailing_whitespace() {
    assert_eq!(fix_backslash_space("plain   \nalso plain  "), "plain   \nalso plain  ");
}

#[test]
fn double_backslash_still_counts_as_continuation() {
    assert_eq!(fix_backslash_space("a \\\\   "), "a \\\\");
}

#[test]
fn blank_collapse_never_leaves_two_empty_lines() {
    let out = normalize_blank_lines("a\n\n\n\n\nb\n\n\n\nc");
    let lines: Vec<&str> = out.lines().collect();
    for pair in lines.windows(2) {
        assert!(!(pair[0].is_empty() && pair[1].is_empty()));
    }
    assert_eq!(out, "a\n\nb\n\nc");
}

#[test]
fn blank_collapse_keeps_lone_blank_line() {
    assert_eq!(normalize_blank_lines("a\n\nb"), "a\n\nb");
}

#[test]
fn blank_collapse_counts_whitespace_lines_as_blank() {
    assert_eq!(normalize_blank_lines("a\n \t\n  \nb"), "a\n\nb");
}

#[test]
fn blank_collapse_leading_run_becomes_one_empty_line() {
    assert_eq!(normalize_blank_lines("\n\n\na"), "\na");
}

#[test]
fn final_line_keeps_lone_trailing_cr_through_backslash_cleanup() {
    // A '\r' on the last line has no '\n' after it, so splitting keeps it;
    // the line is no continuation and must survive byte-identical.
    assert_eq!(fix_backslash_space("foo\r"), "foo\r");
}

#[test]
fn final_line_keeps_lone_trailing_cr_through_blank_collapse() {
    assert_eq!(normalize_blank_lines("foo\r"), "foo\r");
}

#[test]
fn trailing_removal_strips_final_lone_cr_as_whitespace() {
    assert_eq!(remove_trailing_spaces("foo\r"), "foo");
}

#[test]
fn only_newline_terminated_lines_lose_their_cr() {
    // The first two '\r's sit before a '\n' and go with it; the last line
    // has no terminator and keeps its '\r'.
    assert_eq!(normalize_blank_lines("foo\r\nbar\r\n\nbaz\r"), "foo\nbar\n\nbaz\r");
}

#[test]
fn line_ending_normalization_leaves_lone_cr_alone() {
    assert_eq!(normalize_line_endings("a\rb\r\nc"), "a\rb\nc");
}

#[test]
fn line_ending_normalization_output_free_of_crlf() {
    let out = normalize_line_endings("a\r\nb\r\nc\r\n\r\n");
    assert!(!out.contains("\r\n"));
    assert_eq!(out, "a\nb\nc\n\n");
}

#[test]
fn line_ending_normalization_scans_left_to_right_once() {
    assert_eq!(normalize_line_endings("\r\r\n"), "\r\n");
}

#[test]
fn each_transform_applied_twice_is_applied_once() {
    let inputs = ["\ta b\t", "a  \nb ", "x \\  \ny  ", "a\n\n\n\nb", "p\r\nq\rr", ""];
    for input in inputs {
        let t = tabs_to_spaces(input);
        assert_eq!(tabs_to_spaces(&t), t);
        let w = remove_trailing_spaces(input);
        assert_eq!(remove_trailing_spaces(&w), w);
        let f = fix_backslash_space(input);
        assert_eq!(fix_backslash_space(&f), f);
        let b = normalize_blank_lines(input);
        assert_eq!(normalize_blank_lines(&b), b);
        let e = normalize_line_endings(input);
        assert_eq!(normalize_line_endings(&e), e);
    }
}
