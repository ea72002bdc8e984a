use python_cleaner::clean_all;
use python_cleaner::clean_git;
use python_cleaner::clean_size;
use python_cleaner::clean_syntax;

#[test]
fn test_clean_all() {
    let input = "\tprint('hi') \\   \r\n\r\n";
    let expected = "    print('hi') \\";
    assert_eq!(clean_all(input), expected);
}

#[test]
fn test_clean_syntax() {
    let input = "\tprint('hi') \\   \r\n";
    let expected = "    print('hi') \\";
    assert_eq!(clean_syntax(input), expected);
}

#[test]
fn test_clean_git() {
    let input = "line with spaces   \n\n\nline2";
    let expected = "line with spaces\n\nline2";
    assert_eq!(clean_git(input), expected);
}

#[test]
fn test_clean_size() {
    let input = "line with spaces   \n\n\nline2";
    let expected = "line with spaces\n\nline2";
    assert_eq!(clean_size(input), expected);
}

#[test]
fn test_empty_input() {
    let input = "";
    let expected = "";
    assert_eq!(clean_all(input), expected);
}

#[test]
fn test_only_blank_lines() {
    let input = "\n\n\n";
    let expected = "";
    assert_eq!(clean_all(input), expected);
}

#[test]
fn test_tabs_and_trailing_spaces() {
    let input = "\tline1   \n\tline2  ";
    let expected = "    line1\n    line2";
    assert_eq!(clean_all(input), expected);
}

#[test]
fn test_backslash_at_end() {
    let input = "line with backslash \\   ";
    let expected = "line with backslash \\";
    assert_eq!(clean_all(input), expected);
}

#[test]
fn clean_all_applied_twice_is_applied_once() {
    let inputs = ["\tdef f():  \n\n\n\n    pass \\   \r\n x", "a\n\nb", "", "  mixed\t text  "];
    for input in inputs {
        let once = clean_all(input);
        assert_eq!(clean_all(&once), once);
    }
}

#[test]
fn clean_all_ending_in_newline_loses_it_on_a_second_pass() {
    // A trailing run of blanks collapses to one empty line, so the cleaned
    // text ends with a newline; re-splitting drops that final empty line.
    let once = clean_all("a\n\n\n\n");
    assert_eq!(once, "a\n");
    assert_eq!(clean_all(&once), "a");
}

#[test]
fn git_and_size_pipelines_agree() {
    let inputs = ["a  \n\n\nb", "\t x \r\n\r\n", ""];
    for input in inputs {
        assert_eq!(clean_git(input), clean_size(input));
    }
}

#[test]
fn syntax_pipeline_keeps_trailing_spaces_and_blank_runs() {
    assert_eq!(clean_syntax("a  \n\n\nb"), "a  \n\n\nb");
}

#[test]
fn syntax_pipeline_keeps_lone_cr_on_final_line() {
    // No step of the Syntax-only pipeline trims whitespace, and a '\r'
    // with no '\n' after it is no "\r\n" ending: it must survive.
    assert_eq!(clean_syntax("foo\r"), "foo\r");
}

#[test]
fn all_pipeline_orders_backslash_cleanup_after_trimming() {
    // Trimming first leaves "x \" a continuation line; backslash cleanup
    // then keeps its stripped form.
    assert_eq!(clean_all("x \\  \ny"), "x \\\ny");
}
