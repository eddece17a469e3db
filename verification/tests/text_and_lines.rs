use sey::lines::{push_decimal, push_padded, split_lines, split_nl};
use sey::messages::{no_change_message, noop_suffix, prompt_message, replaced_message};
use sey::text::{slice_str, str_len};

#[test]
fn slices_are_cut_between_characters() {
    let s = "aé€z";
    assert_eq!(str_len(s), 7);
    assert_eq!(slice_str(s, 0, 3), "aé");
    assert_eq!(slice_str(s, 3, 6), "€");
    assert_eq!(slice_str(s, 6, 6), "");
    assert_eq!(slice_str(s, 0, 7), s);
}

#[test]
fn text_falls_into_lines_and_back() {
    let text = "one\ntwo\n\nthree";
    let lines = split_lines(text);
    assert_eq!(lines, vec!["one\n", "two\n", "\n", "three"]);
    assert_eq!(lines.concat(), text);
    assert_eq!(split_lines(""), Vec::<String>::new());
    assert_eq!(split_lines("\n"), vec!["\n"]);
    assert_eq!(split_lines("x\r\ny"), vec!["x\r\n", "y"]);
}

#[test]
fn newline_is_split_off() {
    assert_eq!(split_nl("abc\n"), ("abc", "\n"));
    assert_eq!(split_nl("abc"), ("abc", ""));
    assert_eq!(split_nl("\n"), ("", "\n"));
    assert_eq!(split_nl(""), ("", ""));
    assert_eq!(split_nl("a\n\n"), ("a\n", "\n"));
    assert_eq!(split_nl("\u{10a}"), ("\u{10a}", ""));
}

#[test]
fn numbers_are_written_in_decimal() {
    let mut out = String::from("n=");
    push_decimal(&mut out, 0);
    out.push(' ');
    push_decimal(&mut out, 9);
    out.push(' ');
    push_decimal(&mut out, 10);
    out.push(' ');
    push_decimal(&mut out, 18_274);
    out.push(' ');
    push_decimal(&mut out, usize::MAX);
    assert_eq!(out, format!("n=0 9 10 18274 {}", usize::MAX));
}

#[test]
fn numbers_are_filled_up_on_the_left() {
    let mut out = String::from("[");
    push_padded(&mut out, 42, 6);
    assert_eq!(out, "[    42");
    push_padded(&mut out, 1_234_567, 6);
    assert_eq!(out, "[    421234567");
    push_padded(&mut out, 7, 0);
    assert_eq!(out, "[    4212345677");
}

#[test]
fn matches_that_change_nothing_are_not_no_matches() {
    assert_eq!(no_change_message(0), "No matches.");
    assert_eq!(no_change_message(1), "1 match not replaced.");
    assert_eq!(no_change_message(12), "12 matches not replaced.");
}

#[test]
fn suffix_tells_what_was_not_replaced() {
    assert_eq!(noop_suffix(0), "");
    assert_eq!(noop_suffix(1), " (1 match not replaced)");
    assert_eq!(noop_suffix(3), " (3 matches not replaced)");
}

#[test]
fn report_and_question_are_worded() {
    assert_eq!(replaced_message(5, 2, 0), "Replaced 5 matches across 2 files.");
    assert_eq!(
        replaced_message(1, 1, 1),
        "Replaced 1 matches across 1 files. (1 match not replaced)"
    );
    assert_eq!(
        prompt_message(3, 2, 4, false),
        "\n3 matches in 2 files (4 matches not replaced)\nshift+\u{21b5} replace all  \u{00b7}  e edit  \u{00b7}  q quit  "
    );
    assert_eq!(
        prompt_message(3, 2, 0, true),
        "\n3 matches in 2 files\nshift+\u{21b5} replace all  \u{00b7}  q quit  "
    );
}
