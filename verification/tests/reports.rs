use std::path::PathBuf;

use regex::Regex;
use sey::cli::{Cli, Preview};
use sey::edit::{Change, FileEdit, SourcePath};
use sey::hunks::{build_hunks, estimate_output_lines, Hunk};
use sey::process::process_file;
use sey::report::{print_file_compact, print_file_preview, print_file_vimgrep, write_segments};
use sey::style::{Color, Op, Style};

fn cli(context: usize, preview: Preview) -> Cli {
    Cli {
        pattern: None,
        replacement: None,
        paths: Vec::new(),
        files: Vec::new(),
        edit: false,
        ignore_case: false,
        word: false,
        fixed_strings: false,
        yes: false,
        pager: false,
        no_pager: false,
        globs: Vec::new(),
        type_matches: Vec::new(),
        type_not: Vec::new(),
        type_list: false,
        context,
        no_ignore: false,
        preview,
        compact: false,
        vimgrep: false,
    }
}

fn search(name: &str, text: &str, pattern: &str, replacement: &str) -> FileEdit {
    let re = Regex::new(pattern).unwrap();
    process_file(SourcePath::new(PathBuf::from(name)), text, &re, replacement, false).unwrap()
}

fn change_in(line_idx: usize) -> Change {
    Change { line_idx, orig_segments: Vec::new(), new_segments: Vec::new(), match_count: 1 }
}

fn look(style: Style) -> String {
    match style.fg {
        Some(Color::Cyan) => "c".to_string(),
        Some(Color::Magenta) => "M".to_string(),
        Some(Color::Yellow) => "Y".to_string(),
        Some(Color::Green) => "G".to_string(),
        Some(Color::Red) => "R".to_string(),
        Some(_) => "?".to_string(),
        None if style.dim => "d".to_string(),
        None => "?".to_string(),
    }
}

/// The output as text: `{x` where a look starts, `}` where text is plain again.
fn written(ops: &[Op]) -> String {
    let mut out = String::new();
    for op in ops {
        match op {
            Op::SetColor(style) => {
                out.push('{');
                out.push_str(&look(*style));
            }
            Op::Reset => out.push('}'),
            Op::Text(text) => out.push_str(text),
            Op::Newline => out.push('\n'),
        }
    }
    out
}

fn rows(ops: &[Op]) -> usize {
    ops.iter().filter(|op| matches!(op, Op::Newline)).count()
}

#[test]
fn looks_have_their_colours_and_weights() {
    assert_eq!(
        Style::fg(Color::Red, true),
        Style { fg: Some(Color::Red), bg: None, bold: true, dim: false }
    );
    assert_eq!(
        Style::dimmed(),
        Style { fg: None, bg: None, bold: false, dim: true }
    );
    assert_eq!(
        Style::on(Some(Color::Black), Color::White),
        Style { fg: Some(Color::Black), bg: Some(Color::White), bold: false, dim: false }
    );
    assert_eq!(Style::plain(), Style { fg: None, bg: None, bold: false, dim: false });
}

#[test]
fn changes_that_are_near_make_one_hunk() {
    let changes = vec![change_in(1), change_in(5), change_in(12)];
    assert_eq!(
        build_hunks(&changes, 2, 20),
        vec![Hunk { start: 0, end: 7 }, Hunk { start: 10, end: 14 }]
    );
}

#[test]
fn hunks_that_touch_are_one_and_others_are_apart() {
    let changes = vec![change_in(0), change_in(3)];
    assert_eq!(build_hunks(&changes, 1, 10), vec![Hunk { start: 0, end: 4 }]);
    let changes = vec![change_in(0), change_in(4)];
    assert_eq!(
        build_hunks(&changes, 1, 10),
        vec![Hunk { start: 0, end: 1 }, Hunk { start: 3, end: 5 }]
    );
}

#[test]
fn hunks_end_with_the_file() {
    assert_eq!(build_hunks(&[change_in(9)], 3, 10), vec![Hunk { start: 6, end: 9 }]);
    assert_eq!(build_hunks(&[change_in(0)], 0, 1), vec![Hunk { start: 0, end: 0 }]);
    assert_eq!(build_hunks(&[], 3, 10), Vec::new());
}

#[test]
fn segments_are_written_in_their_looks() {
    let segments = vec![("a".to_string(), false), ("b".to_string(), true)];
    let mut out = Vec::new();
    write_segments(&mut out, &segments, Style::fg(Color::Red, true));
    assert_eq!(written(&out), "}a{Rb}");
}

#[test]
fn preview_shows_old_and_new() {
    let edit = search("f.txt", "one\ntwo\nthree\n", "tw", "TW");
    let mut out = Vec::new();
    print_file_preview(&edit, 1, Preview::Diff, &mut out);
    assert_eq!(
        written(&out),
        "{Mf.txt\n}{d     1  one}\n{R-{c    2  }{Rtw}o}\n{G+{c    2  }{GTW}o}\n{d     3  three}\n\n"
    );
}

#[test]
fn preview_shows_old_only() {
    let edit = search("f.txt", "one\ntwo\n", "tw", "TW");
    let mut out = Vec::new();
    print_file_preview(&edit, 1, Preview::Old, &mut out);
    assert_eq!(
        written(&out),
        "{Mf.txt\n}{c     1  }{done}\n{c     2  }{Ytw}o}\n\n"
    );
}

#[test]
fn preview_shows_new_only() {
    let edit = search("f.txt", "one\ntwo\n", "tw", "TW");
    let mut out = Vec::new();
    print_file_preview(&edit, 0, Preview::New, &mut out);
    assert_eq!(written(&out), "{Mf.txt\n}{c     2  }{GTW}o}\n\n");
}

#[test]
fn marks_stand_between_hunks() {
    let edit = search("f", "x\na\na\nx\n", "x", "y");
    let mut out = Vec::new();
    print_file_preview(&edit, 0, Preview::New, &mut out);
    assert_eq!(
        written(&out),
        "{Mf\n}{c     1  }{Gy}\n{d        \u{22ee}\n}{c     4  }{Gy}\n\n"
    );
}

#[test]
fn preview_takes_up_the_estimated_rows_and_one() {
    let text = "x\na\na\na\na\nx x\nb\nb\nx\n";
    for context in 0..4 {
        for preview in [Preview::Old, Preview::New, Preview::Diff] {
            let edit = search("f", text, "x", "yy");
            let mut out = Vec::new();
            print_file_preview(&edit, context, preview, &mut out);
            let estimate = estimate_output_lines(&[edit], &cli(context, preview));
            assert_eq!(rows(&out), estimate + 1);
        }
    }
}

#[test]
fn estimate_counts_names_lines_changes_and_marks() {
    let text = "x\na\na\na\na\nx x\nb\nb\nx\n";
    let edits = vec![search("f", text, "x", "y"), search("g", "x", "x", "y")];
    assert_eq!(estimate_output_lines(&edits, &cli(0, Preview::Old)), 1 + 3 + 2 + 1 + 1);
    assert_eq!(estimate_output_lines(&edits, &cli(0, Preview::Diff)), 1 + 6 + 2 + 1 + 2);
    assert_eq!(estimate_output_lines(&edits, &cli(2, Preview::Diff)), 1 + 9 + 3 + 1 + 2);
    assert_eq!(estimate_output_lines(&[], &cli(2, Preview::Diff)), 0);
}

#[test]
fn compact_form_has_a_row_for_each_match() {
    let edit = search("f", "a x x\nb\nx\n", "x", "y");
    let mut out = Vec::new();
    print_file_compact(&edit, Preview::Diff, &mut out);
    assert_eq!(
        written(&out),
        "{Mf\n}{c     1  }}a {Yx} {Yx}\n{c     1  }}a {Yx} {Yx}\n{c     3  }{Yx}\n\n"
    );
    assert_eq!(rows(&out), edit.total_matches() + 2);
    let mut out = Vec::new();
    print_file_compact(&edit, Preview::New, &mut out);
    assert_eq!(
        written(&out),
        "{Mf\n}{c     1  }}a {Gy} {Gy}\n{c     1  }}a {Gy} {Gy}\n{c     3  }{Gy}\n\n"
    );
}

#[test]
fn matches_are_listed_by_file_line_and_column() {
    let edit = search("src/f.rs", "é x x\nb\nx\n", "x", "y");
    let mut out = Vec::new();
    print_file_vimgrep(&edit, &mut out);
    assert_eq!(written(&out), "src/f.rs:1:4:é x x\nsrc/f.rs:1:6:é x x\nsrc/f.rs:3:1:x\n");
    assert_eq!(rows(&out), edit.total_matches());
}

#[test]
fn matches_that_change_nothing_are_listed_too() {
    let edit = search("f", "fn x\n", "fn", "fn");
    let mut out = Vec::new();
    print_file_vimgrep(&edit, &mut out);
    assert_eq!(written(&out), "f:1:1:fn x\n");
    let edit = search("f", "b\na\n-\na b\n", "a|b", "b");
    let mut out = Vec::new();
    print_file_vimgrep(&edit, &mut out);
    assert_eq!(written(&out), "f:1:1:b\nf:2:1:a\nf:4:1:a b\nf:4:3:a b\n");
    assert_eq!(rows(&out), edit.total_matches() + edit.noop_count);
}

#[test]
fn changes_of_one_line_make_one_hunk() {
    let changes = vec![change_in(1), change_in(1), change_in(4)];
    assert_eq!(
        build_hunks(&changes, 0, 5),
        vec![Hunk { start: 1, end: 1 }, Hunk { start: 4, end: 4 }]
    );
}

#[test]
fn line_with_two_matches_has_two_compact_rows() {
    let edit = search("f", "a a\n", "a", "b");
    let mut out = Vec::new();
    print_file_compact(&edit, Preview::Old, &mut out);
    let text: String = out
        .iter()
        .map(|op| match op {
            Op::Text(text) => text.as_str(),
            Op::Newline => "\n",
            _ => "",
        })
        .collect();
    assert_eq!(text, "f\n     1  a a\n     1  a a\n\n");
}
