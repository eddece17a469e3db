use std::collections::HashSet;
use std::path::PathBuf;

use regex::Regex;
use sey::cli::Preview;
use sey::edit::{FileEdit, SourcePath};
use sey::found::Found;
use sey::input_field::InputField;
use sey::outcome::{End, Outcome};
use sey::panes::{pane_heights, Panes};
use sey::process::process_file;
use sey::render::{render_compact_entry, render_input_line, render_match_context};
use sey::style::{copy_row, Color, Row, Style};

fn search(name: &str, text: &str) -> FileEdit {
    let re = Regex::new("x").unwrap();
    process_file(SourcePath::new(PathBuf::from(name)), text, &re, "y", false).unwrap()
}

fn files() -> Vec<FileEdit> {
    vec![
        search("d/a", "x\n-\nx\n"),
        search("d/b", "-\nx"),
        search("d/c", "x\nx\nx x\n"),
    ]
}

fn text_of(row: &Row) -> String {
    row.spans.iter().map(|s| s.text.as_str()).collect()
}

fn texts_of(rows: &[Row]) -> Vec<String> {
    rows.iter().map(text_of).collect()
}

fn entries(found: &Found) -> Vec<(usize, usize, usize)> {
    found.match_list.iter().map(|m| (m.edit_idx, m.change_idx, m.match_idx)).collect()
}

#[test]
fn entry_names_the_file_and_the_line() {
    let edit = search("d/a", "1\nax\n");
    let row = render_compact_entry(&edit.path, &edit.changes[0], Preview::Diff, false, false);
    assert_eq!(text_of(&row), "  a:2  ax");
    assert_eq!(row.style, Style::plain());
    assert_eq!(row.spans[1].style, Style::fg(Color::Magenta, true));
    assert_eq!(row.spans[2].style, Style::fg(Color::Cyan, false));
    assert_eq!(row.spans[4].style, Style::plain());
    assert_eq!(row.spans[5].style, Style::fg(Color::Yellow, true));
}

#[test]
fn entry_tells_what_is_selected_and_accepted() {
    let edit = search("d/a", "ax\n");
    let row = render_compact_entry(&edit.path, &edit.changes[0], Preview::New, true, true);
    assert_eq!(text_of(&row), "\u{2713} a:1  ay");
    assert_eq!(row.style, Style::on(None, Color::Blue));
    assert_eq!(row.spans[0].style, Style::fg(Color::Green, false));
    assert_eq!(row.spans[5].style, Style::fg(Color::Green, true));
}

#[test]
fn entry_of_a_path_without_a_last_component_shows_the_path() {
    let edit = search("d/..", "x");
    let row = render_compact_entry(&edit.path, &edit.changes[0], Preview::Old, false, false);
    assert_eq!(text_of(&row), "  d/..:1  x");
}

#[test]
fn whole_file_is_shown_around_a_change() {
    let edit = search("d/a", "x\n-\nx\n");
    assert_eq!(
        texts_of(&render_match_context(&edit, 1, Preview::Diff)),
        vec!["d/a", "     1  x", "     2  -", "-    3  x", "+    3  y"]
    );
    assert_eq!(
        texts_of(&render_match_context(&edit, 0, Preview::Old)),
        vec!["d/a", "     1  x", "     2  -", "     3  x"]
    );
    let rows = render_match_context(&edit, 0, Preview::New);
    assert_eq!(texts_of(&rows), vec!["d/a", "     1  y", "     2  -", "     3  x"]);
    assert_eq!(rows[1].spans[1].style, Style::fg(Color::Green, true));
    assert_eq!(rows[3].spans[1].style, Style::dimmed());
}

#[test]
fn change_is_found_in_its_row() {
    let edit = search("d/a", "-\n-\nax\n-\n");
    for preview in [Preview::Old, Preview::New, Preview::Diff] {
        let rows = render_match_context(&edit, 0, preview);
        let row = &rows[edit.changes[0].line_idx + 1];
        assert!(text_of(row).ends_with("ax") || text_of(row).ends_with("ay"));
        assert_eq!(rows.len(), 5 + usize::from(preview == Preview::Diff));
    }
}

#[test]
fn rows_are_copied_whole() {
    let edit = search("d/a", "ax\n");
    let row = render_compact_entry(&edit.path, &edit.changes[0], Preview::New, true, true);
    let copy = copy_row(&row);
    assert_eq!(text_of(&copy), text_of(&row));
    assert_eq!(copy.style, row.style);
    assert_eq!(copy.spans.len(), row.spans.len());
    assert_eq!(copy.spans[5].style, row.spans[5].style);
}

#[test]
fn active_line_of_input_shows_its_cursor() {
    let mut field = InputField::new("ab€");
    field.move_left();
    field.move_left();
    let row = render_input_line("L: ", &field, true);
    let spans: Vec<&str> = row.spans.iter().map(|s| s.text.as_str()).collect();
    assert_eq!(spans, vec!["L: ", "a", "b", "€"]);
    assert_eq!(row.spans[0].style, Style::fg(Color::Cyan, true));
    assert_eq!(row.spans[2].style, Style::on(Some(Color::Black), Color::White));
    field.move_right();
    let row = render_input_line("L: ", &field, true);
    let spans: Vec<&str> = row.spans.iter().map(|s| s.text.as_str()).collect();
    assert_eq!(spans, vec!["L: ", "ab", "€"]);
    field.move_right();
    let row = render_input_line("L: ", &field, true);
    let spans: Vec<&str> = row.spans.iter().map(|s| s.text.as_str()).collect();
    assert_eq!(spans, vec!["L: ", "ab€", " "]);
}

#[test]
fn other_line_of_input_is_faint() {
    let row = render_input_line("L: ", &InputField::new("ab"), false);
    let spans: Vec<&str> = row.spans.iter().map(|s| s.text.as_str()).collect();
    assert_eq!(spans, vec!["L: ", "ab"]);
    assert_eq!(row.spans[0].style, Style::fg(Color::DarkGray, false));
    assert_eq!(row.spans[1].style, Style::dimmed());
}

#[test]
fn panes_fill_the_screen() {
    assert_eq!(pane_heights(24, false), (7, 14));
    assert_eq!(pane_heights(24, true), (6, 13));
    assert_eq!(pane_heights(9, false), (3, 3));
    assert_eq!(pane_heights(6, false), (3, 0));
    assert_eq!(pane_heights(0, true), (3, 0));
    for h in 8..100 {
        let (top, bottom) = pane_heights(h, true);
        assert_eq!(4 + top + 1 + bottom, h);
    }
}

#[test]
fn every_match_is_listed_once() {
    let found = Found::preloaded(files(), 7);
    assert_eq!(
        entries(&found),
        vec![(0, 0, 0), (0, 1, 1), (1, 0, 0), (2, 0, 0), (2, 1, 1), (2, 2, 2), (2, 2, 3)]
    );
    assert_eq!(found.total_matches, 7);
    assert_eq!(found.noop_total, 7);
    assert!(found.applied.is_empty());
}

#[test]
fn files_are_received_one_by_one() {
    let mut found = Found::new();
    for edit in files() {
        found.receive(edit);
    }
    let re = Regex::new("k").unwrap();
    let same = process_file(SourcePath::new(PathBuf::from("k")), "kk", &re, "k", false).unwrap();
    found.receive(same);
    assert_eq!(found.all_edits.len(), 3);
    assert_eq!(found.total_matches, 7);
    assert_eq!(found.noop_total, 2);
    assert_eq!(entries(&found), entries(&Found::preloaded(files(), 0)));
}

#[test]
fn selection_moves_within_the_list() {
    let mut panes = Panes::new();
    panes.move_up();
    assert_eq!(panes.selected, 0);
    panes.move_down(3);
    panes.move_down(3);
    panes.move_down(3);
    assert_eq!(panes.selected, 2);
    panes.move_up();
    assert_eq!(panes.selected, 1);
    panes.move_last(3);
    assert_eq!(panes.selected, 2);
    panes.move_first();
    assert_eq!(panes.selected, 0);
    panes.move_last(0);
    panes.move_down(0);
    assert_eq!(panes.selected, 0);
}

#[test]
fn jumps_lead_to_the_first_match_of_a_file() {
    let found = Found::preloaded(files(), 0);
    let mut panes = Panes::new();
    panes.move_down(7);
    panes.jump_next(&found);
    assert_eq!(panes.selected, 2);
    panes.jump_next(&found);
    assert_eq!(panes.selected, 3);
    panes.jump_next(&found);
    assert_eq!(panes.selected, 3);
    panes.move_last(7);
    panes.jump_prev(&found);
    assert_eq!(panes.selected, 2);
    panes.jump_prev(&found);
    assert_eq!(panes.selected, 0);
    panes.jump_prev(&found);
    assert_eq!(panes.selected, 0);
    let mut nothing = Panes::new();
    nothing.jump_next(&Found::new());
    nothing.jump_prev(&Found::new());
    assert_eq!(nothing.selected, 0);
}

#[test]
fn lower_pane_is_scrolled() {
    let found = Found::preloaded(files(), 0);
    let mut panes = Panes::new();
    panes.settle(&found, Preview::Diff, 3, 2);
    assert_eq!(panes.bottom_lines.len(), 5);
    panes.scroll_up(1);
    assert_eq!(panes.bottom_scroll, 0);
    panes.scroll_down(2);
    assert_eq!(panes.bottom_scroll, 2);
    panes.scroll_down(usize::MAX);
    assert_eq!(panes.bottom_scroll, usize::MAX);
    panes.settle(&found, Preview::Diff, 3, 2);
    assert_eq!(panes.bottom_scroll, 3);
    panes.scroll_home();
    assert_eq!(panes.bottom_scroll, 0);
    panes.scroll_end(2);
    assert_eq!(panes.bottom_scroll, 3);
    assert_eq!(texts_of(&panes.show_bottom(2)), vec!["     2  -", "     3  x"]);
}

#[test]
fn selected_match_is_seen() {
    let found = Found::preloaded(files(), 0);
    let mut panes = Panes::new();
    panes.move_last(7);
    panes.settle(&found, Preview::Old, 3, 10);
    assert_eq!(panes.top_scroll, 4);
    assert_eq!(
        texts_of(&panes.show_list(&found, Preview::Old, 3)),
        vec!["  c:2  x", "  c:3  x x", "  c:3  x x"]
    );
    panes.move_first();
    panes.settle(&found, Preview::Old, 3, 10);
    assert_eq!(panes.top_scroll, 0);
    let rows = panes.show_list(&found, Preview::Old, 3);
    assert_eq!(texts_of(&rows), vec!["  a:1  x", "  a:3  x", "  b:2  x"]);
    assert_eq!(rows[0].style, Style::on(None, Color::Blue));
    assert_eq!(rows[1].style, Style::plain());
}

#[test]
fn lower_pane_starts_a_row_above_the_change() {
    let found = Found::preloaded(files(), 0);
    let mut panes = Panes::new();
    panes.move_down(7);
    panes.settle(&found, Preview::Old, 3, 2);
    assert_eq!(panes.bottom_scroll, 1);
    assert_eq!(texts_of(&panes.show_bottom(2)), vec!["     1  x", "     2  -"]);
}

#[test]
fn selected_change_is_seen() {
    let text = "-\n".repeat(50) + "ax\n" + &"-\n".repeat(50);
    let found = Found::preloaded(vec![search("d/a", &text)], 0);
    for preview in [Preview::Old, Preview::New, Preview::Diff] {
        let mut panes = Panes::new();
        panes.settle(&found, preview, 3, 3);
        let seen = texts_of(&panes.show_bottom(3));
        assert!(seen.iter().any(|t| t.ends_with("51  ax") || t.ends_with("51  ay")));
    }
}

#[test]
fn nothing_is_shown_of_nothing() {
    let mut panes = Panes::new();
    panes.settle(&Found::new(), Preview::Old, 3, 2);
    assert_eq!(panes.last_selected, Some(0));
    assert!(panes.show_bottom(2).is_empty());
    assert!(panes.show_list(&Found::new(), Preview::Old, 3).is_empty());
}

fn written(outcome: &Outcome) -> Vec<(usize, String)> {
    match outcome {
        Outcome::Replaced { writes, .. } => {
            writes.iter().map(|w| (w.edit_idx, w.text.clone())).collect()
        }
        _ => Vec::new(),
    }
}

#[test]
fn only_accepted_matches_are_written() {
    let mut found = Found::preloaded(files(), 0);
    found.accept(1);
    found.accept(4);
    found.accept(5);
    let outcome = found.finish(End::Quit, Vec::new());
    assert_eq!(
        written(&outcome),
        vec![(0, "x\n-\ny\n".to_string()), (2, "x\ny\ny x\n".to_string())]
    );
    assert_eq!(outcome.message(), "Replaced 3 matches across 2 files.");
}

#[test]
fn nothing_accepted_is_nothing_written() {
    let mut found = Found::preloaded(files(), 0);
    let outcome = found.finish(End::Quit, files());
    assert!(matches!(outcome, Outcome::Nothing));
    assert_eq!(outcome.message(), "No replacements made.");
    assert_eq!(found.all_edits.len(), 3);
}

#[test]
fn abort_writes_nothing() {
    let mut found = Found::preloaded(files(), 0);
    found.accept(0);
    let outcome = found.finish(End::Abort, Vec::new());
    assert!(matches!(outcome, Outcome::Aborted));
    assert_eq!(outcome.message(), "Aborted.");
}

#[test]
fn everything_is_written_with_what_was_still_to_come() {
    let mut found = Found::preloaded(files(), 0);
    found.accept(2);
    let outcome = found.finish(End::WriteAll, vec![search("d/late", "xx\n")]);
    assert_eq!(
        written(&outcome),
        vec![
            (0, "y\n-\ny\n".to_string()),
            (1, "-\ny".to_string()),
            (2, "y\ny\ny y\n".to_string()),
            (3, "yy\n".to_string())
        ]
    );
    assert_eq!(outcome.message(), "Replaced 9 matches across 4 files.");
    assert_eq!(found.all_edits[3].path.display, "d/late");
    let expected: HashSet<usize> = (0..9).collect();
    assert_eq!(found.applied, expected);
    let outcome = Found::new().finish(End::WriteAll, Vec::new());
    assert!(matches!(outcome, Outcome::Nothing));
}
