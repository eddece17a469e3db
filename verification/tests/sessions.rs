use std::path::PathBuf;

use regex::Regex;
use sey::cli::{Cli, Preview};
use sey::edit::{FileEdit, SourcePath};
use sey::keys::{Key, KeyCode};
use sey::outcome::{End, Outcome};
use sey::pattern::build_regex;
use sey::process::process_file;
use sey::session::{Pending, SearchAction, Session};
use sey::style::{Color, Row, Style};

fn cli() -> Cli {
    Cli {
        pattern: None,
        replacement: None,
        paths: Vec::new(),
        files: Vec::new(),
        edit: false,
        ignore_case: false,
        word: false,
        fixed_strings: false,
        yes: false,
        pager: false,
        no_pager: false,
        globs: Vec::new(),
        type_matches: Vec::new(),
        type_not: Vec::new(),
        type_list: false,
        context: 2,
        no_ignore: false,
        preview: Preview::Diff,
        compact: false,
        vimgrep: false,
    }
}

fn search(name: &str, text: &str) -> FileEdit {
    let re = Regex::new("x").unwrap();
    process_file(SourcePath::new(PathBuf::from(name)), text, &re, "y", false).unwrap()
}

fn preloaded(in_edit: bool) -> Session {
    let edits = vec![search("d/a", "x\nx\n"), search("d/b", "x x\n")];
    Session::new("x", "y", in_edit, Some(edits), 0)
}

fn key(code: KeyCode) -> Key {
    Key { code, ctrl: false, alt: false, shift: false }
}

fn ch(c: char) -> Key {
    key(KeyCode::Char(c))
}

fn ctrl(c: char) -> Key {
    Key { code: KeyCode::Char(c), ctrl: true, alt: false, shift: false }
}

fn alt(c: char) -> Key {
    Key { code: KeyCode::Char(c), ctrl: false, alt: true, shift: false }
}

fn press(s: &mut Session, k: Key) {
    assert_eq!(s.handle_key(k, 10, 1000), None);
}

fn texts(rows: &[Row]) -> Vec<String> {
    rows.iter().map(|r| r.spans.iter().map(|s| s.text.as_str()).collect()).collect()
}

const HELP: &str =
    "  \u{00b7}  \u{21b5} replace  \u{00b7}  shift+\u{21b5} replace all  \u{00b7}  e edit  \u{00b7}  q quit";

#[test]
fn session_without_a_pattern_waits() {
    let mut s = Session::new("", "", true, None, 0);
    assert_eq!(s.pending, Pending::Idle);
    assert!(matches!(s.tick(&cli(), 1 << 40), SearchAction::Keep));
    let frame = s.frame(Preview::Diff, 24);
    assert_eq!(texts(&frame.input), vec!["Pattern:      ", "Replacement: "]);
    assert_eq!(texts(&frame.top), vec![" Type a pattern to search"]);
    assert_eq!(
        frame.status.text,
        " \u{21b5} replace mode  \u{00b7}  esc revert  \u{00b7}  tab/shift+tab switch field  \u{00b7}  q quit"
    );
    assert_eq!((frame.top_h, frame.bottom_h), (6, 13));
    press(&mut s, key(KeyCode::Enter));
    let frame = s.frame(Preview::Diff, 24);
    assert!(frame.input.is_empty());
    assert_eq!(frame.status.text, " Type a pattern  \u{00b7}  esc quit");
}

#[test]
fn given_pattern_is_searched_for_at_once() {
    let mut s = Session::new("a+", "b", false, None, 0);
    match s.tick(&cli(), 0) {
        SearchAction::Start(re, replacement) => {
            assert_eq!(re.as_str(), "a+");
            assert_eq!(replacement, "b");
        }
        _ => panic!("no search"),
    }
    assert!(!s.search_done);
    assert!(matches!(s.tick(&cli(), 0), SearchAction::Keep));
    let frame = s.frame(Preview::Diff, 24);
    assert_eq!(texts(&frame.top), vec![" Searching\u{2026}"]);
    assert_eq!(frame.status.text, format!(" Searching\u{2026} 0 matches{HELP}"));
    s.search_finished();
    let frame = s.frame(Preview::Diff, 24);
    assert_eq!(texts(&frame.top), vec![" No matches."]);
    assert_eq!(frame.status.text, " No matches.  \u{00b7}  e edit  \u{00b7}  q quit");
}

#[test]
fn results_come_in_while_searching() {
    let mut s = Session::new("x", "y", false, None, 0);
    assert!(matches!(s.tick(&cli(), 0), SearchAction::Start(_, _)));
    s.receive(search("d/a", "x x\n"));
    let re = Regex::new("k").unwrap();
    s.receive(process_file(SourcePath::new(PathBuf::from("k")), "k", &re, "k", false).unwrap());
    let frame = s.frame(Preview::Diff, 24);
    assert_eq!(texts(&frame.top), vec!["  a:1  x x", "  a:1  x x"]);
    assert_eq!(texts(&frame.bottom), vec!["d/a", "-    1  x x", "+    1  y y"]);
    assert_eq!(
        frame.status.text,
        format!(" Searching\u{2026} 2 matches (1 match not replaced){HELP}")
    );
}

#[test]
fn results_at_hand_are_shown() {
    let mut s = preloaded(false);
    assert!(matches!(s.tick(&cli(), 1 << 40), SearchAction::Keep));
    let frame = s.frame(Preview::New, 24);
    assert_eq!(texts(&frame.top), vec!["  a:1  y", "  a:2  y", "  b:1  y y", "  b:1  y y"]);
    assert_eq!(texts(&frame.bottom), vec!["d/a", "     1  y", "     2  x"]);
    assert_eq!(frame.status.text, format!(" 4 matches in 2 files [1/4]{HELP}"));
    assert_eq!(frame.status.style, Style::plain());
}

#[test]
fn without_a_replacement_the_old_lines_are_shown() {
    let mut s = Session::new("x", "", false, Some(vec![search("d/a", "x\n")]), 0);
    let frame = s.frame(Preview::Diff, 24);
    assert_eq!(texts(&frame.bottom), vec!["d/a", "     1  x"]);
}

#[test]
fn enter_accepts_and_advances() {
    let mut s = preloaded(false);
    press(&mut s, key(KeyCode::Enter));
    assert_eq!(s.panes.selected, 1);
    press(&mut s, key(KeyCode::Down));
    press(&mut s, key(KeyCode::Enter));
    assert_eq!(s.panes.selected, 3);
    let mut accepted: Vec<usize> = s.found.applied.iter().copied().collect();
    accepted.sort();
    assert_eq!(accepted, vec![0, 2]);
    let frame = s.frame(Preview::New, 24);
    assert_eq!(
        frame.status.text,
        format!(" 4 matches in 2 files [4/4]  \u{00b7}  2/4 replaced{HELP}")
    );
    assert_eq!(
        texts(&frame.top),
        vec!["\u{2713} a:1  y", "  a:2  y", "\u{2713} b:1  y y", "  b:1  y y"]
    );
    assert_eq!(s.handle_key(ch('q'), 10, 0), Some(End::Quit));
    match s.finish(End::Quit, Vec::new()) {
        Outcome::Replaced { writes, count } => {
            assert_eq!(count, 2);
            assert_eq!(writes.len(), 2);
            assert_eq!(writes[0].text, "y\nx\n");
            assert_eq!(writes[1].text, "y x\n");
        }
        _ => panic!("nothing written"),
    }
}

#[test]
fn enter_accepts_one_match_of_a_line() {
    let re = Regex::new("a").unwrap();
    let path = SourcePath::new(PathBuf::from("f"));
    let edit = process_file(path, "a a\n", &re, "b", false).unwrap();
    let mut s = Session::new("a", "b", false, Some(vec![edit]), 0);
    press(&mut s, key(KeyCode::Enter));
    assert_eq!(s.handle_key(ch('q'), 10, 0), Some(End::Quit));
    match s.finish(End::Quit, Vec::new()) {
        Outcome::Replaced { writes, count } => {
            assert_eq!(count, 1);
            assert_eq!(writes.len(), 1);
            assert_eq!(writes[0].text, "b a\n");
        }
        _ => panic!("nothing written"),
    }
}

#[test]
fn keys_that_leave_are_told_apart() {
    let shift_enter = Key { code: KeyCode::Enter, ctrl: false, alt: false, shift: true };
    let mut s = preloaded(false);
    assert_eq!(s.handle_key(ctrl('c'), 10, 0), Some(End::Abort));
    assert_eq!(s.handle_key(ch('q'), 10, 0), Some(End::Quit));
    assert_eq!(s.handle_key(key(KeyCode::Esc), 10, 0), Some(End::Quit));
    assert_eq!(s.handle_key(shift_enter, 10, 0), Some(End::WriteAll));
    let mut s = preloaded(true);
    assert_eq!(s.handle_key(ctrl('c'), 10, 0), Some(End::Abort));
    assert_eq!(s.handle_key(ch('q'), 10, 0), Some(End::Quit));
    assert_eq!(s.handle_key(ctrl('q'), 10, 0), None);
    assert_eq!(s.handle_key(shift_enter, 10, 0), None);
    assert!(!s.in_edit);
}

#[test]
fn typing_starts_a_search_after_a_pause() {
    let mut s = Session::new("", "", true, None, 0);
    assert_eq!(s.handle_key(ch('a'), 10, 5000), None);
    assert_eq!(s.pending, Pending::Since(5000));
    assert!(matches!(s.tick(&cli(), 5199), SearchAction::Keep));
    match s.tick(&cli(), 5200) {
        SearchAction::Start(re, _) => assert_eq!(re.as_str(), "a"),
        _ => panic!("no search"),
    }
    assert_eq!(s.pending, Pending::Idle);
}

#[test]
fn search_runs_with_the_replacement_as_it_stands() {
    let mut s = preloaded(true);
    press(&mut s, key(KeyCode::Tab));
    press(&mut s, ch('z'));
    match s.tick(&cli(), 1200) {
        SearchAction::Start(re, replacement) => {
            assert_eq!(re.as_str(), "x");
            assert_eq!(replacement, "yz");
        }
        _ => panic!("no search"),
    }
}

#[test]
fn moving_about_starts_no_search() {
    let mut s = preloaded(true);
    press(&mut s, key(KeyCode::Left));
    press(&mut s, ctrl('e'));
    assert_eq!(s.pending, Pending::Idle);
    assert_eq!(s.found.match_list.len(), 4);
}

#[test]
fn tab_switches_between_the_fields() {
    let mut s = preloaded(true);
    press(&mut s, key(KeyCode::Tab));
    press(&mut s, ch('z'));
    assert_eq!(s.pat.text, "x");
    assert_eq!(s.rep.text, "yz");
    press(&mut s, key(KeyCode::BackTab));
    press(&mut s, ch('w'));
    assert_eq!(s.pat.text, "xw");
    let frame = s.frame(Preview::Diff, 24);
    assert_eq!(frame.input[0].spans[0].style, Style::fg(Color::Cyan, true));
    assert_eq!(frame.input[1].spans[0].style, Style::fg(Color::DarkGray, false));
    assert_eq!(texts(&frame.input), vec!["Pattern:     xw ", "Replacement: yz"]);
}

#[test]
fn escape_takes_back_an_edit() {
    let mut s = preloaded(false);
    press(&mut s, key(KeyCode::Enter));
    press(&mut s, ch('e'));
    assert!(s.in_edit);
    press(&mut s, ch('a'));
    press(&mut s, key(KeyCode::Tab));
    press(&mut s, ctrl('u'));
    press(&mut s, key(KeyCode::Esc));
    assert!(!s.in_edit);
    assert_eq!((s.pat.text.as_str(), s.rep.text.as_str()), ("x", "y"));
    assert_eq!(s.pending, Pending::Due);
    assert!(matches!(s.tick(&cli(), 0), SearchAction::Start(_, _)));
    assert!(s.found.applied.is_empty());
    assert!(s.found.match_list.is_empty());
}

#[test]
fn escape_without_an_edit_keeps_the_results() {
    let mut s = preloaded(false);
    press(&mut s, key(KeyCode::Enter));
    press(&mut s, ch('e'));
    press(&mut s, key(KeyCode::Esc));
    assert_eq!(s.pending, Pending::Idle);
    assert_eq!(s.found.applied.len(), 1);
}

#[test]
fn error_in_the_pattern_is_shown() {
    let mut s = Session::new("(", "", false, None, 0);
    assert!(matches!(s.tick(&cli(), 0), SearchAction::Stop));
    let frame = s.frame(Preview::Diff, 24);
    assert_eq!(frame.status.text, " Error: invalid pattern: (");
    assert_eq!(frame.status.style, Style::fg(Color::Red, false));
    assert!(s.search_done);
}

#[test]
fn search_begins_or_fails_with_the_pattern() {
    let mut s = Session::new("a", "", false, None, 0);
    assert!(matches!(s.begin_search(build_regex(&cli(), "a")), SearchAction::Start(_, _)));
    assert!(!s.search_done);
    assert!(matches!(s.begin_search(build_regex(&cli(), "[")), SearchAction::Stop));
    assert!(s.search_done);
    assert_eq!(s.regex_error, Some("invalid pattern: [".to_string()));
}

#[test]
fn empty_pattern_ends_the_search() {
    let mut s = Session::new("a", "", true, None, 0);
    assert!(matches!(s.tick(&cli(), 0), SearchAction::Start(_, _)));
    press(&mut s, key(KeyCode::Backspace));
    assert!(matches!(s.tick(&cli(), 2000), SearchAction::Stop));
    assert!(s.search_done);
    assert_eq!(s.regex_error, None);
}

#[test]
fn flags_of_the_run_hold_in_the_editor() {
    let mut options = cli();
    options.fixed_strings = true;
    options.word = true;
    options.ignore_case = true;
    let mut s = Session::new("a.b", "", true, None, 0);
    match s.tick(&options, 0) {
        SearchAction::Start(re, _) => {
            assert_eq!(re.as_str(), "\\b(?:a\\.b)\\b");
            assert!(re.is_match("A.B"));
        }
        _ => panic!("no search"),
    }
}

#[test]
fn keys_jump_and_scroll() {
    let mut s = preloaded(false);
    press(&mut s, alt('}'));
    assert_eq!(s.panes.selected, 2);
    press(&mut s, alt('{'));
    assert_eq!(s.panes.selected, 0);
    press(&mut s, alt('>'));
    assert_eq!(s.panes.selected, 3);
    press(&mut s, alt('<'));
    assert_eq!(s.panes.selected, 0);
    press(&mut s, ch('}'));
    press(&mut s, ch('>'));
    assert_eq!(s.panes.selected, 0);
    press(&mut s, ch('j'));
    press(&mut s, ctrl('n'));
    assert_eq!(s.panes.bottom_scroll, 2);
    press(&mut s, ch('k'));
    press(&mut s, ctrl('p'));
    assert_eq!(s.panes.bottom_scroll, 0);
    for down in [ch(' '), ch('f'), ctrl('v'), key(KeyCode::PageDown)] {
        press(&mut s, ch('g'));
        press(&mut s, down);
        assert_eq!(s.panes.bottom_scroll, 10);
    }
    for up in [ch('b'), alt('v'), key(KeyCode::PageUp)] {
        s.panes.bottom_scroll = 15;
        press(&mut s, up);
        assert_eq!(s.panes.bottom_scroll, 5);
    }
    press(&mut s, ch('G'));
    assert_eq!(s.panes.bottom_scroll, 0);
    press(&mut s, ch('z'));
    press(&mut s, key(KeyCode::Other));
    assert!(s.found.applied.is_empty());
}

#[test]
fn editor_scrolls_and_selects_too() {
    let mut s = preloaded(true);
    press(&mut s, key(KeyCode::Down));
    assert_eq!(s.panes.selected, 1);
    press(&mut s, key(KeyCode::Up));
    assert_eq!(s.panes.selected, 0);
    press(&mut s, ctrl('n'));
    press(&mut s, ctrl('v'));
    assert_eq!(s.panes.bottom_scroll, 11);
    press(&mut s, ctrl('p'));
    press(&mut s, alt('v'));
    assert_eq!(s.panes.bottom_scroll, 0);
    assert_eq!(s.pat.text, "x");
}

#[test]
fn enter_in_an_empty_list_does_nothing() {
    let mut s = Session::new("", "", false, None, 0);
    press(&mut s, key(KeyCode::Enter));
    assert!(s.found.applied.is_empty());
    assert!(matches!(s.finish(End::Quit, Vec::new()), Outcome::Nothing));
}
