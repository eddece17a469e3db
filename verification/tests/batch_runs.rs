use std::path::PathBuf;

use regex::Regex;
use sey::batch::{collect, list_matches, Collected, Showing};
use sey::cli::{Cli, Preview};
use sey::edit::{FileEdit, SourcePath};
use sey::keys::PromptChoice;
use sey::outcome::{End, Outcome};
use sey::process::process_file;
use sey::session::Session;
use sey::style::Op;

fn cli() -> Cli {
    Cli {
        pattern: None,
        replacement: None,
        paths: Vec::new(),
        files: Vec::new(),
        edit: false,
        ignore_case: false,
        word: false,
        fixed_strings: false,
        yes: false,
        pager: false,
        no_pager: false,
        globs: Vec::new(),
        type_matches: Vec::new(),
        type_not: Vec::new(),
        type_list: false,
        context: 0,
        no_ignore: false,
        preview: Preview::New,
        compact: false,
        vimgrep: false,
    }
}

fn search(name: &str, text: &str, pattern: &str, replacement: &str) -> FileEdit {
    let re = Regex::new(pattern).unwrap();
    process_file(SourcePath::new(PathBuf::from(name)), text, &re, replacement, false).unwrap()
}

fn results() -> Collected {
    collect(vec![
        search("a", "x\nx x\n", "x", "y"),
        search("b", "y\n", "y", "y"),
        search("c", "1x\n", "x|1", "1"),
    ])
}

fn text_of(ops: &[Op]) -> String {
    let mut out = String::new();
    for op in ops {
        match op {
            Op::Text(text) => out.push_str(text),
            Op::Newline => out.push('\n'),
            _ => {}
        }
    }
    out
}

#[test]
fn files_without_changes_only_count() {
    let all = results();
    assert_eq!(all.edits.len(), 2);
    assert_eq!(all.edits[0].path.display, "a");
    assert_eq!(all.edits[1].path.display, "c");
    assert_eq!(all.total, 5);
    assert_eq!(all.noop_total, 1);
}

#[test]
fn everything_is_replaced() {
    let all = results();
    let end = all.replace_all();
    let writes: Vec<(usize, String)> =
        end.writes.into_iter().map(|w| (w.edit_idx, w.text)).collect();
    assert_eq!(writes, vec![(0, "y\ny y\n".to_string()), (1, "11\n".to_string())]);
    assert_eq!(end.message, "Replaced 5 matches across 2 files. (1 match not replaced)");
}

#[test]
fn nothing_to_replace_is_told() {
    let none = collect(vec![search("b", "y y\n", "y", "y")]);
    let end = none.replace_all();
    assert!(end.writes.is_empty());
    assert_eq!(end.message, "2 matches not replaced.");
    let end = collect(Vec::new()).replace_all();
    assert!(end.writes.is_empty());
    assert_eq!(end.message, "No matches.");
}

#[test]
fn results_that_fit_are_printed() {
    let all = results();
    match all.show(&cli(), 5) {
        Showing::Plain(out) => assert_eq!(
            text_of(&out),
            "a\n     1  y\n     2  y y\n\nc\n     1  11\n\n"
        ),
        _ => panic!("not printed"),
    }
}

#[test]
fn results_that_do_not_fit_are_paged() {
    let all = results();
    assert!(matches!(all.show(&cli(), 4), Showing::Pager));
    let mut never = cli();
    never.no_pager = true;
    assert!(matches!(all.show(&never, 4), Showing::Plain(_)));
    assert!(matches!(all.show(&never, 0), Showing::Plain(_)));
}

#[test]
fn results_can_be_printed_in_compact_form() {
    let all = results();
    let mut c = cli();
    c.compact = true;
    c.preview = Preview::Old;
    match all.show(&c, 100) {
        Showing::Plain(out) => assert_eq!(
            text_of(&out),
            "a\n     1  x\n     2  x x\n     2  x x\n\nc\n     1  1x\n     1  1x\n\n"
        ),
        _ => panic!("not printed"),
    }
}

#[test]
fn nothing_to_show_is_told() {
    match collect(Vec::new()).show(&cli(), 100) {
        Showing::Nothing(message) => assert_eq!(message, "No matches."),
        _ => panic!("something shown"),
    }
}

#[test]
fn answer_decides_what_is_written() {
    let all = results();
    let end = all.answered(PromptChoice::ReplaceAll).unwrap();
    assert_eq!(end.writes.len(), 2);
    let end = all.answered(PromptChoice::Quit).unwrap();
    assert!(end.writes.is_empty());
    assert_eq!(end.message, "Aborted.");
    assert!(all.answered(PromptChoice::Edit).is_none());
}

#[test]
fn listing_shows_the_old_text() {
    let edit = search("d/e", "one\ntwo one\n", "one", "1");
    assert_eq!(text_of(&list_matches(&edit)), "d/e:1:1:one\nd/e:2:5:two one\n");
    let same = search("d/e", "one\ntwo one\n", "one", "one");
    assert_eq!(text_of(&list_matches(&same)), "d/e:1:1:one\nd/e:2:5:two one\n");
}

#[test]
fn full_screen_view_writes_the_same() {
    let all = results();
    let plain: Vec<(usize, String)> =
        all.replace_all().writes.into_iter().map(|w| (w.edit_idx, w.text)).collect();
    let mut session = Session::new("x", "y", false, Some(all.edits), all.noop_total);
    match session.finish(End::WriteAll, Vec::new()) {
        Outcome::Replaced { writes, count } => {
            let shown: Vec<(usize, String)> =
                writes.into_iter().map(|w| (w.edit_idx, w.text)).collect();
            assert_eq!(shown, plain);
            assert_eq!(count, 5);
        }
        _ => panic!("nothing written"),
    }
}
