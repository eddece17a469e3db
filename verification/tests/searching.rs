use std::collections::HashSet;
use std::path::PathBuf;

use regex::Regex;
use sey::cli::{Cli, Preview};
use sey::edit::{FileEdit, SourcePath};
use sey::partial::compute_partial_replacement;
use sey::pattern::{build_regex, pattern_source};
use sey::process::{concat_segments, match_line, process_file};
use sey::segments::{segment_original, segment_replacement, slice_spans, weave_segments};

fn cli() -> Cli {
    Cli {
        pattern: None,
        replacement: None,
        paths: Vec::new(),
        files: Vec::new(),
        edit: false,
        ignore_case: false,
        word: false,
        fixed_strings: false,
        yes: false,
        pager: false,
        no_pager: false,
        globs: Vec::new(),
        type_matches: Vec::new(),
        type_not: Vec::new(),
        type_list: false,
        context: 2,
        no_ignore: false,
        preview: Preview::Diff,
        compact: false,
        vimgrep: false,
    }
}

fn compiled(cli: &Cli, pattern: &str) -> Regex {
    match build_regex(cli, pattern) {
        Ok(re) => re,
        Err(e) => panic!("{}", e.message()),
    }
}

fn search(text: &str, pattern: &str, replacement: &str) -> Option<FileEdit> {
    let re = compiled(&cli(), pattern);
    process_file(SourcePath::new(PathBuf::from("dir/file.txt")), text, &re, replacement, false)
}

fn seg(text: &str, marked: bool) -> (String, bool) {
    (text.to_string(), marked)
}

#[test]
fn patterns_are_escaped_and_bounded() {
    assert_eq!(pattern_source("a.b", false, false), "a.b");
    assert_eq!(pattern_source("a.b", true, false), "a\\.b");
    assert_eq!(pattern_source("a|b", false, true), "\\b(?:a|b)\\b");
    assert_eq!(pattern_source("a|b", true, true), "\\b(?:a\\|b)\\b");
    assert_eq!(
        pattern_source("\\.+*?()|[]{}^$#&-~x", true, false),
        "\\\\\\.\\+\\*\\?\\(\\)\\|\\[\\]\\{\\}\\^\\$\\#\\&\\-\\~x"
    );
}

#[test]
fn plain_text_stands_for_itself() {
    let mut options = cli();
    options.fixed_strings = true;
    let re = compiled(&options, "f(x)*");
    assert_eq!(
        segment_original("g f(x)* h f(x)", &re),
        vec![seg("g ", false), seg("f(x)*", true), seg(" h f(x)", false)]
    );
}

#[test]
fn whole_words_and_case() {
    let mut options = cli();
    options.word = true;
    let re = compiled(&options, "cat|dog");
    assert_eq!(
        segment_original("cat cats dog", &re),
        vec![seg("cat", true), seg(" cats ", false), seg("dog", true)]
    );
    let mut options = cli();
    options.ignore_case = true;
    let re = compiled(&options, "ab");
    assert_eq!(segment_original("xAB", &re), vec![seg("x", false), seg("AB", true)]);
    let re = compiled(&cli(), "ab");
    assert_eq!(segment_original("xAB", &re), vec![seg("xAB", false)]);
}

#[test]
fn pattern_that_does_not_compile_is_named() {
    match build_regex(&cli(), "a(b") {
        Ok(_) => panic!("compiled"),
        Err(e) => assert_eq!(e.message(), "invalid pattern: a(b"),
    }
}

#[test]
fn error_names_what_was_typed_and_not_what_it_became() {
    let mut options = cli();
    options.word = true;
    match build_regex(&options, "[") {
        Ok(_) => panic!("compiled"),
        Err(e) => assert_eq!(e.message(), "invalid pattern: ["),
    }
}

#[test]
fn original_segments_are_the_line() {
    let re = compiled(&cli(), "o+");
    let segments = segment_original("foo boo!", &re);
    assert_eq!(
        segments,
        vec![seg("f", false), seg("oo", true), seg(" b", false), seg("oo", true), seg("!", false)]
    );
    assert_eq!(concat_segments(&segments), "foo boo!");
    assert_eq!(segment_original("", &re), Vec::new());
}

#[test]
fn neighbouring_matches_have_nothing_between_them() {
    let re = compiled(&cli(), "[ab]");
    assert_eq!(segment_original("ab", &re), vec![seg("a", true), seg("b", true)]);
}

#[test]
fn empty_matches_are_segments_too() {
    let re = compiled(&cli(), "x*");
    assert_eq!(
        segment_original("é", &re),
        vec![seg("", true), seg("é", false), seg("", true)]
    );
    let (segments, count) = segment_replacement("é", &re, "-", false);
    assert_eq!(concat_segments(&segments), "-é-");
    assert_eq!(count, 2);
}

#[test]
fn replacement_refers_to_groups() {
    let re = compiled(&cli(), "foo(\\w+)");
    let (segments, count) = segment_replacement("a foox b fooyz", &re, "bar$1", false);
    assert_eq!(
        segments,
        vec![seg("a ", false), seg("barx", true), seg(" b ", false), seg("baryz", true)]
    );
    assert_eq!(count, 2);
    let re = compiled(&cli(), "(?P<first>\\w)(\\w)");
    let (segments, _) = segment_replacement("ab", &re, "${2}${first}$$", false);
    assert_eq!(segments, vec![seg("ba$", true)]);
}

#[test]
fn plain_replacement_does_not_refer_to_groups() {
    let re = compiled(&cli(), "(a)");
    let (segments, count) = segment_replacement("a", &re, "$1$1", true);
    assert_eq!(segments, vec![seg("$1$1", true)]);
    assert_eq!(count, 1);
}

#[test]
fn segments_are_woven_from_spans() {
    let spans = vec![(1, 2), (3, 5)];
    assert_eq!(slice_spans("abcdef", &spans), vec!["b", "de"]);
    let texts = vec!["X".to_string(), String::new()];
    assert_eq!(
        weave_segments("abcdef", &spans, &texts),
        vec![
            seg("a", false),
            seg("X", true),
            seg("c", false),
            seg("", true),
            seg("f", false)
        ]
    );
}

#[test]
fn line_without_a_match_is_nothing() {
    let re = compiled(&cli(), "z");
    assert!(match_line("abc", &re, "y", false).is_none());
    let found = match_line("zaz", &re, "y", false).unwrap();
    assert_eq!(found.match_count, 2);
    assert_eq!(concat_segments(&found.orig_segments), "zaz");
    assert_eq!(concat_segments(&found.new_segments), "yay");
}

#[test]
fn file_is_searched_line_by_line() {
    let edit = search("foo\nbar foo foo\nbaz", "foo", "qux").unwrap();
    assert_eq!(edit.lines, vec!["foo\n", "bar foo foo\n", "baz"]);
    assert_eq!(edit.new_text, "qux\nbar qux qux\nbaz");
    assert_eq!(edit.noop_count, 0);
    assert_eq!(edit.changes.len(), 2);
    assert_eq!(edit.changes[0].line_idx, 0);
    assert_eq!(edit.changes[0].match_count, 1);
    assert_eq!(edit.changes[1].line_idx, 1);
    assert_eq!(edit.changes[1].match_count, 2);
    assert_eq!(
        edit.changes[1].orig_segments,
        vec![seg("bar ", false), seg("foo", true), seg(" ", false), seg("foo", true)]
    );
    assert_eq!(
        edit.changes[1].new_segments,
        vec![seg("bar ", false), seg("qux", true), seg(" ", false), seg("qux", true)]
    );
    assert_eq!(edit.total_matches(), 3);
    assert_eq!(edit.path.display, "dir/file.txt");
    assert_eq!(edit.path.file_name, Some("file.txt".to_string()));
}

#[test]
fn path_without_a_last_component_has_no_name() {
    let path = SourcePath::new(PathBuf::from("a/.."));
    assert_eq!(path.display, "a/..");
    assert_eq!(path.file_name, None);
}

#[test]
fn file_without_a_match_is_nothing() {
    assert!(search("foo\nbar\n", "zzz", "y").is_none());
    assert!(search("", "foo", "y").is_none());
}

#[test]
fn replacement_that_changes_nothing_only_counts() {
    let edit = search("fn a fn\nfn\n", "fn", "fn").unwrap();
    assert!(edit.changes.is_empty());
    assert_eq!(edit.noop_count, 3);
    assert_eq!(edit.new_text, "fn a fn\nfn\n");
    assert_eq!(edit.total_matches(), 0);
}

#[test]
fn ambiguous_group_name_is_empty() {
    let edit = search("ab\n", "(a)", "$1_$1").unwrap();
    assert_eq!(edit.new_text, "ab\n");
    assert_eq!(edit.noop_count, 1);
}

#[test]
fn matches_do_not_reach_over_lines() {
    assert!(search("a\nb\n", "a\nb", "x").is_none());
    let edit = search("a\nb", "$", "!").unwrap();
    assert_eq!(edit.new_text, "a!\nb!");
}

#[test]
fn accepting_nothing_keeps_the_text() {
    let edit = search("foo\nbar foo\nfoo", "foo", "x").unwrap();
    assert_eq!(compute_partial_replacement(&edit, &HashSet::new()), "foo\nbar foo\nfoo");
}

#[test]
fn accepting_everything_gives_the_new_text() {
    let edit = search("foo\nbar foo\nfoo", "foo", "x").unwrap();
    let all: HashSet<usize> = (0..edit.total_matches()).collect();
    assert_eq!(compute_partial_replacement(&edit, &all), edit.new_text);
    assert_eq!(edit.new_text, "x\nbar x\nx");
}

#[test]
fn accepted_matches_are_replaced_and_others_are_not() {
    let edit = search("foo\nbar foo\nfoo", "foo", "x").unwrap();
    let some: HashSet<usize> = [1].into_iter().collect();
    assert_eq!(compute_partial_replacement(&edit, &some), "foo\nbar x\nfoo");
    let other: HashSet<usize> = [0, 2, 99].into_iter().collect();
    assert_eq!(compute_partial_replacement(&edit, &other), "x\nbar foo\nx");
}

#[test]
fn matches_of_one_line_are_accepted_one_by_one() {
    let edit = search("a a\n-\nca", "a", "b").unwrap();
    let take = |numbers: &[usize]| {
        compute_partial_replacement(&edit, &numbers.iter().copied().collect())
    };
    assert_eq!(take(&[0]), "b a\n-\nca");
    assert_eq!(take(&[1]), "a b\n-\nca");
    assert_eq!(take(&[2]), "a a\n-\ncb");
    assert_eq!(take(&[0, 2]), "b a\n-\ncb");
    assert_eq!(take(&[0, 1, 2]), edit.new_text);
    assert_eq!(take(&[3]), "a a\n-\nca");
}

#[test]
fn every_match_is_replaced_or_not() {
    let edit = search("b\na\n-\na b\n", "a|b", "b").unwrap();
    assert_eq!(edit.total_matches(), 3);
    assert_eq!(edit.noop_count, 1);
    let lines: Vec<usize> = edit.matched.iter().map(|m| m.line_idx).collect();
    assert_eq!(lines, vec![0, 1, 3]);
    let marked: usize = edit
        .matched
        .iter()
        .map(|m| m.orig_segments.iter().filter(|(_, marked)| *marked).count())
        .sum();
    assert_eq!(marked, edit.total_matches() + edit.noop_count);
}

#[test]
fn plain_text_of_modest_length_compiles() {
    let mut options = cli();
    options.fixed_strings = true;
    for text in ["(", "\\", "[^$|#&-~", "é\u{10ffff}", ""] {
        for flags in 0..4 {
            options.word = flags % 2 == 1;
            options.ignore_case = flags / 2 == 1;
            for count in [1, 100] {
                assert!(build_regex(&options, &text.repeat(count)).is_ok());
            }
        }
    }
    assert!(build_regex(&cli(), "plain words").is_ok());
}

#[test]
fn long_plain_text_compiles() {
    let mut options = cli();
    options.fixed_strings = true;
    for word in [false, true] {
        options.word = word;
        for text in ["a", "-", "\u{10ffff}"] {
            assert!(build_regex(&options, &text.repeat(50_000)).is_ok());
        }
    }
}

#[test]
fn long_plain_text_compiles_where_case_is_ignored() {
    let mut options = cli();
    options.fixed_strings = true;
    options.ignore_case = true;
    for word in [false, true] {
        options.word = word;
        for text in ["k", "-", "\u{3b9}", "\u{10d0}", "\u{a64b}", "\u{10ffff}"] {
            assert!(build_regex(&options, &text.repeat(10_000)).is_ok());
        }
    }
}

#[test]
fn short_patterns_in_the_grammar_compile() {
    for ignore_case in [false, true] {
        let mut options = cli();
        options.ignore_case = ignore_case;
        for unit in [
            "\\w", "\\W", "\\pL", "\\PL", "\\pC", "[\\pM\\pS]", "\\w*", "(\\w+)*", "(?i)k", ".", "a|",
        ] {
            let pattern = unit.repeat(100 / unit.len());
            assert!(build_regex(&options, &pattern).is_ok());
        }
        let nested = format!("{}\\w{}", "(".repeat(30), "+)".repeat(30));
        assert!(build_regex(&options, &nested).is_ok());
        assert!(build_regex(&options, "*").is_err());
    }
}

#[test]
fn plain_text_is_found_from_the_left() {
    let mut options = cli();
    options.fixed_strings = true;
    for (text, body) in [
        ("aa", "aaaaa"),
        ("aba", "ababab-aba"),
        ("é", "eéeé"),
        ("(", "f(x)(y"),
        ("", "aé"),
        ("", ""),
        ("x", "y"),
        ("xyz", "xy"),
    ] {
        let re = compiled(&options, text);
        let mut at = 0;
        let mut found = Vec::new();
        for (part, marked) in segment_original(body, &re) {
            if marked {
                found.push((at, part.clone()));
            }
            at += part.len();
        }
        let expected: Vec<(usize, String)> =
            body.match_indices(text).map(|(at, part)| (at, part.to_string())).collect();
        assert_eq!(found, expected);
    }
    let re = compiled(&options, "aa");
    let (segments, count) = segment_replacement("aaaaa", &re, "b", true);
    assert_eq!(segments, vec![seg("b", true), seg("b", true), seg("a", false)]);
    assert_eq!(count, 2);
}

#[test]
fn plain_replacement_is_put_in_for_every_match() {
    let mut options = cli();
    options.fixed_strings = true;
    let re = compiled(&options, "a.b");
    let path = SourcePath::new(PathBuf::from("f"));
    let edit = process_file(path, "a.b axb a.b\naxb\n", &re, "$0", true).unwrap();
    assert_eq!(edit.new_text, "$0 axb $0\naxb\n");
    let marked: Vec<&str> = edit.changes[0]
        .new_segments
        .iter()
        .filter(|(_, marked)| *marked)
        .map(|(text, _)| text.as_str())
        .collect();
    assert_eq!(marked, vec!["$0", "$0"]);
    let path = SourcePath::new(PathBuf::from("f"));
    assert!(process_file(path, "axb\n", &re, "$0", true).is_none());
}
