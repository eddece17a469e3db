use std::path::PathBuf;

use sey::batch::{missing_replacement_message, plan, search_started, start, Plan, Start};
use sey::cli::{resolve_paths, Cli, Mode, Preview, SearchPath};
use sey::file_types::{
    build_overrides, build_types, collect_globs, collect_types, format_type, list_types,
    overrides_built, print_type_list, types_built,
};
use sey::pattern::build_regex;
use sey::walk::{build_filter, build_walk, configure_walk};

fn cli() -> Cli {
    Cli {
        pattern: None,
        replacement: None,
        paths: Vec::new(),
        files: Vec::new(),
        edit: false,
        ignore_case: false,
        word: false,
        fixed_strings: false,
        yes: false,
        pager: false,
        no_pager: false,
        globs: Vec::new(),
        type_matches: Vec::new(),
        type_not: Vec::new(),
        type_list: false,
        context: 2,
        no_ignore: false,
        preview: Preview::Diff,
        compact: false,
        vimgrep: false,
    }
}

fn given(path: &str) -> SearchPath {
    SearchPath::Given(PathBuf::from(path))
}

fn words(paths: &[SearchPath]) -> Vec<String> {
    paths
        .iter()
        .map(|p| match p {
            SearchPath::Given(p) => format!("path {}", p.display()),
            SearchPath::Word(w) => format!("word {w}"),
        })
        .collect()
}

#[test]
fn without_a_pattern_the_editor_opens_here() {
    let mut c = cli();
    assert_eq!(resolve_paths(&mut c), Mode::Edit);
    assert_eq!(words(&c.paths), vec!["word ."]);
}

#[test]
fn the_editor_takes_words_for_places() {
    let mut c = cli();
    c.edit = true;
    c.pattern = Some("src".to_string());
    c.replacement = Some("tests".to_string());
    c.paths = vec![given("docs")];
    c.files = vec![given("more")];
    assert_eq!(resolve_paths(&mut c), Mode::Edit);
    assert_eq!(words(&c.paths), vec!["word tests", "word src", "path docs", "path more"]);
    assert!(c.files.is_empty());
    assert_eq!(c.pattern, None);
    assert_eq!(c.replacement, None);
}

#[test]
fn pattern_and_replacement_are_searched_for() {
    let mut c = cli();
    c.pattern = Some("a".to_string());
    c.replacement = Some("b".to_string());
    assert_eq!(resolve_paths(&mut c), Mode::Batch);
    assert_eq!(words(&c.paths), vec!["word ."]);
    assert_eq!(c.pattern, Some("a".to_string()));
    assert_eq!(c.replacement, Some("b".to_string()));
    let mut c = cli();
    c.pattern = Some("a".to_string());
    c.replacement = Some("b".to_string());
    c.files = vec![given("f")];
    assert_eq!(resolve_paths(&mut c), Mode::Batch);
    assert_eq!(words(&c.paths), vec!["path f"]);
}

#[test]
fn replacement_must_not_be_missing() {
    let mut c = cli();
    c.pattern = Some("a".to_string());
    assert!(matches!(start(&mut c), Start::MissingReplacement));
    assert_eq!(
        missing_replacement_message(),
        "error: REPLACEMENT is required when PATTERN is given"
    );
}

#[test]
fn run_starts_with_a_search() {
    let mut c = cli();
    c.pattern = Some("A.".to_string());
    c.replacement = Some("b".to_string());
    c.ignore_case = true;
    match start(&mut c) {
        Start::Search(re, replacement) => {
            assert_eq!(replacement, "b");
            assert_eq!(re.as_str(), "A.");
            assert!(re.is_match("ab"));
        }
        _ => panic!("no search"),
    }
    assert_eq!(words(&c.paths), vec!["word ."]);
}

#[test]
fn run_starts_with_the_editor() {
    let mut c = cli();
    assert!(matches!(start(&mut c), Start::Editor));
}

#[test]
fn run_with_a_bad_pattern_does_not_start() {
    let mut c = cli();
    c.pattern = Some("(".to_string());
    c.replacement = Some("b".to_string());
    match start(&mut c) {
        Start::BadPattern(e) => assert_eq!(e.message(), "invalid pattern: ("),
        _ => panic!("started"),
    }
    assert!(matches!(search_started(build_regex(&cli(), "("), "y"), Start::BadPattern(_)));
    match search_started(build_regex(&cli(), "x"), "y") {
        Start::Search(re, replacement) => {
            assert_eq!(re.as_str(), "x");
            assert_eq!(replacement, "y");
        }
        _ => panic!("no search"),
    }
}

#[test]
fn run_with_a_bad_file_type_does_not_start() {
    let mut c = cli();
    c.type_matches = vec!["no_such_type".to_string()];
    match start(&mut c) {
        Start::BadType(e) => {
            assert_eq!(e.message(), "invalid file type (see --type-list for available types)")
        }
        _ => panic!("started"),
    }
}

#[test]
fn run_may_only_list_the_file_types() {
    let mut c = cli();
    c.type_list = true;
    c.type_matches = vec!["no_such_type".to_string()];
    match start(&mut c) {
        Start::ListTypes(lines) => assert!(lines.len() > 100),
        _ => panic!("no list"),
    }
}

#[test]
fn file_types_are_listed_by_name_with_their_globs() {
    let lines = print_type_list();
    assert!(lines.contains(&"rust: *.rs".to_string()));
    assert!(lines.iter().any(|l| l.starts_with("c: ") && l.contains("*.[chH]")));
    let mut sorted = lines.clone();
    sorted.sort_by_key(|l| l.split(": ").next().map(|n| n.to_string()));
    assert_eq!(lines, sorted);
}

#[test]
fn line_of_the_type_list_is_worded() {
    let globs = vec!["*.a".to_string(), "*.b".to_string(), "c".to_string()];
    assert_eq!(format_type("t", &globs), "t: *.a, *.b, c");
    assert_eq!(format_type("t", &Vec::new()), "t: ");
    let defined = vec![("t".to_string(), globs), ("u".to_string(), vec!["x".to_string()])];
    assert_eq!(list_types(&defined), vec!["t: *.a, *.b, c", "u: x"]);
}

#[test]
fn file_types_are_matched() {
    let mut c = cli();
    assert!(matches!(build_types(&c), Ok(None)));
    c.type_matches = vec!["rust".to_string()];
    match build_types(&c) {
        Ok(Some(types)) => {
            assert!(types.matched("a.rs", false).is_whitelist());
            assert!(types.matched("a.py", false).is_ignore());
        }
        _ => panic!("no matcher"),
    }
    let mut c = cli();
    c.type_not = vec!["rust".to_string()];
    match build_types(&c) {
        Ok(Some(types)) => {
            assert!(types.matched("a.rs", false).is_ignore());
            assert!(types.matched("a.py", false).is_none());
        }
        _ => panic!("no matcher"),
    }
}

#[test]
fn unknown_file_types_are_refused() {
    let mut c = cli();
    c.type_not = vec!["rust".to_string(), "rusty".to_string()];
    assert!(build_types(&c).is_err());
    let mut c = cli();
    c.type_matches = vec!["all".to_string()];
    assert!(build_types(&c).is_ok());
}

#[test]
fn every_file_type_can_be_asked_for_at_once() {
    let mut c = cli();
    c.type_matches = print_type_list()
        .iter()
        .map(|line| line.split(": ").next().unwrap().to_string())
        .collect();
    c.type_matches.push("all".to_string());
    c.type_not = c.type_matches.clone();
    match build_types(&c) {
        Ok(Some(types)) => assert!(types.matched("a.rs", false).is_ignore()),
        _ => panic!("no matcher"),
    }
    assert!(collect_types(&c).build().is_ok());
    c.type_not.push("no_such_type".to_string());
    assert!(collect_types(&c).build().is_err());
}

#[test]
fn file_types_may_be_asked_for_again_and_again() {
    let mut c = cli();
    c.type_matches = vec!["all".to_string(); 2000];
    c.type_matches.push("rust".to_string());
    c.type_matches.extend(vec!["all".to_string(); 2000]);
    match build_types(&c) {
        Ok(Some(types)) => {
            assert!(types.matched("a.rs", false).is_whitelist());
            assert!(types.matched("a.no_such_type", false).is_ignore());
        }
        _ => panic!("no matcher"),
    }
    c.type_not = vec!["rust".to_string(); 1000];
    match build_types(&c) {
        Ok(Some(types)) => assert!(types.matched("a.rs", false).is_ignore()),
        _ => panic!("no matcher"),
    }
    c.type_not.push("no_such_type".to_string());
    assert!(build_types(&c).is_err());
}

#[test]
fn modest_globs_have_a_matcher() {
    let units = [
        "a", "é", "\u{10ffff}", "?", "*", "**/", "[a-z]", "[!\u{e9}-\u{10ffff}]",
        "{a,b*,c?}", "{a,{b,{c,d}}}", "/",
    ];
    for unit in units {
        let mut globs = Vec::new();
        for i in 0..64 {
            let times = 98 / unit.chars().count();
            globs.push(format!("{}{}", i % 10, unit.repeat(times)));
        }
        assert!(globs.iter().all(|glob| glob.chars().count() <= 100));
        let matcher = build_overrides(&globs).unwrap();
        assert_eq!(matcher.num_whitelists(), 64);
    }
    let deep = format!("{}x{}", "{".repeat(49), "}".repeat(49));
    let matcher = build_overrides(&vec![deep; 64]).unwrap();
    assert!(matcher.matched("x", false).is_whitelist());
    let deep = format!("{}{}", "{a,".repeat(25), "}".repeat(25));
    assert_eq!(build_overrides(&vec![deep; 64]).unwrap().num_whitelists(), 64);
    let matcher = build_overrides(&vec!["src/main.rs".to_string()]).unwrap();
    assert!(matcher.matched("src/main.rs", false).is_whitelist());
    assert!(matcher.matched("src/lib.rs", false).is_ignore());
}

#[test]
fn globs_are_collected_for_this_directory() {
    let globs = vec!["*.kt".to_string(), "[".to_string(), "*.rs".to_string()];
    let matcher = collect_globs(&globs).build().unwrap();
    assert_eq!(matcher.path(), PathBuf::from("."));
    assert_eq!(matcher.num_whitelists(), 2);
    assert!(matcher.matched("a.rs", false).is_whitelist());
}

#[test]
fn named_files_have_to_pass_the_globs() {
    let mut c = cli();
    let file = |name: &str| PathBuf::from(name);
    assert!(build_filter(&c).searched(&file("foo.rs")));
    c.globs = vec!["*.kt".to_string()];
    let filter = build_filter(&c);
    assert!(!filter.searched(&file("foo.rs")));
    assert!(!filter.searched(&file("./foo.kts")));
    assert!(!filter.searched(&file("kt")));
    assert!(filter.searched(&file("foo.kt")));
    assert!(filter.searched(&file("./.kt")));
    assert!(filter.searched(&file("/somewhere/else/foo.kt")));
    c.globs = vec!["*.kt".to_string(), "!b.kt".to_string()];
    let filter = build_filter(&c);
    assert!(filter.searched(&file("a.kt")));
    assert!(!filter.searched(&file("b.kt")));
}

#[test]
fn named_files_have_to_be_of_the_types() {
    let mut c = cli();
    c.type_matches = vec!["rust".to_string()];
    let filter = build_filter(&c);
    assert!(filter.searched(&PathBuf::from("src/a.rs")));
    assert!(!filter.searched(&PathBuf::from("a.py")));
    c.globs = vec!["*.py".to_string()];
    let filter = build_filter(&c);
    assert!(!filter.searched(&PathBuf::from("a.rs")));
    assert!(!filter.searched(&PathBuf::from("a.py")));
    let mut c = cli();
    c.type_not = vec!["rust".to_string()];
    let filter = build_filter(&c);
    assert!(!filter.searched(&PathBuf::from("src/a.rs")));
    assert!(filter.searched(&PathBuf::from("a.py")));
}

#[test]
fn outcome_of_building_types_is_passed_on() {
    let mut tb = ignore::types::TypesBuilder::new();
    tb.select("nothing");
    assert!(types_built(tb.build()).is_err());
    let tb = ignore::types::TypesBuilder::new();
    assert!(matches!(types_built(tb.build()), Ok(Some(_))));
}

#[test]
fn globs_are_matched_and_unreadable_ones_passed_over() {
    assert!(build_overrides(&Vec::new()).is_none());
    let globs = vec!["*.kt".to_string(), "[".to_string(), "!b.kt".to_string()];
    let matcher = build_overrides(&globs).unwrap();
    assert!(matcher.matched("a.kt", false).is_whitelist());
    assert!(matcher.matched("b.kt", false).is_ignore());
    assert!(matcher.matched("a.rs", false).is_ignore());
    assert_eq!(matcher.num_whitelists(), 1);
}

#[test]
fn globs_for_extensions_always_have_a_matcher() {
    let globs = vec!["*.kt".to_string(), "*.mp3".to_string()];
    let matcher = build_overrides(&globs).unwrap();
    assert_eq!(matcher.num_whitelists(), 2);
    assert!(matcher.matched("a/b.mp3", false).is_whitelist());
    assert!(matcher.matched("b.mp4", false).is_ignore());
    let globs = vec!["[".to_string(), "*.kt".to_string()];
    assert!(build_overrides(&globs).unwrap().matched("a.kt", false).is_whitelist());
    let matcher = build_overrides(&vec!["[".to_string()]).unwrap();
    assert_eq!(matcher.num_whitelists(), 0);
    assert!(matcher.matched("a.kt", false).is_none());
}

#[test]
fn outcome_of_building_globs_is_passed_on() {
    let ob = ignore::overrides::OverrideBuilder::new(".");
    assert!(overrides_built(ob.build()).is_some());
    let mut bad = ignore::overrides::OverrideBuilder::new(".");
    match bad.add("[") {
        Ok(_) => panic!("read"),
        Err(e) => assert!(overrides_built(Err(e)).is_none()),
    }
}

#[test]
fn walk_starts_from_every_place() {
    let mut c = cli();
    c.paths = vec![
        SearchPath::Word("no_such_place_one".to_string()),
        given("no_such_place_two"),
    ];
    c.no_ignore = true;
    c.globs = vec!["*.rs".to_string()];
    c.type_matches = vec!["rust".to_string()];
    let shown = format!("{:?}", build_walk(&c));
    assert!(shown.contains("no_such_place_one"));
    assert!(shown.contains("no_such_place_two"));
    assert_eq!(build_walk(&c).build().filter(|entry| entry.is_err()).count(), 2);
}

#[test]
fn walk_heeds_ignore_files_unless_told_otherwise() {
    let mut c = cli();
    c.paths = vec![given("p")];
    let heeding = format!("{:?}", build_walk(&c));
    c.no_ignore = true;
    let heedless = format!("{:?}", build_walk(&c));
    for option in ["hidden", "ignore", "git_global", "git_ignore", "git_exclude"] {
        assert!(heeding.contains(&format!(" {option}: true")));
        assert!(heedless.contains(&format!(" {option}: false")));
    }
}

#[test]
fn walk_has_the_matchers_of_the_run() {
    let mut c = cli();
    c.paths = vec![given("p")];
    let bare = format!("{:?}", build_walk(&c));
    assert!(!bare.contains("*.kts"));
    assert!(!bare.contains("*.rs"));
    c.globs = vec!["*.kts".to_string()];
    assert!(format!("{:?}", build_walk(&c)).contains("*.kts"));
    c.globs = Vec::new();
    c.type_not = vec!["rust".to_string()];
    let typed = format!("{:?}", build_walk(&c));
    assert!(typed.contains("*.rs"));
    c.type_not = vec!["no_such_type".to_string()];
    assert_eq!(format!("{:?}", build_walk(&c)), bare);
}

#[test]
fn walk_takes_the_matchers_it_is_given() {
    let mut c = cli();
    c.paths = vec![given("p")];
    let globs = build_overrides(&vec!["*.kts".to_string()]);
    let shown = format!("{:?}", configure_walk(&c, globs, None));
    assert!(shown.contains("*.kts"));
    let bare = format!("{:?}", configure_walk(&c, None, None));
    assert_eq!(bare, format!("{:?}", build_walk(&c)));
}

#[test]
fn results_are_listed_when_piped() {
    let mut c = cli();
    assert_eq!(plan(&c, false), Plan::List);
    c.yes = true;
    c.pager = true;
    assert_eq!(plan(&c, false), Plan::List);
    c.vimgrep = true;
    assert_eq!(plan(&c, true), Plan::List);
}

#[test]
fn results_are_applied_paged_or_asked_about() {
    let mut c = cli();
    assert_eq!(plan(&c, true), Plan::Ask);
    c.pager = true;
    assert_eq!(plan(&c, true), Plan::Pager);
    c.yes = true;
    assert_eq!(plan(&c, true), Plan::Apply);
}
