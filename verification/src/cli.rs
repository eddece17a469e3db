//! What the user asks for on the command line.
use std::path::PathBuf;
use vstd::prelude::*;

verus! {

/// How changed lines are shown.
#[derive(Clone, Copy, Debug, PartialEq, Eq, Structural)]
pub enum Preview {
    /// The line as it is, with the matches highlighted.
    Old,
    /// The line with its replacements, which are highlighted.
    New,
    /// Both, one above the other.
    Diff,
}

/// A file or directory to search: a path as it was given, or a word that turned out to be one.
pub enum SearchPath {
    Given(PathBuf),
    Word(String),
}

/// A file or directory to search, with its word as text.
#[verifier::ext_equal]
pub enum SearchPathView {
    Given(PathBuf),
    Word(Seq<char>),
}

impl View for SearchPath {
    type V = SearchPathView;

    open spec fn view(&self) -> SearchPathView {
        match self {
            SearchPath::Given(p) => SearchPathView::Given(*p),
            SearchPath::Word(w) => SearchPathView::Word(w@),
        }
    }
}

/// The places to search.
pub open spec fn path_views(list: Seq<SearchPath>) -> Seq<SearchPathView> {
    Seq::new(list.len(), |i: int| list[i]@)
}

/// The arguments and flags of a run.
pub struct Cli {
    /// Search pattern, a regular expression unless `fixed_strings` is set.
    pub pattern: Option<String>,
    /// Replacement, which may refer to groups unless `fixed_strings` is set.
    pub replacement: Option<String>,
    /// Files or directories to search.
    pub paths: Vec<SearchPath>,
    /// Further files or directories to search.
    pub files: Vec<SearchPath>,
    /// Start in the live editor.
    pub edit: bool,
    /// Upper and lower case are the same.
    pub ignore_case: bool,
    /// Only whole words match.
    pub word: bool,
    /// Pattern and replacement are plain text.
    pub fixed_strings: bool,
    /// Make all changes without asking.
    pub yes: bool,
    /// Always open the full-screen view.
    pub pager: bool,
    /// Never open the full-screen view.
    pub no_pager: bool,
    /// Only files that match one of these globs.
    pub globs: Vec<String>,
    /// Only files of one of these types.
    pub type_matches: Vec<String>,
    /// No files of these types.
    pub type_not: Vec<String>,
    /// List the file types and do nothing else.
    pub type_list: bool,
    /// Lines of context around a change.
    pub context: usize,
    /// Search hidden and ignored files too.
    pub no_ignore: bool,
    /// How changed lines are shown.
    pub preview: Preview,
    /// One line for each match, without context.
    pub compact: bool,
    /// List the matches only, one to a line.
    pub vimgrep: bool,
}

/// What a run turns out to be.
#[derive(Clone, Copy, Debug, PartialEq, Eq, Structural)]
pub enum Mode {
    /// The live editor.
    Edit,
    /// A search for a pattern and a replacement.
    Batch,
    /// A pattern without a replacement, which is an error.
    MissingReplacement,
}

/// Whether the arguments ask for the live editor.
pub open spec fn wants_editor(cli: Cli) -> bool {
    cli.pattern is None || cli.edit
}

/// What the arguments ask for.
pub open spec fn mode_of(cli: Cli) -> Mode {
    if wants_editor(cli) {
        Mode::Edit
    } else if cli.replacement is None {
        Mode::MissingReplacement
    } else {
        Mode::Batch
    }
}

/// A word that was taken for a pattern or a replacement, as a place to search.
pub open spec fn word_path(word: Option<String>) -> Seq<SearchPathView> {
    match word {
        Some(w) => seq![SearchPathView::Word(w@)],
        None => seq![],
    }
}

/// The given places, or the current directory where there are none.
pub open spec fn or_here(paths: Seq<SearchPathView>) -> Seq<SearchPathView> {
    if paths.len() == 0 {
        seq![SearchPathView::Word("."@)]
    } else {
        paths
    }
}

/// Where to search. The live editor has no use for a pattern and a replacement on the command
/// line, so it takes these words for places to search, the last of them first.
pub open spec fn places_of(cli: Cli) -> Seq<SearchPathView> {
    let given = path_views(cli.paths@) + path_views(cli.files@);
    match mode_of(cli) {
        Mode::Edit => or_here(word_path(cli.replacement) + word_path(cli.pattern) + given),
        Mode::Batch => or_here(given),
        Mode::MissingReplacement => given,
    }
}

/// All flags and lists but the places to search, the pattern and the replacement.
pub open spec fn same_options(a: Cli, b: Cli) -> bool {
    &&& a.edit == b.edit
    &&& a.ignore_case == b.ignore_case
    &&& a.word == b.word
    &&& a.fixed_strings == b.fixed_strings
    &&& a.yes == b.yes
    &&& a.pager == b.pager
    &&& a.no_pager == b.no_pager
    &&& a.globs == b.globs
    &&& a.type_matches == b.type_matches
    &&& a.type_not == b.type_not
    &&& a.type_list == b.type_list
    &&& a.context == b.context
    &&& a.no_ignore == b.no_ignore
    &&& a.preview == b.preview
    &&& a.compact == b.compact
    &&& a.vimgrep == b.vimgrep
}

/// Settles what kind of run this is and where it searches.
pub fn resolve_paths(cli: &mut Cli) -> (r: Mode)
    ensures
        r == mode_of(*old(cli)),
        path_views(final(cli).paths@) == places_of(*old(cli)),
        final(cli).files@.len() == 0,
        final(cli).pattern == if r == Mode::Edit {
            None
        } else {
            old(cli).pattern
        },
        final(cli).replacement == if r == Mode::Edit {
            None
        } else {
            old(cli).replacement
        },
        same_options(*final(cli), *old(cli)),
{
    take_all(&mut cli.paths, &mut cli.files);
    if cli.pattern.is_none() || cli.edit {
        let pattern = cli.pattern.take();
        prepend_word(&mut cli.paths, pattern);
        let replacement = cli.replacement.take();
        prepend_word(&mut cli.paths, replacement);
        push_here_if_empty(&mut cli.paths);
        proof {
            let given = path_views(old(cli).paths@) + path_views(old(cli).files@);
            let words = word_path(old(cli).pattern);
            assert(word_path(old(cli).replacement) + (words + given) == word_path(
                old(cli).replacement,
            ) + words + given);
        }
        return Mode::Edit;
    }
    if cli.replacement.is_none() {
        return Mode::MissingReplacement;
    }
    push_here_if_empty(&mut cli.paths);
    Mode::Batch
}

fn take_all(paths: &mut Vec<SearchPath>, more: &mut Vec<SearchPath>)
    ensures
        path_views(final(paths)@) == path_views(old(paths)@) + path_views(old(more)@),
        final(more)@.len() == 0,
{
    paths.append(more);
    proof {
        assert(path_views(paths@) == path_views(old(paths)@) + path_views(old(more)@));
    }
}

fn prepend_word(paths: &mut Vec<SearchPath>, word: Option<String>)
    ensures
        path_views(final(paths)@) == word_path(word) + path_views(old(paths)@),
{
    match word {
        Some(w) => {
            paths.insert(0, SearchPath::Word(w));
            proof {
                assert(path_views(paths@) == seq![SearchPathView::Word(w@)] + path_views(
                    old(paths)@,
                ));
            }
        },
        None => {
            proof {
                assert(path_views(paths@) == Seq::<SearchPathView>::empty() + path_views(paths@));
            }
        },
    }
}

fn push_here_if_empty(paths: &mut Vec<SearchPath>)
    ensures
        path_views(final(paths)@) == or_here(path_views(old(paths)@)),
{
    if paths.len() == 0 {
        paths.push(SearchPath::Word(".".to_owned()));
        proof {
            assert(path_views(paths@) == seq![SearchPathView::Word("."@)]);
        }
    }
}

/// Where a run searches, there is a place to search.
pub proof fn law_there_is_a_place_to_search(cli: Cli)
    requires
        mode_of(cli) != Mode::MissingReplacement,
    ensures
        places_of(cli).len() > 0,
{
}

/// A run is the live editor where there is no pattern or the editor is asked for, an error where
/// the pattern has no replacement with it, and else a search.
pub proof fn law_mode_goes_by_the_arguments(cli: Cli)
    ensures
        cli.edit || cli.pattern is None ==> mode_of(cli) == Mode::Edit,
        !cli.edit && cli.pattern is Some && cli.replacement is None ==> mode_of(cli)
            == Mode::MissingReplacement,
        !cli.edit && cli.pattern is Some && cli.replacement is Some ==> mode_of(cli)
            == Mode::Batch,
{
}

/// The current directory, as a place to search.
pub open spec fn is_here(place: SearchPathView) -> bool {
    place matches SearchPathView::Word(word) && word.len() == 1 && word[0] == '.'
}

/// A search with a pattern and a replacement goes through the places that are given, those of the
/// one list and then those of the other, every one of them and nothing else. Only where none is
/// given, it goes through the current directory.
pub proof fn law_search_goes_through_the_given_places(cli: Cli)
    requires
        !cli.edit,
        cli.pattern is Some,
        cli.replacement is Some,
    ensures
        cli.paths@.len() + cli.files@.len() > 0 ==> {
            &&& places_of(cli).len() == cli.paths@.len() + cli.files@.len()
            &&& forall|i: int|
                0 <= i < cli.paths@.len() ==> places_of(cli)[i] == #[trigger] cli.paths@[i]@
            &&& forall|i: int|
                0 <= i < cli.files@.len() ==> places_of(cli)[cli.paths@.len() + i]
                    == #[trigger] cli.files@[i]@
        },
        cli.paths@.len() + cli.files@.len() == 0 ==> places_of(cli).len() == 1 && is_here(
            places_of(cli)[0],
        ),
{
    reveal_strlit(".");
}

/// The live editor goes through the words that stand where a replacement and a pattern would,
/// in this order, and then through the given places. Only where there is none of these, it goes
/// through the current directory.
pub proof fn law_editor_goes_through_words_and_places(cli: Cli)
    requires
        cli.edit || cli.pattern is None,
    ensures
        ({
            let first = if cli.replacement is Some {
                1int
            } else {
                0
            };
            let words = first + if cli.pattern is Some {
                1int
            } else {
                0
            };
            let n = words + cli.paths@.len() + cli.files@.len();
            let places = places_of(cli);
            &&& n > 0 ==> places.len() == n
            &&& cli.replacement matches Some(w) ==> places[0] == SearchPathView::Word(w@)
            &&& cli.pattern matches Some(w) ==> places[first] == SearchPathView::Word(w@)
            &&& forall|i: int|
                0 <= i < cli.paths@.len() ==> places[words + i] == #[trigger] cli.paths@[i]@
            &&& forall|i: int|
                0 <= i < cli.files@.len() ==> places[words + cli.paths@.len() + i]
                    == #[trigger] cli.files@[i]@
            &&& n == 0 ==> places.len() == 1 && is_here(places[0])
        }),
{
    reveal_strlit(".");
}

/// Where the replacement is missing, the given places stay what they are.
pub proof fn law_error_keeps_the_given_places(cli: Cli)
    requires
        !cli.edit,
        cli.pattern is Some,
        cli.replacement is None,
    ensures
        places_of(cli).len() == cli.paths@.len() + cli.files@.len(),
        forall|i: int|
            0 <= i < cli.paths@.len() ==> places_of(cli)[i] == #[trigger] cli.paths@[i]@,
        forall|i: int|
            0 <= i < cli.files@.len() ==> places_of(cli)[cli.paths@.len() + i]
                == #[trigger] cli.files@[i]@,
{
}

/// Two runs with the same options agree in every flag and in every list of globs and types.
pub proof fn law_same_options_agree_in_every_flag(a: Cli, b: Cli)
    requires
        same_options(a, b),
    ensures
        a.edit == b.edit && a.type_list == b.type_list,
        a.ignore_case == b.ignore_case && a.word == b.word && a.fixed_strings == b.fixed_strings,
        a.yes == b.yes && a.pager == b.pager && a.no_pager == b.no_pager,
        a.globs@ == b.globs@ && a.type_matches@ == b.type_matches@ && a.type_not@ == b.type_not@,
        a.no_ignore == b.no_ignore && a.context == b.context,
        a.preview == b.preview && a.compact == b.compact && a.vimgrep == b.vimgrep,
{
}

} // verus!
