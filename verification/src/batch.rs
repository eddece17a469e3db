//! A run with a pattern and a replacement: what it prints, asks and writes.
use regex::Regex;
use vstd::prelude::*;

use crate::cli::{mode_of, places_of, path_views, resolve_paths, same_options, Cli, Mode};
use crate::edit::{fits_line, sum_matches, ChangeView, FileEdit};
use crate::engine::regex_source;
use crate::file_types::{
    build_types, default_types, print_type_list, type_lines, types_known, TypesError,
};
use crate::found::{
    all_matches, all_wf, entries_of, law_entries_are_the_matches, lemma_matches_take,
};
use crate::hunks::{all_rows, context_fits, estimate_output_lines, lemma_wf_ascending};
use crate::keys::{prompt_answer, Key, PromptChoice, PromptStep};
use crate::lines::string_views;
use crate::messages::{no_change_message, no_change_text, replaced_message, replaced_text};
use crate::outcome::{
    applied_at_end, chosen, lemma_changed_files_have_matches, write_views, writes_upto, End,
    FileWrite,
};
use crate::partial::law_accepting_everything_gives_the_new_text;
use crate::pattern::{build_regex, pattern_text, surely_compiles, PatternError};
use crate::report::{
    compact_ops, preview_ops, print_file_compact, print_file_preview, print_file_vimgrep,
    vimgrep_ops,
};
use crate::style::{op_views, Op, OpView};

verus! {

// What kind of run it is.

/// How a run starts.
pub enum Start {
    /// It only lists the file types.
    ListTypes(Vec<String>),
    /// It asks for a file type that there is not.
    BadType(TypesError),
    /// It opens the live editor.
    Editor,
    /// It lacks a replacement.
    MissingReplacement,
    /// Its pattern does not compile.
    BadPattern(PatternError),
    /// It searches for this pattern, to put this replacement in.
    Search(Regex, String),
}

/// What the user is told where the replacement is missing.
pub open spec fn missing_replacement() -> Seq<char> {
    "error: REPLACEMENT is required when PATTERN is given"@
}

/// What the user is told where the replacement is missing.
pub fn missing_replacement_message() -> (r: String)
    ensures
        r@ == missing_replacement(),
{
    "error: REPLACEMENT is required when PATTERN is given".to_owned()
}

/// Goes on from a compiled pattern to a search with this replacement, or from an error to its
/// report.
pub fn search_started(outcome: Result<Regex, PatternError>, replacement: &str) -> (r: Start)
    ensures
        match outcome {
            Ok(re) => r matches Start::Search(wanted, text) && wanted == re && text@
                == replacement@,
            Err(e) => r == Start::BadPattern(e),
        },
{
    match outcome {
        Ok(re) => Start::Search(re, replacement.to_owned()),
        Err(e) => Start::BadPattern(e),
    }
}

/// Starts a run: settles what kind it is, checks the file types before anything else, finds out
/// where to search, and compiles the pattern.
pub fn start(cli: &mut Cli) -> (r: Start)
    ensures
        same_options(*final(cli), *old(cli)),
        old(cli).type_list <==> r is ListTypes,
        r matches Start::ListTypes(lines) ==> string_views(lines@) == type_lines(default_types()),
        old(cli).type_list || r is BadType ==> *final(cli) == *old(cli),
        r is BadType <==> !old(cli).type_list && !types_known(*old(cli)),
        !old(cli).type_list && !(r is BadType) ==> {
            &&& r is Editor <==> mode_of(*old(cli)) == Mode::Edit
            &&& r is MissingReplacement <==> mode_of(*old(cli)) == Mode::MissingReplacement
            &&& path_views(final(cli).paths@) == places_of(*old(cli))
            &&& final(cli).files@.len() == 0
            &&& final(cli).pattern == if r is Editor {
                None
            } else {
                old(cli).pattern
            }
            &&& final(cli).replacement == if r is Editor {
                None
            } else {
                old(cli).replacement
            }
        },
        r matches Start::Search(re, replacement) ==> {
            &&& regex_source(re) == (
                pattern_text(old(cli).pattern->0@, old(cli).fixed_strings, old(cli).word),
                old(cli).ignore_case,
            )
            &&& replacement@ == old(cli).replacement->0@
        },
        !old(cli).type_list && !(r is BadType) && mode_of(*old(cli)) == Mode::Batch
            && surely_compiles(*old(cli), old(cli).pattern->0@) ==> r is Search,
        r matches Start::BadPattern(e) ==> e.pattern@ == old(cli).pattern->0@,
{
    if cli.type_list {
        return Start::ListTypes(print_type_list());
    }
    match build_types(cli) {
        Ok(_types) => {},
        Err(e) => {
            return Start::BadType(e);
        },
    }
    match resolve_paths(cli) {
        Mode::Edit => Start::Editor,
        Mode::MissingReplacement => Start::MissingReplacement,
        Mode::Batch => {
            let pattern = match &cli.pattern {
                Some(pattern) => pattern.as_str(),
                None => "",
            };
            let replacement = match &cli.replacement {
                Some(replacement) => replacement.as_str(),
                None => "",
            };
            search_started(build_regex(cli, pattern), replacement)
        },
    }
}

// What a search is for.

/// What becomes of the results of a search.
#[derive(Clone, Copy, Debug, PartialEq, Eq, Structural)]
pub enum Plan {
    /// The matches are listed, and nothing is written.
    List,
    /// Every change is made without asking.
    Apply,
    /// They are shown in the full-screen view as they come in.
    Pager,
    /// They are collected first, and shown as fits.
    Ask,
}

/// What becomes of the results of a search.
pub open spec fn plan_of(cli: Cli, terminal: bool) -> Plan {
    if cli.vimgrep || !terminal {
        Plan::List
    } else if cli.yes {
        Plan::Apply
    } else if cli.pager {
        Plan::Pager
    } else {
        Plan::Ask
    }
}

/// Output that does not go to a terminal is a list of matches, whatever else was asked for.
pub proof fn law_piped_output_is_a_list(cli: Cli)
    ensures
        plan_of(cli, false) == Plan::List,
{
}

/// Settles what becomes of the results of a search.
pub fn plan(cli: &Cli, terminal: bool) -> (r: Plan)
    ensures
        r == plan_of(*cli, terminal),
{
    if cli.vimgrep || !terminal {
        Plan::List
    } else if cli.yes {
        Plan::Apply
    } else if cli.pager {
        Plan::Pager
    } else {
        Plan::Ask
    }
}

/// The output for one file where the matches are listed.
pub fn list_matches(edit: &FileEdit) -> (r: Vec<Op>)
    requires
        edit.wf(),
    ensures
        op_views(r@) == vimgrep_ops(*edit, edit.matched@.len()),
{
    let mut out: Vec<Op> = Vec::new();
    print_file_vimgrep(edit, &mut out);
    proof {
        let ops = vimgrep_ops(*edit, edit.matched@.len());
        assert(Seq::<OpView>::empty() + ops == ops);
        assert(op_views(Seq::<Op>::empty()) == Seq::<OpView>::empty());
    }
    out
}

// Results that are all in.

/// The results of a search that is over.
pub struct Collected {
    /// The files with something to change.
    pub edits: Vec<FileEdit>,
    /// Matches whose replacement changes something.
    pub total: usize,
    /// Matches whose replacement changes nothing.
    pub noop_total: usize,
}

/// Those of the files that have something to change.
pub open spec fn with_changes(edits: Seq<FileEdit>) -> Seq<FileEdit>
    decreases edits.len(),
{
    if edits.len() == 0 {
        seq![]
    } else if edits.last().changes@.len() > 0 {
        with_changes(edits.drop_last()).push(edits.last())
    } else {
        with_changes(edits.drop_last())
    }
}

/// The matches in a list of files whose replacement changes nothing.
pub open spec fn all_noops(edits: Seq<FileEdit>) -> int
    decreases edits.len(),
{
    if edits.len() == 0 {
        0
    } else {
        all_noops(edits.drop_last()) + edits.last().noop_count
    }
}

impl Collected {
    /// The counts are those of the files, and each file has something to change.
    pub open spec fn wf(&self) -> bool {
        &&& all_wf(self.edits@)
        &&& self.total == all_matches(self.edits@)
        &&& forall|i: int|
            0 <= i < self.edits@.len() ==> (#[trigger] self.edits@[i]).changes@.len() > 0
    }
}

proof fn lemma_noops_take(edits: Seq<FileEdit>, k: int)
    requires
        0 <= k <= edits.len(),
    ensures
        0 <= all_noops(edits.take(k)) <= all_noops(edits),
    decreases edits.len(),
{
    if edits.len() == 0 {
        assert(edits.take(k) == edits);
    } else {
        let rest = edits.drop_last();
        if k == edits.len() {
            assert(edits.take(k) == edits);
            lemma_noops_take(rest, rest.len() as int);
            assert(rest.take(rest.len() as int) == rest);
        } else {
            lemma_noops_take(rest, k);
            assert(rest.take(k) == edits.take(k));
        }
    }
}

/// Leaving out the files without changes leaves out no match that changes something.
pub proof fn law_files_without_changes_do_not_count(edits: Seq<FileEdit>)
    ensures
        all_matches(with_changes(edits)) == all_matches(edits),
        forall|i: int|
            0 <= i < with_changes(edits).len() ==> edits.contains(
                #[trigger] with_changes(edits)[i],
            ) && with_changes(edits)[i].changes@.len() > 0,
    decreases edits.len(),
{
    if edits.len() > 0 {
        let rest = edits.drop_last();
        let kept = with_changes(rest);
        law_files_without_changes_do_not_count(rest);
        if edits.last().changes@.len() > 0 {
            assert(kept.push(edits.last()).drop_last() == kept);
        } else {
            assert(edits.last().change_views() == Seq::<ChangeView>::empty());
        }
        assert forall|i: int| 0 <= i < with_changes(edits).len() implies (#[trigger] with_changes(
            edits,
        )[i]).changes@.len() > 0 && edits.contains(with_changes(edits)[i]) by {
            let now = with_changes(edits);
            if i < kept.len() {
                assert(now[i] == kept[i]);
                let j = choose|j: int| 0 <= j < rest.len() && rest[j] == kept[i];
                assert(edits[j] == now[i]);
            } else {
                assert(edits[edits.len() - 1] == now[i]);
            }
        }
    }
}

/// Collects the results of a search.
pub fn collect(edits: Vec<FileEdit>) -> (r: Collected)
    requires
        all_wf(edits@),
        all_matches(edits@) <= usize::MAX,
        all_noops(edits@) <= usize::MAX,
    ensures
        r.wf(),
        r.edits@ == with_changes(edits@),
        r.total == all_matches(edits@),
        r.noop_total == all_noops(edits@),
{
    let ghost all = edits@;
    let mut kept: Vec<FileEdit> = Vec::new();
    let mut total: usize = 0;
    let mut noop_total: usize = 0;
    proof {
        assert(all.take(0) == Seq::<FileEdit>::empty());
    }
    for edit in it: edits.into_iter()
        invariant
            it.seq() == all,
            all_wf(all),
            all_matches(all) <= usize::MAX,
            all_noops(all) <= usize::MAX,
            kept@ == with_changes(all.take(it.index())),
            total == all_matches(all.take(it.index())),
            noop_total == all_noops(all.take(it.index())),
    {
        let ghost n = it.index();
        proof {
            assert(all.take(n + 1).drop_last() == all.take(n));
            assert(all.take(n + 1).last() == edit);
            lemma_noops_take(all, n);
            lemma_noops_take(all, n + 1);
            lemma_matches_take(all, n);
            lemma_matches_take(all, n + 1);
            assert(all[n].wf());
        }
        total = total + edit.total_matches();
        noop_total = noop_total + edit.noop_count;
        if edit.changes.len() > 0 {
            kept.push(edit);
        }
    }
    proof {
        assert(all.take(all.len() as int) == all);
        law_files_without_changes_do_not_count(all);
        assert forall|i: int| 0 <= i < kept@.len() implies (#[trigger] kept@[i]).wf() by {
            assert(with_changes(all)[i] == kept@[i]);
            let j = choose|j: int| 0 <= j < all.len() && all[j] == kept@[i];
            assert(all[j].wf());
        }
    }
    Collected { edits: kept, total, noop_total }
}

// What is written.

/// Every file of a list, with the text that it was found to turn into.
pub open spec fn all_new_texts(edits: Seq<FileEdit>) -> Seq<(int, Seq<char>)> {
    Seq::new(edits.len(), |i: int| (i, edits[i].new_text@))
}

/// Replacing everything in the full-screen view writes the same files with the same texts as
/// replacing everything without it.
pub proof fn law_replacing_all_is_the_same_everywhere(
    edits: Seq<FileEdit>,
    applied: Set<usize>,
    k: nat,
)
    requires
        all_wf(edits),
        forall|i: int| 0 <= i < edits.len() ==> (#[trigger] edits[i]).changes@.len() > 0,
        entries_of(edits).len() <= usize::MAX,
        k <= edits.len(),
    ensures
        writes_upto(edits, applied_at_end(edits, applied, End::WriteAll), k) == all_new_texts(
            edits,
        ).take(k as int),
    decreases k,
{
    let all = applied_at_end(edits, applied, End::WriteAll);
    if k > 0 {
        let e = k - 1;
        law_replacing_all_is_the_same_everywhere(edits, applied, (k - 1) as nat);
        let mine = chosen(edits, all, e);
        assert(edits[e].wf());
        assert forall|m: int|
            0 <= m < sum_matches(edits[e].change_views()) implies mine.contains(m) by {
            law_entries_are_the_matches(edits, e, m, 0);
        }
        law_accepting_everything_gives_the_new_text(edits[e], mine);
        assert(edits[e].changes@.len() > 0);
        lemma_changed_files_have_matches(edits[e]);
        assert(mine.contains(0));
        assert(all_new_texts(edits).take(k as int) == all_new_texts(edits).take(k - 1).push(
            all_new_texts(edits)[k - 1],
        ));
    } else {
        assert(all_new_texts(edits).take(0) == Seq::<(int, Seq<char>)>::empty());
    }
}

/// How a run ends that does not go on in the full-screen view.
pub struct BatchEnd {
    pub writes: Vec<FileWrite>,
    /// What the user is told once the files are written.
    pub message: String,
}

impl Collected {
    /// Every change is to be made.
    pub fn replace_all(&self) -> (r: BatchEnd)
        ensures
            self.edits@.len() == 0 ==> r.writes@.len() == 0 && r.message@ == no_change_text(
                self.noop_total as nat,
            ),
            self.edits@.len() > 0 ==> write_views(r.writes@) == all_new_texts(self.edits@)
                && r.message@ == replaced_text(
                self.total as nat,
                self.edits@.len(),
                self.noop_total as nat,
            ),
    {
        let mut writes: Vec<FileWrite> = Vec::new();
        let n = self.edits.len();
        if n == 0 {
            return BatchEnd { writes, message: no_change_message(self.noop_total) };
        }
        let mut i: usize = 0;
        while i < n
            invariant
                i <= n == self.edits@.len(),
                write_views(writes@) == all_new_texts(self.edits@).take(i as int),
            decreases n - i,
        {
            let ghost before = write_views(writes@);
            writes.push(FileWrite { edit_idx: i, text: self.edits[i].new_text.clone() });
            proof {
                let all = all_new_texts(self.edits@);
                assert(write_views(writes@) == before.push(all[i as int]));
                assert(all.take(i + 1) == all.take(i as int).push(all[i as int]));
            }
            i = i + 1;
        }
        BatchEnd { writes, message: replaced_message(self.total, n, self.noop_total) }
    }
}

// What is shown before the user is asked.

/// The output for the first `k` files.
pub open spec fn plain_ops(edits: Seq<FileEdit>, cli: Cli, k: nat) -> Seq<OpView>
    decreases k,
{
    if k == 0 {
        seq![]
    } else {
        plain_ops(edits, cli, (k - 1) as nat) + if cli.compact {
            compact_ops(edits[k - 1], cli.preview)
        } else {
            preview_ops(edits[k - 1], cli.context as int, cli.preview)
        }
    }
}

/// The results are printed, and not shown in the full-screen view: they are taken to fit on a
/// screen of so many rows, or the full-screen view is not wanted.
pub open spec fn prints(edits: Seq<FileEdit>, cli: Cli, term_h: int) -> bool {
    cli.no_pager || all_rows(edits, cli.context as int, cli.preview) <= term_h
}

/// Where the full-screen view is not wanted, and not asked for as well, a search for a pattern
/// and a replacement never opens it: not for its results as they come in, not because they are
/// many, and not in answer to any key at the prompt.
pub proof fn law_no_pager_never_opens_the_view(
    cli: Cli,
    terminal: bool,
    edits: Seq<FileEdit>,
    term_h: int,
    key: Key,
)
    requires
        cli.no_pager,
        !cli.pager,
    ensures
        plan_of(cli, terminal) != Plan::Pager,
        prints(edits, cli, term_h),
        prompt_answer(key, cli.no_pager) != PromptStep::Chosen(PromptChoice::Edit),
{
}

/// How the results are shown.
pub enum Showing {
    /// There are none: the user is told, and that is all.
    Nothing(String),
    /// This is printed, and the user is asked.
    Plain(Vec<Op>),
    /// In the full-screen view.
    Pager,
}

impl Collected {
    /// Context that can be counted around every changed line, and rows that can be counted.
    pub open spec fn can_be_shown(&self, cli: Cli) -> bool {
        &&& forall|i: int|
            0 <= i < self.edits@.len() ==> context_fits(
                #[trigger] self.edits@[i],
                cli.context as int,
            )
        &&& all_rows(self.edits@, cli.context as int, cli.preview) <= usize::MAX
    }

    /// Settles how the results are shown on a screen of so many rows: where they are taken to
    /// fit, or the full-screen view is not wanted, they are printed.
    pub fn show(&self, cli: &Cli, term_h: usize) -> (r: Showing)
        requires
            self.wf(),
            self.can_be_shown(*cli),
        ensures
            match r {
                Showing::Nothing(message) => self.edits@.len() == 0 && message@ == no_change_text(
                    self.noop_total as nat,
                ),
                Showing::Plain(out) => {
                    &&& self.edits@.len() > 0
                    &&& prints(self.edits@, *cli, term_h as int)
                    &&& op_views(out@) == plain_ops(self.edits@, *cli, self.edits@.len())
                },
                Showing::Pager => {
                    &&& self.edits@.len() > 0
                    &&& !prints(self.edits@, *cli, term_h as int)
                },
            },
    {
        if self.edits.len() == 0 {
            return Showing::Nothing(no_change_message(self.noop_total));
        }
        let rows = estimate_output_lines(self.edits.as_slice(), cli);
        if cli.no_pager || rows <= term_h {
            Showing::Plain(self.print(cli))
        } else {
            Showing::Pager
        }
    }

    fn print(&self, cli: &Cli) -> (r: Vec<Op>)
        requires
            self.wf(),
            self.can_be_shown(*cli),
        ensures
            op_views(r@) == plain_ops(self.edits@, *cli, self.edits@.len()),
    {
        let mut out: Vec<Op> = Vec::new();
        let mut i: usize = 0;
        proof {
            assert(op_views(out@) == plain_ops(self.edits@, *cli, 0));
        }
        while i < self.edits.len()
            invariant
                i <= self.edits@.len(),
                self.wf(),
                self.can_be_shown(*cli),
                op_views(out@) == plain_ops(self.edits@, *cli, i as nat),
            decreases self.edits@.len() - i,
        {
            proof {
                assert(self.edits@[i as int].wf());
                lemma_wf_ascending(self.edits@[i as int]);
                lemma_lines_can_be_counted(self.edits@[i as int]);
            }
            if cli.compact {
                print_file_compact(&self.edits[i], cli.preview, &mut out);
            } else {
                print_file_preview(&self.edits[i], cli.context, cli.preview, &mut out);
            }
            i = i + 1;
        }
        out
    }

    /// How a run ends once the user has answered, unless they want to edit.
    pub fn answered(&self, choice: PromptChoice) -> (r: Option<BatchEnd>)
        requires
            self.edits@.len() > 0,
        ensures
            match choice {
                PromptChoice::ReplaceAll => r matches Some(end) && write_views(end.writes@)
                    == all_new_texts(self.edits@) && end.message@ == replaced_text(
                    self.total as nat,
                    self.edits@.len(),
                    self.noop_total as nat,
                ),
                PromptChoice::Quit => r matches Some(end) && end.writes@.len() == 0
                    && end.message@ == "Aborted."@,
                PromptChoice::Edit => r is None,
            },
    {
        match choice {
            PromptChoice::ReplaceAll => Some(self.replace_all()),
            PromptChoice::Quit => Some(
                BatchEnd { writes: Vec::new(), message: "Aborted.".to_owned() },
            ),
            PromptChoice::Edit => None,
        }
    }
}

proof fn lemma_lines_can_be_counted(edit: FileEdit)
    requires
        edit.wf(),
    ensures
        forall|i: int|
            0 <= i < edit.changes@.len() ==> (#[trigger] edit.changes@[i]).line_idx < usize::MAX,
{
    assert(edit.lines.len() == edit.lines@.len());
    assert forall|i: int|
        0 <= i < edit.changes@.len() implies (#[trigger] edit.changes@[i]).line_idx < usize::MAX by {
        assert(fits_line(edit.line_views(), edit.change_views()[i]));
    }
}

// What holds of a run.

/// Matches are listed where they are asked for or the output does not go to a terminal, and only
/// there; else every change is made where that is asked for, and else the full-screen view is
/// opened where that is asked for, and else the user is asked.
pub proof fn law_results_go_where_they_are_asked_for(cli: Cli, terminal: bool)
    ensures
        plan_of(cli, terminal) == Plan::List <==> cli.vimgrep || !terminal,
        plan_of(cli, terminal) == Plan::Apply <==> cli.yes && !cli.vimgrep && terminal,
        plan_of(cli, terminal) == Plan::Pager <==> cli.pager && !cli.yes && !cli.vimgrep
            && terminal,
        plan_of(cli, terminal) == Plan::Ask <==> !cli.pager && !cli.yes && !cli.vimgrep && terminal,
{
}

/// Of the files of a search, those with changes are kept, in their order, and no others; matches
/// that change nothing are counted in all of them.
pub proof fn law_files_with_changes_are_kept(edits: Seq<FileEdit>, edit: FileEdit)
    ensures
        with_changes(Seq::<FileEdit>::empty()).len() == 0,
        with_changes(edits.push(edit)) == if edit.changes@.len() > 0 {
            with_changes(edits).push(edit)
        } else {
            with_changes(edits)
        },
        all_noops(Seq::<FileEdit>::empty()) == 0,
        all_noops(edits.push(edit)) == all_noops(edits) + edit.noop_count,
        all_matches(Seq::<FileEdit>::empty()) == 0,
        all_matches(edits.push(edit)) == all_matches(edits) + sum_matches(edit.change_views()),
{
    assert(edits.push(edit).drop_last() == edits);
}

/// Where every change is made, each file is written once, in order, with its new text.
pub proof fn law_every_file_gets_its_new_text(edits: Seq<FileEdit>)
    ensures
        all_new_texts(edits).len() == edits.len(),
        forall|i: int|
            0 <= i < edits.len() ==> (#[trigger] all_new_texts(edits)[i]).0 == i
                && all_new_texts(edits)[i].1 == edits[i].new_text@,
{
}

/// Results are printed where the full-screen view is not wanted, and where the rows that they
/// are taken to need are no more than the screen has.
pub proof fn law_results_are_printed_where_they_fit(edits: Seq<FileEdit>, cli: Cli, term_h: int)
    ensures
        cli.no_pager ==> prints(edits, cli, term_h),
        !cli.no_pager ==> (prints(edits, cli, term_h) <==> term_h >= all_rows(
            edits,
            cli.context as int,
            cli.preview,
        )),
{
}

/// The message about a missing replacement.
pub proof fn law_missing_replacement_is_told()
    ensures
        missing_replacement() == "error: REPLACEMENT is required when PATTERN is given"@,
{
}

} // verus!
