//! What a search finds in one file, and what the file turns into.
use std::collections::HashMap;
use std::path::PathBuf;
use vstd::prelude::*;

use crate::engine::regex_spans;
use crate::lines::{are_lines, body_of, join, newline_of, string_views};
use crate::segments::{
    highlighted, matched_texts, replacement_texts, same_but_highlights, seg_text, seg_views,
    segments,
};
use crate::text::byte_len;

verus! {

broadcast use vstd::std_specs::hash::group_hash_axioms;

/// A path of the file system, which the library carries and does not look into.
#[verifier::external_type_specification]
#[verifier::external_body]
pub struct ExPathBuf(std::path::PathBuf);

/// Where a file lies: the path itself, how it is shown, and how its last component is shown,
/// where it has one.
pub struct SourcePath {
    pub path: PathBuf,
    pub display: String,
    pub file_name: Option<String>,
}

/// How a path is shown.
pub uninterp spec fn path_shown(path: PathBuf) -> Seq<char>;

/// How the last component of a path is shown, where it has one.
pub uninterp spec fn last_shown_name(path: PathBuf) -> Option<Seq<char>>;

/// Calls `Path::display` and writes out what it gives.
#[verifier::external_body]
fn show_path(path: &PathBuf) -> (r: String)
    ensures
        r@ == path_shown(*path),
{
    path.display().to_string()
}

/// Calls `Path::file_name` and writes out what it gives, with a mark in place of what is not
/// Unicode.
#[verifier::external_body]
fn show_last_name(path: &PathBuf) -> (r: Option<String>)
    ensures
        match r {
            Some(name) => last_shown_name(*path) == Some(name@),
            None => last_shown_name(*path) is None,
        },
{
    path.file_name().map(|name| name.to_string_lossy().into_owned())
}

impl SourcePath {
    /// A path with what is shown of it.
    pub fn new(path: PathBuf) -> (r: SourcePath)
        ensures
            r.path == path,
            r.display@ == path_shown(path),
            match r.file_name {
                Some(name) => last_shown_name(path) == Some(name@),
                None => last_shown_name(path) is None,
            },
    {
        let display = show_path(&path);
        let file_name = show_last_name(&path);
        SourcePath { path, display, file_name }
    }
}

/// What was found in one line.
pub struct LineMatch {
    pub orig_segments: Vec<(String, bool)>,
    pub new_segments: Vec<(String, bool)>,
    pub match_count: usize,
}

/// A line that a replacement changes.
pub struct Change {
    pub line_idx: usize,
    pub orig_segments: Vec<(String, bool)>,
    pub new_segments: Vec<(String, bool)>,
    pub match_count: usize,
}

/// A line with matches in it, whether or not a replacement changes it.
pub struct MatchedLine {
    pub line_idx: usize,
    pub orig_segments: Vec<(String, bool)>,
}

/// A file in which something was found.
pub struct FileEdit {
    pub path: SourcePath,
    pub lines: Vec<String>,
    pub matched: Vec<MatchedLine>,
    pub changes: Vec<Change>,
    pub new_text: String,
    pub noop_count: usize,
}

/// What was found in one line, as text.
#[verifier::ext_equal]
pub struct LineMatchView {
    pub orig: Seq<(Seq<char>, bool)>,
    pub new: Seq<(Seq<char>, bool)>,
    pub count: int,
}

/// A changed line, as text.
#[verifier::ext_equal]
pub struct ChangeView {
    pub line_idx: int,
    pub orig: Seq<(Seq<char>, bool)>,
    pub new: Seq<(Seq<char>, bool)>,
    pub match_count: int,
}

/// A line with matches in it, as text.
#[verifier::ext_equal]
pub struct MatchedView {
    pub line_idx: int,
    pub orig: Seq<(Seq<char>, bool)>,
}

impl View for MatchedLine {
    type V = MatchedView;

    open spec fn view(&self) -> MatchedView {
        MatchedView { line_idx: self.line_idx as int, orig: seg_views(self.orig_segments@) }
    }
}

impl View for LineMatch {
    type V = LineMatchView;

    open spec fn view(&self) -> LineMatchView {
        LineMatchView {
            orig: seg_views(self.orig_segments@),
            new: seg_views(self.new_segments@),
            count: self.match_count as int,
        }
    }
}

impl View for Change {
    type V = ChangeView;

    open spec fn view(&self) -> ChangeView {
        ChangeView {
            line_idx: self.line_idx as int,
            orig: seg_views(self.orig_segments@),
            new: seg_views(self.new_segments@),
            match_count: self.match_count as int,
        }
    }
}

/// The findings of a list of lines.
pub open spec fn match_views(list: Seq<Option<LineMatch>>) -> Seq<Option<LineMatchView>> {
    Seq::new(
        list.len(),
        |i: int|
            match list[i] {
                Some(m) => Some(m@),
                None => None,
            },
    )
}

/// A list of lines with matches in them.
pub open spec fn matched_views(list: Seq<MatchedLine>) -> Seq<MatchedView> {
    Seq::new(list.len(), |i: int| list[i]@)
}

/// A list of changes.
pub open spec fn change_views(list: Seq<Change>) -> Seq<ChangeView> {
    Seq::new(list.len(), |i: int| list[i]@)
}

// Single lines.

/// What a search finds in a line.
pub open spec fn line_match(
    source: (Seq<char>, bool),
    body: Seq<char>,
    replacement: Seq<char>,
    fixed: bool,
) -> Option<LineMatchView> {
    let spans = regex_spans(source, body);
    if spans.len() > 0 {
        Some(
            LineMatchView {
                orig: segments(body, spans, matched_texts(body, spans)),
                new: segments(body, spans, replacement_texts(source, body, replacement, fixed)),
                count: spans.len() as int,
            },
        )
    } else {
        None
    }
}

/// The replacement makes a difference to this line.
pub open spec fn differs(raw: Seq<char>, found: Option<LineMatchView>) -> bool {
    match found {
        Some(m) => seg_text(m.new) != body_of(raw),
        None => false,
    }
}

/// A line after the replacement.
pub open spec fn new_line(raw: Seq<char>, found: Option<LineMatchView>) -> Seq<char> {
    if differs(raw, found) {
        seg_text(found->0.new) + newline_of(raw)
    } else {
        raw
    }
}

/// The number of matches in a line.
pub open spec fn count_of(found: Option<LineMatchView>) -> int {
    match found {
        Some(m) => m.count,
        None => 0,
    }
}

// Whole files.

/// The lines with matches in them among the first `k`, in order.
pub open spec fn matched_upto(found: Seq<Option<LineMatchView>>, k: nat) -> Seq<MatchedView>
    decreases k,
{
    if k == 0 {
        seq![]
    } else {
        let before = matched_upto(found, (k - 1) as nat);
        match found[k - 1] {
            Some(m) => before.push(MatchedView { line_idx: k - 1, orig: m.orig }),
            None => before,
        }
    }
}

/// The changed lines among the first `k`, in order.
pub open spec fn changes_upto(
    lines: Seq<Seq<char>>,
    found: Seq<Option<LineMatchView>>,
    k: nat,
) -> Seq<ChangeView>
    decreases k,
{
    if k == 0 {
        seq![]
    } else {
        let before = changes_upto(lines, found, (k - 1) as nat);
        if differs(lines[k - 1], found[k - 1]) {
            let m = found[k - 1]->0;
            before.push(
                ChangeView { line_idx: k - 1, orig: m.orig, new: m.new, match_count: m.count },
            )
        } else {
            before
        }
    }
}

/// The matches among the first `k` lines whose replacement changes nothing.
pub open spec fn noops_upto(
    lines: Seq<Seq<char>>,
    found: Seq<Option<LineMatchView>>,
    k: nat,
) -> int
    decreases k,
{
    if k == 0 {
        0
    } else {
        noops_upto(lines, found, (k - 1) as nat) + if differs(lines[k - 1], found[k - 1]) {
            0
        } else {
            count_of(found[k - 1])
        }
    }
}

/// The matches among the first `k` lines.
pub open spec fn matches_upto(found: Seq<Option<LineMatchView>>, k: nat) -> int
    decreases k,
{
    if k == 0 {
        0
    } else {
        matches_upto(found, (k - 1) as nat) + count_of(found[k - 1])
    }
}

/// The lines after the replacement.
pub open spec fn new_lines(
    lines: Seq<Seq<char>>,
    found: Seq<Option<LineMatchView>>,
) -> Seq<Seq<char>> {
    Seq::new(lines.len(), |i: int| new_line(lines[i], found[i]))
}

/// The matches in a list of changes.
pub open spec fn sum_matches(changes: Seq<ChangeView>) -> int
    decreases changes.len(),
{
    if changes.len() == 0 {
        0
    } else {
        sum_matches(changes.drop_last()) + changes.last().match_count
    }
}

/// The matches in a list of lines.
pub open spec fn sum_matched(lines: Seq<MatchedView>) -> int
    decreases lines.len(),
{
    if lines.len() == 0 {
        0
    } else {
        sum_matched(lines.drop_last()) + highlighted(lines.last().orig).len()
    }
}

// Making some of the changes. The matches in the changed lines of a file are counted through,
// from the first match of the first changed line on.

/// The last of the first `k` changes that belongs to `line`.
pub open spec fn change_at(changes: Seq<ChangeView>, line: int, k: nat) -> Option<int>
    decreases k,
{
    if k == 0 {
        None
    } else if changes[k - 1].line_idx == line {
        Some(k - 1)
    } else {
        change_at(changes, line, (k - 1) as nat)
    }
}

/// The matches in the changes before one of them.
pub open spec fn matches_before(changes: Seq<ChangeView>, c: int) -> int {
    sum_matches(changes.take(c))
}

/// The matches in the segments before one of them.
pub open spec fn marks_before(segments: Seq<(Seq<char>, bool)>, i: int) -> int {
    highlighted(segments.take(i)).len() as int
}

/// The segments of a changed line with the accepted matches replaced, and the others as they
/// were. The first match of the line has the number `first`.
pub open spec fn picked(
    orig: Seq<(Seq<char>, bool)>,
    new: Seq<(Seq<char>, bool)>,
    accepted: Set<int>,
    first: int,
) -> Seq<Seq<char>> {
    Seq::new(
        new.len(),
        |i: int|
            if new[i].1 && !accepted.contains(first + marks_before(new, i)) {
                orig[i].0
            } else {
                new[i].0
            },
    )
}

/// A changed line with the accepted matches replaced.
pub open spec fn picked_text(changes: Seq<ChangeView>, c: int, accepted: Set<int>) -> Seq<char> {
    join(picked(changes[c].orig, changes[c].new, accepted, matches_before(changes, c)))
}

/// A line with the accepted matches replaced.
pub open spec fn accepted_line(
    lines: Seq<Seq<char>>,
    changes: Seq<ChangeView>,
    accepted: Set<int>,
    line: int,
) -> Seq<char> {
    match change_at(changes, line, changes.len()) {
        Some(c) => picked_text(changes, c, accepted) + newline_of(lines[line]),
        None => lines[line],
    }
}

/// The text of a file with the accepted matches replaced.
pub open spec fn accepted_text(
    lines: Seq<Seq<char>>,
    changes: Seq<ChangeView>,
    accepted: Set<int>,
) -> Seq<char> {
    join(Seq::new(lines.len(), |i: int| accepted_line(lines, changes, accepted, i)))
}

/// The numbers in a set, as mathematical integers.
pub open spec fn ints(s: Set<usize>) -> Set<int> {
    Set::new(|i: int| 0 <= i <= usize::MAX && s.contains(i as usize))
}

/// Lines with matches in them, in order, each as it is.
pub open spec fn fit_lines(lines: Seq<Seq<char>>, matched: Seq<MatchedView>) -> bool {
    &&& forall|i: int|
        0 <= i < matched.len() ==> 0 <= (#[trigger] matched[i]).line_idx < lines.len() && seg_text(
            matched[i].orig,
        ) == body_of(lines[matched[i].line_idx])
    &&& forall|i: int, j: int|
        #![trigger matched[i], matched[j]]
        0 <= i < j < matched.len() ==> matched[i].line_idx < matched[j].line_idx
}

/// The changes are in the order of their lines, at most one to a line.
pub open spec fn in_line_order(changes: Seq<ChangeView>) -> bool {
    forall|i: int, j: int|
        #![trigger changes[i], changes[j]]
        0 <= i < j < changes.len() ==> changes[i].line_idx < changes[j].line_idx
}

/// A change that goes with its line: it shows the line as it is and something else as the new
/// line, highlights as many places in both as it counts matches, and leaves all else as it was.
pub open spec fn fits_line(lines: Seq<Seq<char>>, change: ChangeView) -> bool {
    &&& 0 <= change.line_idx < lines.len()
    &&& seg_text(change.orig) == body_of(lines[change.line_idx])
    &&& seg_text(change.new) != body_of(lines[change.line_idx])
    &&& highlighted(change.orig).len() == change.match_count
    &&& highlighted(change.new).len() == change.match_count
    &&& same_but_highlights(change.orig, change.new)
    &&& change.match_count > 0
}

impl FileEdit {
    /// The lines of the file, as text.
    pub open spec fn line_views(&self) -> Seq<Seq<char>> {
        string_views(self.lines@)
    }

    /// The changed lines, as text.
    pub open spec fn change_views(&self) -> Seq<ChangeView> {
        change_views(self.changes@)
    }

    /// The lines with matches in them, as text.
    pub open spec fn matched_views(&self) -> Seq<MatchedView> {
        matched_views(self.matched@)
    }

    /// What holds of every file that a search hands out.
    pub open spec fn wf(&self) -> bool {
        let lines = self.line_views();
        let changes = self.change_views();
        &&& are_lines(lines)
        &&& byte_len(join(lines)) < usize::MAX
        &&& in_line_order(changes)
        &&& forall|i: int| 0 <= i < changes.len() ==> #[trigger] fits_line(lines, changes[i])
        &&& fit_lines(lines, self.matched_views())
        &&& sum_matched(self.matched_views()) == sum_matches(changes) + self.noop_count
        &&& self.new_text@ == accepted_text(lines, changes, Set::full())
        &&& sum_matches(changes) + self.noop_count <= usize::MAX
        &&& changes.len() > 0 || self.noop_count > 0
    }

    /// The number of matches whose replacement changes something.
    pub fn total_matches(&self) -> (r: usize)
        requires
            sum_matches(self.change_views()) <= usize::MAX,
        ensures
            r == sum_matches(self.change_views()),
    {
        let ghost changes = self.change_views();
        let mut total: usize = 0;
        let mut i: usize = 0;
        proof {
            assert(changes.take(0) == Seq::<ChangeView>::empty());
        }
        while i < self.changes.len()
            invariant
                changes == change_views(self.changes@),
                sum_matches(changes) <= usize::MAX,
                i <= self.changes@.len(),
                total == sum_matches(changes.take(i as int)),
            decreases self.changes@.len() - i,
        {
            proof {
                lemma_sum_take(change_views(self.changes@), i + 1);
                assert(changes.take(i + 1).drop_last() == changes.take(i as int));
                assert(changes.take(i + 1).last() == self.changes@[i as int]@);
            }
            total = total + self.changes[i].match_count;
            i = i + 1;
        }
        proof {
            assert(changes.take(changes.len() as int) == changes);
        }
        total
    }
}

/// Part of a list of changes holds no more matches than all of it.
pub proof fn lemma_sum_take(changes: Seq<ChangeView>, k: int)
    requires
        0 <= k <= changes.len(),
        forall|i: int| 0 <= i < changes.len() ==> (#[trigger] changes[i]).match_count >= 0,
    ensures
        0 <= sum_matches(changes.take(k)) <= sum_matches(changes),
    decreases changes.len(),
{
    if changes.len() == 0 {
        assert(changes.take(k) == changes);
    } else if k == changes.len() {
        let rest = changes.drop_last();
        assert(changes.take(k) == changes);
        lemma_sum_take(rest, rest.len() as int);
        assert(rest.take(rest.len() as int) == rest);
        assert(changes[changes.len() - 1].match_count >= 0);
    } else {
        let rest = changes.drop_last();
        lemma_sum_take(rest, k);
        assert(rest.take(k) == changes.take(k));
        assert(changes[changes.len() - 1].match_count >= 0);
    }
}

/// The matches before one change and in it are those before the next.
pub proof fn lemma_matches_before(changes: Seq<ChangeView>, c: int)
    requires
        0 <= c < changes.len(),
        forall|i: int| 0 <= i < changes.len() ==> (#[trigger] changes[i]).match_count >= 0,
    ensures
        matches_before(changes, c + 1) == matches_before(changes, c) + changes[c].match_count,
        0 <= matches_before(changes, c) <= matches_before(changes, c + 1) <= sum_matches(changes),
        matches_before(changes, 0) == 0,
        matches_before(changes, changes.len() as int) == sum_matches(changes),
{
    assert(changes.take(c + 1).drop_last() == changes.take(c));
    assert(changes.take(c + 1).last() == changes[c]);
    assert(changes.take(0) == Seq::<ChangeView>::empty());
    assert(changes.take(changes.len() as int) == changes);
    lemma_sum_take(changes, c);
    lemma_sum_take(changes, c + 1);
}

// Which change belongs to a line.

/// A table that tells which of the first `k` changes belongs to a line.
pub open spec fn tells_upto(table: Map<usize, usize>, changes: Seq<ChangeView>, k: nat) -> bool {
    forall|line: usize|
        #![trigger table.contains_key(line)]
        match change_at(changes, line as int, k) {
            Some(c) => table.contains_key(line) && table[line] == c && 0 <= c < k,
            None => !table.contains_key(line),
        }
}

/// A table that tells the change that belongs to a line.
pub open spec fn tells_changes(table: Map<usize, usize>, changes: Seq<ChangeView>) -> bool {
    tells_upto(table, changes, changes.len())
}

proof fn lemma_tells_more(table: Map<usize, usize>, changes: Seq<ChangeView>, c: usize, line: usize)
    requires
        c < changes.len(),
        changes[c as int].line_idx == line,
        tells_upto(table, changes, c as nat),
    ensures
        tells_upto(table.insert(line, c), changes, (c + 1) as nat),
{
    let now = table.insert(line, c);
    assert forall|x: usize|
        #![trigger now.contains_key(x)]
        match change_at(changes, x as int, (c + 1) as nat) {
            Some(k) => now.contains_key(x) && now[x] == k && 0 <= k < c + 1,
            None => !now.contains_key(x),
        } by {
        let earlier = change_at(changes, x as int, c as nat);
        assert(match earlier {
            Some(k) => table.contains_key(x) && table[x] == k && 0 <= k < c,
            None => !table.contains_key(x),
        });
        if x == line {
            assert(change_at(changes, x as int, (c + 1) as nat) == Some(c as int));
        } else {
            assert(change_at(changes, x as int, (c + 1) as nat) == earlier);
        }
    }
}

/// Makes a table that tells the change that belongs to a line.
pub fn index_changes(changes: &Vec<Change>) -> (r: HashMap<usize, usize>)
    ensures
        tells_changes(r@, change_views(changes@)),
{
    let ghost views = change_views(changes@);
    let mut table: HashMap<usize, usize> = HashMap::new();
    let mut c: usize = 0;
    while c < changes.len()
        invariant
            views == change_views(changes@),
            c <= changes@.len(),
            tells_upto(table@, views, c as nat),
        decreases changes@.len() - c,
    {
        proof {
            lemma_tells_more(table@, views, c, changes@[c as int].line_idx);
        }
        table.insert(changes[c].line_idx, c);
        c = c + 1;
    }
    table
}

} // verus!
