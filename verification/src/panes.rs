//! The two panes of the full-screen view: the list of matches, and the file around the selected
//! one.
use vstd::prelude::*;

use crate::cli::Preview;
use crate::edit::{fits_line, FileEdit};
use crate::found::{
    accepts, all_wf, entries_of, entry_views, law_entries_are_the_matches, lemma_offset_grows,
    offset, Found,
};
use crate::render::{
    change_rows, entry_row, law_change_is_shown_in_its_row, match_context, render_compact_entry,
    render_match_context,
};
use crate::style::{copy_row, row_views, Row, RowView};

verus! {

broadcast use vstd::std_specs::hash::group_hash_axioms;

/// Which match is selected, and how far the panes are scrolled.
pub struct Panes {
    /// Place of the selected match in the list.
    pub selected: usize,
    /// Place of the first match of the list that is shown.
    pub top_scroll: usize,
    /// The file around the selected match.
    pub bottom_lines: Vec<Row>,
    /// The place for which `bottom_lines` was made, unless it is to be made anew.
    pub last_selected: Option<usize>,
    /// The first row of `bottom_lines` that is shown.
    pub bottom_scroll: usize,
}

/// The two panes, with the text of their rows.
#[verifier::ext_equal]
pub struct PanesView {
    pub selected: int,
    pub top_scroll: int,
    pub rows: Seq<RowView>,
    pub shown: Option<int>,
    pub bottom_scroll: int,
}

impl View for Panes {
    type V = PanesView;

    open spec fn view(&self) -> PanesView {
        PanesView {
            selected: self.selected as int,
            top_scroll: self.top_scroll as int,
            rows: row_views(self.bottom_lines@),
            shown: match self.last_selected {
                Some(i) => Some(i as int),
                None => None,
            },
            bottom_scroll: self.bottom_scroll as int,
        }
    }
}

// Sizes.

pub open spec fn max(a: int, b: int) -> int {
    if a > b {
        a
    } else {
        b
    }
}

pub open spec fn min(a: int, b: int) -> int {
    if a < b {
        a
    } else {
        b
    }
}

/// The rows that are not for the panes: the status below them, with a line above it, and the
/// lines of input, where there are any.
pub open spec fn overhead(in_edit: bool) -> int {
    if in_edit {
        4
    } else {
        2
    }
}

/// The height of the upper pane: a third of what there is, but at least three rows, and no
/// more than leaves three for the lower one.
pub open spec fn top_height(total_h: int, in_edit: bool) -> int {
    let available = max(total_h - overhead(in_edit), 0);
    min(max(available / 3, 3), max(available - 3, 3))
}

/// The height of the lower pane: what is left, apart from the line between the panes.
pub open spec fn bottom_height(total_h: int, in_edit: bool) -> int {
    max(max(total_h - overhead(in_edit), 0) - top_height(total_h, in_edit) - 1, 0)
}

/// The panes, the line between them and the rest fill the screen, unless it is very small.
pub proof fn law_panes_fill_the_screen(total_h: int, in_edit: bool)
    requires
        total_h >= overhead(in_edit) + 4,
    ensures
        top_height(total_h, in_edit) >= 3,
        overhead(in_edit) + top_height(total_h, in_edit) + 1 + bottom_height(total_h, in_edit)
            == total_h,
{
}

/// The heights of the upper and the lower pane.
pub fn pane_heights(total_h: usize, in_edit: bool) -> (r: (usize, usize))
    ensures
        r.0 == top_height(total_h as int, in_edit),
        r.1 == bottom_height(total_h as int, in_edit),
{
    let input_rows: usize = if in_edit {
        2
    } else {
        0
    };
    let available = total_h.saturating_sub(input_rows + 2);
    let third = if available / 3 > 3 {
        available / 3
    } else {
        3
    };
    let most = if available.saturating_sub(3) > 3 {
        available - 3
    } else {
        3
    };
    let top_h = if third < most {
        third
    } else {
        most
    };
    (top_h, available.saturating_sub(top_h).saturating_sub(1))
}

// What the keys do.

/// Nothing selected yet, nothing scrolled.
pub open spec fn fresh_panes() -> PanesView {
    PanesView { selected: 0, top_scroll: 0, rows: seq![], shown: None, bottom_scroll: 0 }
}

/// Another match is selected.
pub open spec fn selecting(p: PanesView, i: int) -> PanesView {
    PanesView { selected: i, shown: None, ..p }
}

/// The match above is selected.
pub open spec fn up(p: PanesView) -> PanesView {
    if p.selected > 0 {
        selecting(p, p.selected - 1)
    } else {
        p
    }
}

/// The match below is selected.
pub open spec fn down(p: PanesView, n: nat) -> PanesView {
    if p.selected + 1 < n {
        selecting(p, p.selected + 1)
    } else {
        p
    }
}

/// The lower pane is scrolled down. How far it can go is seen to when it is shown.
pub open spec fn scrolled_down(p: PanesView, by: int) -> PanesView {
    PanesView { bottom_scroll: min(p.bottom_scroll + by, usize::MAX as int), ..p }
}

/// The lower pane is scrolled up.
pub open spec fn scrolled_up(p: PanesView, by: int) -> PanesView {
    PanesView { bottom_scroll: max(p.bottom_scroll - by, 0), ..p }
}

/// The lower pane is scrolled to its start.
pub open spec fn scrolled_home(p: PanesView) -> PanesView {
    PanesView { bottom_scroll: 0, ..p }
}

/// The lower pane is scrolled to its end.
pub open spec fn scrolled_end(p: PanesView, height: int) -> PanesView {
    PanesView { bottom_scroll: max(p.rows.len() - height, 0), ..p }
}

/// The first match of the next file that has one.
pub open spec fn next_file(edits: Seq<FileEdit>, i: int) -> Option<int> {
    let after = offset(edits, entries_of(edits)[i].0 + 1);
    if after < entries_of(edits).len() {
        Some(after)
    } else {
        None
    }
}

/// The first match of the file before that has one.
pub open spec fn prev_file(edits: Seq<FileEdit>, i: int) -> Option<int> {
    let start = offset(edits, entries_of(edits)[i].0);
    if start > 0 {
        Some(offset(edits, entries_of(edits)[start - 1].0))
    } else {
        None
    }
}

/// The match that a jump leads to is selected.
pub open spec fn jumped(p: PanesView, n: nat, to: Option<int>) -> PanesView {
    match to {
        Some(i) => if 0 <= p.selected < n {
            selecting(p, i)
        } else {
            p
        },
        None => p,
    }
}

/// A step up undoes a step down, and the other way round.
pub proof fn law_up_and_down_undo_each_other(p: PanesView, n: nat)
    requires
        p.selected >= 0,
    ensures
        p.selected + 1 < n ==> up(down(p, n)).selected == p.selected,
        0 < p.selected < n ==> down(up(p), n).selected == p.selected,
{
}

/// A jump to the next file leads to the first match of a later file, and every match in between
/// is one of this file.
pub proof fn law_next_file_is_the_next(edits: Seq<FileEdit>, i: int)
    requires
        0 <= i < entries_of(edits).len(),
    ensures
        match next_file(edits, i) {
            Some(to) => i < to < entries_of(edits).len() && entries_of(edits)[to].2 == 0
                && entries_of(edits)[to].0 > entries_of(edits)[i].0 && forall|j: int|
                i <= j < to ==> (#[trigger] entries_of(edits)[j]).0 == entries_of(edits)[i].0,
            None => forall|j: int|
                i <= j < entries_of(edits).len() ==> (#[trigger] entries_of(edits)[j]).0
                    == entries_of(edits)[i].0,
        },
{
    let entries = entries_of(edits);
    let (e, c, m) = entries[i];
    let after = offset(edits, e + 1);
    law_entries_are_the_matches(edits, 0, 0, i);
    assert forall|j: int| i <= j < entries.len() && j < after implies (#[trigger] entries[j]).0
        == e by {
        lemma_file_of(edits, i, j);
    }
    if after < entries.len() {
        law_entries_are_the_matches(edits, 0, 0, after);
        let (x, y, z) = entries[after];
        if x <= e {
            lemma_offset_grows(edits, x, e + 1);
        } else {
            lemma_offset_grows(edits, e + 1, x);
        }
    }
}

/// A jump to the file before leads to the first match of an earlier file, and every match in
/// between is one of that file or of this one.
pub proof fn law_prev_file_is_the_one_before(edits: Seq<FileEdit>, i: int)
    requires
        0 <= i < entries_of(edits).len(),
    ensures
        match prev_file(edits, i) {
            Some(to) => 0 <= to < i && entries_of(edits)[to].2 == 0 && entries_of(edits)[to].0
                < entries_of(edits)[i].0 && forall|j: int|
                to <= j <= i ==> (#[trigger] entries_of(edits)[j]).0 == entries_of(edits)[to].0
                    || entries_of(edits)[j].0 == entries_of(edits)[i].0,
            None => forall|j: int|
                0 <= j <= i ==> (#[trigger] entries_of(edits)[j]).0 == entries_of(edits)[i].0,
        },
{
    let entries = entries_of(edits);
    let (e, c, m) = entries[i];
    let start = offset(edits, e);
    law_entries_are_the_matches(edits, 0, 0, i);
    lemma_offset_grows(edits, 0, e);
    assert forall|j: int| start <= j <= i implies (#[trigger] entries[j]).0 == e by {
        lemma_file_of(edits, i, j);
    }
    if start > 0 {
        let (p, q, r) = entries[start - 1];
        let to = offset(edits, p);
        law_entries_are_the_matches(edits, 0, 0, start - 1);
        law_entries_are_the_matches(edits, p, 0, 0);
        lemma_offset_grows(edits, 0, p);
        if p >= e {
            lemma_offset_grows(edits, e, p);
        }
        assert forall|j: int| to <= j <= i implies (#[trigger] entries[j]).0 == p || entries[j].0
            == e by {
            if j < start {
                lemma_file_of(edits, start - 1, j);
            }
        }
    }
}

/// What lies between the start and the end of a file belongs to it, and nothing else does.
proof fn lemma_file_of(edits: Seq<FileEdit>, i: int, j: int)
    requires
        0 <= i < entries_of(edits).len(),
        0 <= j < entries_of(edits).len(),
    ensures
        ({
            let e = entries_of(edits)[i].0;
            &&& entries_of(edits)[j].0 == e <==> offset(edits, e) <= j < offset(edits, e + 1)
            &&& entries_of(edits)[j].0 < e <==> j < offset(edits, e)
            &&& offset(edits, e) <= i < offset(edits, e + 1)
        }),
{
    law_entries_are_the_matches(edits, 0, 0, i);
    law_entries_are_the_matches(edits, 0, 0, j);
    let e = entries_of(edits)[i].0;
    let x = entries_of(edits)[j].0;
    lemma_offset_grows(edits, e, e + 1);
    if x < e {
        lemma_offset_grows(edits, x, e);
    } else if x > e {
        lemma_offset_grows(edits, e + 1, x);
    }
}

impl Found {
    /// The place of the first match of the file that a match belongs to.
    fn file_start(&self, i: usize) -> (r: usize)
        requires
            self.wf(),
            i < self.match_list@.len(),
        ensures
            r == offset(self@.edits, entries_of(self@.edits)[i as int].0),
            r <= i,
    {
        let ghost edits = self.all_edits@;
        let ghost entries = entries_of(edits);
        let file = self.match_list[i].edit_idx;
        let mut k: usize = i;
        proof {
            assert(entry_views(self.match_list@)[i as int] == entries[i as int]);
            lemma_file_of(edits, i as int, i as int);
        }
        while k > 0 && self.match_list[k - 1].edit_idx >= file
            invariant
                k <= i < self.match_list@.len(),
                entries == entry_views(self.match_list@),
                entries == entries_of(edits),
                entries[i as int].0 == file,
                offset(edits, file as int) <= k,
            decreases k,
        {
            proof {
                lemma_file_of(edits, i as int, k - 1);
                assert(entries[k - 1].0 == self.match_list@[k - 1].edit_idx);
            }
            k = k - 1;
        }
        proof {
            if k > 0 {
                lemma_file_of(edits, i as int, k - 1);
                assert(entries[k - 1].0 == self.match_list@[k - 1].edit_idx);
            }
        }
        k
    }

    /// The place after the last match of the file that a match belongs to.
    fn file_end(&self, i: usize) -> (r: usize)
        requires
            self.wf(),
            i < self.match_list@.len(),
        ensures
            r == offset(self@.edits, entries_of(self@.edits)[i as int].0 + 1),
            r <= self.match_list@.len(),
    {
        let ghost edits = self.all_edits@;
        let ghost entries = entries_of(edits);
        let file = self.match_list[i].edit_idx;
        let n = self.match_list.len();
        let mut k: usize = i;
        proof {
            assert(entry_views(self.match_list@)[i as int] == entries[i as int]);
            lemma_file_of(edits, i as int, i as int);
        }
        while k < n && self.match_list[k].edit_idx <= file
            invariant
                i <= k <= n,
                i < n == self.match_list@.len(),
                entries == entry_views(self.match_list@),
                entries == entries_of(edits),
                entries[i as int].0 == file,
                k <= offset(edits, file + 1),
            decreases n - k,
        {
            proof {
                lemma_file_of(edits, i as int, k as int);
                assert(entries[k as int].0 == self.match_list@[k as int].edit_idx);
                lemma_file_of(edits, i as int, i as int);
            }
            k = k + 1;
        }
        proof {
            law_entries_are_the_matches(edits, 0, 0, i as int);
            lemma_offset_grows(edits, file + 1, edits.len() as int);
            if k < n {
                lemma_file_of(edits, i as int, k as int);
                assert(entries[k as int].0 == self.match_list@[k as int].edit_idx);
            }
        }
        k
    }
}

impl Panes {
    /// A place of the list is selected, or the first where the list is empty.
    pub open spec fn wf(&self, n: nat) -> bool {
        self.selected < n || self.selected == 0
    }

    /// Nothing selected yet, nothing scrolled.
    pub fn new() -> (r: Panes)
        ensures
            r@ == fresh_panes(),
    {
        let r = Panes {
            selected: 0,
            top_scroll: 0,
            bottom_lines: Vec::new(),
            last_selected: None,
            bottom_scroll: 0,
        };
        proof {
            assert(r@ == fresh_panes());
        }
        r
    }

    /// Selects another match.
    fn select(&mut self, i: usize)
        ensures
            final(self)@ == selecting(old(self)@, i as int),
    {
        self.selected = i;
        self.last_selected = None;
    }

    /// Selects the match above.
    pub fn move_up(&mut self)
        ensures
            final(self)@ == up(old(self)@),
    {
        if self.selected > 0 {
            self.select(self.selected - 1);
        }
    }

    /// Selects the match below, in a list of so many.
    pub fn move_down(&mut self, n: usize)
        ensures
            final(self)@ == down(old(self)@, n as nat),
    {
        if n > 0 && self.selected < n - 1 {
            self.select(self.selected + 1);
        }
    }

    /// Selects the first match.
    pub fn move_first(&mut self)
        ensures
            final(self)@ == selecting(old(self)@, 0),
    {
        self.select(0);
    }

    /// Selects the last match of a list of so many.
    pub fn move_last(&mut self, n: usize)
        ensures
            final(self)@ == if n > 0 {
                selecting(old(self)@, n - 1)
            } else {
                old(self)@
            },
    {
        if n > 0 {
            self.select(n - 1);
        }
    }

    /// Selects the first match of the next file.
    pub fn jump_next(&mut self, found: &Found)
        requires
            found.wf(),
        ensures
            final(self)@ == jumped(
                old(self)@,
                entries_of(found@.edits).len(),
                next_file(found@.edits, old(self)@.selected),
            ),
    {
        let n = found.match_list.len();
        proof {
            assert(entry_views(found.match_list@).len() == n);
        }
        if self.selected < n {
            let after = found.file_end(self.selected);
            if after < n {
                self.select(after);
            }
        }
    }

    /// Selects the first match of the file before.
    pub fn jump_prev(&mut self, found: &Found)
        requires
            found.wf(),
        ensures
            final(self)@ == jumped(
                old(self)@,
                entries_of(found@.edits).len(),
                prev_file(found@.edits, old(self)@.selected),
            ),
    {
        let n = found.match_list.len();
        proof {
            assert(entry_views(found.match_list@).len() == n);
        }
        if self.selected < n {
            let start = found.file_start(self.selected);
            if start > 0 {
                self.select(found.file_start(start - 1));
            }
        }
    }

    /// Scrolls the lower pane down.
    pub fn scroll_down(&mut self, by: usize)
        ensures
            final(self)@ == scrolled_down(old(self)@, by as int),
    {
        self.bottom_scroll = self.bottom_scroll.saturating_add(by);
    }

    /// Scrolls the lower pane up.
    pub fn scroll_up(&mut self, by: usize)
        ensures
            final(self)@ == scrolled_up(old(self)@, by as int),
    {
        self.bottom_scroll = self.bottom_scroll.saturating_sub(by);
    }

    /// Scrolls the lower pane to its start.
    pub fn scroll_home(&mut self)
        ensures
            final(self)@ == scrolled_home(old(self)@),
    {
        self.bottom_scroll = 0;
    }

    /// Scrolls the lower pane to its end.
    pub fn scroll_end(&mut self, height: usize)
        ensures
            final(self)@ == scrolled_end(old(self)@, height as int),
    {
        self.bottom_scroll = self.bottom_lines.len().saturating_sub(height);
    }
}

// What is shown.

/// The selected place, pulled back into a list of so many.
pub open spec fn settled_selection(p: PanesView, n: nat) -> int {
    if 0 < n <= p.selected {
        n - 1
    } else {
        p.selected
    }
}

/// The first place of the list that is shown: as before, unless the selected one would not be
/// seen then.
pub open spec fn settled_top(p: PanesView, n: nat, top_h: int) -> int {
    let selected = settled_selection(p, n);
    let top = min(p.top_scroll, selected);
    if 0 < top_h && 0 < n && top + top_h <= selected {
        selected + 1 - top_h
    } else {
        top
    }
}

/// The panes as they are shown. The lower one is made anew where another match is selected, or
/// where there is a match to show and nothing is shown yet; it starts a row above the changed
/// line then.
pub open spec fn settled(
    p: PanesView,
    edits: Seq<FileEdit>,
    preview: Preview,
    top_h: int,
    bottom_h: int,
) -> PanesView {
    let n = entries_of(edits).len();
    let selected = settled_selection(p, n);
    let top_scroll = settled_top(p, n, top_h);
    if p.shown == Some(selected) && !(p.rows.len() == 0 && selected < n) {
        PanesView {
            selected,
            top_scroll,
            bottom_scroll: min(p.bottom_scroll, max(p.rows.len() - bottom_h, 0)),
            ..p
        }
    } else if selected < n {
        let (e, c, m) = entries_of(edits)[selected];
        PanesView {
            selected,
            top_scroll,
            rows: match_context(edits[e], c, preview),
            shown: Some(selected),
            bottom_scroll: max(edits[e].change_views()[c].line_idx - 1, 0),
        }
    } else {
        PanesView {
            selected,
            top_scroll,
            rows: seq![],
            shown: Some(selected),
            bottom_scroll: 0,
        }
    }
}

/// An entry of the list as it is shown.
pub open spec fn list_row(
    edits: Seq<FileEdit>,
    applied: Set<usize>,
    selected: int,
    preview: Preview,
    i: int,
) -> RowView {
    let (e, c, m) = entries_of(edits)[i];
    entry_row(
        edits[e].path,
        edits[e].change_views()[c],
        preview,
        i == selected,
        accepts(applied, i),
    )
}

/// The part of the list that is shown.
pub open spec fn list_rows(
    edits: Seq<FileEdit>,
    applied: Set<usize>,
    p: PanesView,
    preview: Preview,
    top_h: int,
) -> Seq<RowView> {
    let end = min(entries_of(edits).len() as int, p.top_scroll + top_h);
    Seq::new(
        (end - p.top_scroll) as nat,
        |k: int| list_row(edits, applied, p.selected, preview, p.top_scroll + k),
    )
}

/// The part of the lower pane that is shown.
pub open spec fn bottom_rows(p: PanesView, bottom_h: int) -> Seq<RowView> {
    p.rows.subrange(
        p.bottom_scroll,
        min(p.rows.len() as int, p.bottom_scroll + bottom_h),
    )
}

/// As they are shown, the panes are scrolled to places that there are, and the selected match is
/// among those of the list that are seen.
pub proof fn law_selected_match_is_seen(
    p: PanesView,
    edits: Seq<FileEdit>,
    preview: Preview,
    top_h: int,
    bottom_h: int,
)
    requires
        all_wf(edits),
        p.selected >= 0,
        p.top_scroll >= 0,
        p.bottom_scroll >= 0,
        top_h > 0,
        bottom_h >= 0,
    ensures
        ({
            let s = settled(p, edits, preview, top_h, bottom_h);
            let n = entries_of(edits).len();
            &&& 0 <= s.bottom_scroll <= s.rows.len()
            &&& n > 0 ==> 0 <= s.top_scroll <= s.selected < n && s.selected < s.top_scroll + top_h
        }),
{
    let n = entries_of(edits).len();
    let selected = settled_selection(p, n);
    if selected < n {
        law_entries_are_the_matches(edits, 0, 0, selected);
        let (e, c, m) = entries_of(edits)[selected];
        assert(edits[e].wf());
        assert(fits_line(edits[e].line_views(), edits[e].change_views()[c]));
        law_change_is_shown_in_its_row(edits[e], c, preview);
    }
}

/// Where the lower pane is made anew, the changed line is seen in it.
pub proof fn law_selected_change_is_seen(
    p: PanesView,
    edits: Seq<FileEdit>,
    preview: Preview,
    top_h: int,
    bottom_h: int,
)
    requires
        all_wf(edits),
        p.selected >= 0,
        entries_of(edits).len() > 0,
        p.shown != Some(settled_selection(p, entries_of(edits).len())),
        bottom_h >= 3,
    ensures
        ({
            let s = settled(p, edits, preview, top_h, bottom_h);
            let (e, c, m) = entries_of(edits)[s.selected];
            let change = edits[e].change_views()[c];
            let seen = bottom_rows(s, bottom_h);
            let at = change.line_idx + 1 - s.bottom_scroll;
            &&& s.rows == match_context(edits[e], c, preview)
            &&& 0 <= at < seen.len()
            &&& seen[at] == change_rows(change, preview)[0]
        }),
{
    let n = entries_of(edits).len();
    let selected = settled_selection(p, n);
    law_entries_are_the_matches(edits, 0, 0, selected);
    let (e, c, m) = entries_of(edits)[selected];
    let change = edits[e].change_views()[c];
    assert(edits[e].wf());
    assert(fits_line(edits[e].line_views(), edits[e].change_views()[c]));
    law_change_is_shown_in_its_row(edits[e], c, preview);
    let rows = match_context(edits[e], c, preview);
    let own = change_rows(change, preview);
    assert(rows.subrange(change.line_idx + 1, change.line_idx + 1 + own.len())[0] == own[0]);
}

impl Panes {
    /// Makes the panes ready to be shown.
    pub fn settle(&mut self, found: &Found, preview: Preview, top_h: usize, bottom_h: usize)
        requires
            found.wf(),
        ensures
            final(self)@ == settled(
                old(self)@,
                found@.edits,
                preview,
                top_h as int,
                bottom_h as int,
            ),
    {
        let n = found.match_list.len();
        proof {
            assert(entry_views(found.match_list@).len() == n);
        }
        if n > 0 && self.selected >= n {
            self.selected = n - 1;
        }
        if self.selected < self.top_scroll {
            self.top_scroll = self.selected;
        }
        if top_h > 0 && n > 0 && self.selected - self.top_scroll >= top_h {
            self.top_scroll = self.selected - (top_h - 1);
        }
        let last = self.bottom_lines.len().saturating_sub(bottom_h);
        if self.bottom_scroll > last {
            self.bottom_scroll = last;
        }
        let selected = self.selected;
        let same = match self.last_selected {
            Some(i) => i == selected,
            None => false,
        };
        if same && !(self.bottom_lines.len() == 0 && selected < n) {
            return;
        }
        self.last_selected = Some(selected);
        if selected < n {
            let entry = found.match_list[selected];
            proof {
                assert(entry_views(found.match_list@)[selected as int] == (
                    entry.edit_idx as int,
                    entry.change_idx as int,
                    entry.match_idx as int,
                ));
                law_entries_are_the_matches(found.all_edits@, 0, 0, selected as int);
                assert(found.all_edits@[entry.edit_idx as int].wf());
                let edit = found.all_edits@[entry.edit_idx as int];
                assert(fits_line(
                    edit.line_views(),
                    edit.change_views()[entry.change_idx as int],
                ));
            }
            let edit = &found.all_edits[entry.edit_idx];
            self.bottom_lines = render_match_context(edit, entry.change_idx, preview);
            self.bottom_scroll = edit.changes[entry.change_idx].line_idx.saturating_sub(1);
        } else {
            self.bottom_lines = Vec::new();
            self.bottom_scroll = 0;
            proof {
                assert(self@.rows == Seq::<RowView>::empty());
            }
        }
    }

    /// The part of the list that is shown.
    pub fn show_list(&self, found: &Found, preview: Preview, top_h: usize) -> (r: Vec<Row>)
        requires
            found.wf(),
            self.top_scroll <= found.match_list@.len(),
        ensures
            row_views(r@) == list_rows(
                found@.edits,
                found@.applied,
                self@,
                preview,
                top_h as int,
            ),
    {
        let n = found.match_list.len();
        let ghost edits = found@.edits;
        proof {
            assert(entry_views(found.match_list@).len() == n);
        }
        let end = if n - self.top_scroll > top_h {
            self.top_scroll + top_h
        } else {
            n
        };
        let mut rows: Vec<Row> = Vec::new();
        let mut i: usize = self.top_scroll;
        while i < end
            invariant
                self.top_scroll <= i <= end <= n,
                n == found.match_list@.len(),
                found.wf(),
                edits == found@.edits,
                row_views(rows@) == Seq::new(
                    (i - self.top_scroll) as nat,
                    |k: int|
                        list_row(
                            edits,
                            found@.applied,
                            self.selected as int,
                            preview,
                            self.top_scroll + k,
                        ),
                ),
            decreases end - i,
        {
            let entry = found.match_list[i];
            proof {
                assert(entry_views(found.match_list@)[i as int] == (
                    entry.edit_idx as int,
                    entry.change_idx as int,
                    entry.match_idx as int,
                ));
                law_entries_are_the_matches(edits, 0, 0, i as int);
                let edit = edits[entry.edit_idx as int];
                assert(edit.wf());
                assert(edit.lines.len() == edit.lines@.len());
                assert(fits_line(
                    edit.line_views(),
                    edit.change_views()[entry.change_idx as int],
                ));
            }
            let edit = &found.all_edits[entry.edit_idx];
            let r = render_compact_entry(
                &edit.path,
                &edit.changes[entry.change_idx],
                preview,
                i == self.selected,
                found.applied.contains(&i),
            );
            let ghost before = row_views(rows@);
            rows.push(r);
            proof {
                assert(row_views(rows@) == before.push(r@));
                assert(r@ == list_row(
                    edits,
                    found@.applied,
                    self.selected as int,
                    preview,
                    i as int,
                ));
                assert(row_views(rows@) == Seq::new(
                    (i + 1 - self.top_scroll) as nat,
                    |k: int|
                        list_row(
                            edits,
                            found@.applied,
                            self.selected as int,
                            preview,
                            self.top_scroll + k,
                        ),
                ));
            }
            i = i + 1;
        }
        rows
    }

    /// The part of the lower pane that is shown.
    pub fn show_bottom(&self, bottom_h: usize) -> (r: Vec<Row>)
        requires
            self.bottom_scroll <= self.bottom_lines@.len(),
        ensures
            row_views(r@) == bottom_rows(self@, bottom_h as int),
    {
        let n = self.bottom_lines.len();
        let end = if n - self.bottom_scroll > bottom_h {
            self.bottom_scroll + bottom_h
        } else {
            n
        };
        let mut rows: Vec<Row> = Vec::new();
        let mut i: usize = self.bottom_scroll;
        while i < end
            invariant
                self.bottom_scroll <= i <= end <= n,
                n == self.bottom_lines@.len(),
                row_views(rows@) == row_views(self.bottom_lines@).subrange(
                    self.bottom_scroll as int,
                    i as int,
                ),
            decreases end - i,
        {
            let r = copy_row(&self.bottom_lines[i]);
            let ghost before = row_views(rows@);
            rows.push(r);
            proof {
                let all = row_views(self.bottom_lines@);
                assert(row_views(rows@) == before.push(r@));
                assert(all.subrange(self.bottom_scroll as int, i + 1) == all.subrange(
                    self.bottom_scroll as int,
                    i as int,
                ).push(all[i as int]));
            }
            i = i + 1;
        }
        rows
    }
}

} // verus!
