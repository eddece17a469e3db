//! Which lines of a file are shown together.
use vstd::prelude::*;

use crate::cli::{Cli, Preview};
use crate::edit::{fits_line, Change, FileEdit};

verus! {

/// A run of lines, from `start` up to and with `end`.
#[derive(Clone, Copy, Debug, PartialEq, Eq, Structural)]
pub struct Hunk {
    pub start: usize,
    pub end: usize,
}

/// Runs of lines as pairs of mathematical integers.
pub open spec fn hunk_views(list: Seq<Hunk>) -> Seq<(int, int)> {
    Seq::new(list.len(), |i: int| (list[i].start as int, list[i].end as int))
}

/// The first line shown for a change in `line`.
pub open spec fn first_shown(line: int, context: int) -> int {
    if line > context {
        line - context
    } else {
        0
    }
}

/// The last line shown for a change in `line`.
pub open spec fn last_shown(line: int, context: int, total: int) -> int {
    let end = if total > 0 {
        total - 1
    } else {
        0
    };
    if line + context < end {
        line + context
    } else {
        end
    }
}

/// The runs of lines for the first `k` changes: a change whose lines touch the run before it, or
/// overlap with it, makes that run longer.
pub open spec fn hunks_upto(lines: Seq<int>, context: int, total: int, k: nat) -> Seq<(int, int)>
    decreases k,
{
    if k == 0 {
        seq![]
    } else {
        let before = hunks_upto(lines, context, total, (k - 1) as nat);
        let start = first_shown(lines[k - 1], context);
        let end = last_shown(lines[k - 1], context, total);
        if before.len() > 0 && start <= before.last().1 + 1 {
            let last = before.last();
            before.drop_last().push(
                (
                    last.0,
                    if last.1 > end {
                        last.1
                    } else {
                        end
                    },
                ),
            )
        } else {
            before.push((start, end))
        }
    }
}

/// The lines of a list of changes.
pub open spec fn changed_lines(changes: Seq<Change>) -> Seq<int> {
    Seq::new(changes.len(), |i: int| changes[i].line_idx as int)
}

/// The runs of lines that are shown for a list of changes.
pub open spec fn hunks_of(changes: Seq<Change>, context: int, total: int) -> Seq<(int, int)> {
    hunks_upto(changed_lines(changes), context, total, changes.len())
}

/// A line of the file within `context` lines of one of the first `k` changed lines.
pub open spec fn near_change(lines: Seq<int>, context: int, total: int, k: int, x: int) -> bool {
    &&& 0 <= x < total
    &&& exists|i: int| 0 <= i < k && #[trigger] lines[i] - context <= x <= lines[i] + context
}

/// A line of one of the runs.
pub open spec fn in_hunks(hunks: Seq<(int, int)>, x: int) -> bool {
    exists|i: int| 0 <= i < hunks.len() && (#[trigger] hunks[i]).0 <= x <= hunks[i].1
}

/// The runs lie in the file, in order, and there is at least one line between any two.
pub open spec fn apart(hunks: Seq<(int, int)>, total: int) -> bool {
    &&& forall|i: int|
        0 <= i < hunks.len() ==> 0 <= (#[trigger] hunks[i]).0 <= hunks[i].1 < total
    &&& forall|i: int, j: int|
        #![trigger hunks[i], hunks[j]]
        0 <= i < j < hunks.len() ==> hunks[i].1 + 1 < hunks[j].0
}

/// Lines of a file in ascending order, some of them perhaps more than once.
pub open spec fn ascending(lines: Seq<int>, total: int) -> bool {
    &&& forall|i: int| 0 <= i < lines.len() ==> 0 <= #[trigger] lines[i] < total
    &&& forall|i: int, j: int|
        #![trigger lines[i], lines[j]]
        0 <= i < j < lines.len() ==> lines[i] <= lines[j]
}

/// No line stands twice in a list of lines in ascending order.
pub open spec fn each_once(lines: Seq<int>) -> bool {
    forall|i: int, j: int|
        #![trigger lines[i], lines[j]]
        0 <= i < j < lines.len() ==> lines[i] < lines[j]
}

proof fn lemma_hunks(lines: Seq<int>, context: int, total: int, k: nat)
    requires
        ascending(lines, total),
        context >= 0,
        k <= lines.len(),
    ensures
        ({
            let h = hunks_upto(lines, context, total, k);
            &&& apart(h, total)
            &&& h.len() <= k
            &&& forall|x: int| in_hunks(h, x) <==> near_change(lines, context, total, k as int, x)
            &&& k > 0 ==> h.len() > 0 && h.last().1 == last_shown(lines[k - 1], context, total)
                && h.last().0 <= first_shown(lines[k - 1], context)
        }),
    decreases k,
{
    if k > 0 {
        let j = (k - 1) as nat;
        lemma_hunks(lines, context, total, j);
        let before = hunks_upto(lines, context, total, j);
        let h = hunks_upto(lines, context, total, k);
        let line = lines[k - 1];
        let start = first_shown(line, context);
        let end = last_shown(line, context, total);
        assert(0 <= start <= end < total);
        if j > 0 {
            assert(lines[j - 1] <= lines[k - 1]);
        }
        assert forall|x: int| in_hunks(h, x) <==> near_change(
            lines,
            context,
            total,
            k as int,
            x,
        ) by {
            let merged = before.len() > 0 && start <= before.last().1 + 1;
            if in_hunks(h, x) {
                let i = choose|i: int|
                    0 <= i < h.len() && (#[trigger] h[i]).0 <= x <= h[i].1;
                if i < h.len() - 1 {
                    assert(before[i] == h[i]);
                    assert(in_hunks(before, x));
                } else if merged && x <= before.last().1 {
                    assert(before[before.len() - 1].0 <= x);
                    assert(in_hunks(before, x));
                } else {
                    assert(lines[k - 1] - context <= x <= lines[k - 1] + context);
                }
            }
            if near_change(lines, context, total, k as int, x) {
                let i = choose|i: int|
                    0 <= i < k && #[trigger] lines[i] - context <= x <= lines[i] + context;
                if i < j {
                    assert(near_change(lines, context, total, j as int, x));
                    assert(in_hunks(before, x));
                    let b = choose|b: int|
                        0 <= b < before.len() && (#[trigger] before[b]).0 <= x <= before[b].1;
                    assert(h[b].0 <= x <= h[b].1);
                } else {
                    assert(start <= x <= end);
                    assert(h[h.len() - 1].0 <= x <= h[h.len() - 1].1);
                }
            }
        }
    }
}

/// The runs are exactly the stretches of lines near a change: every such line stands in one of
/// them and no other line does, and what touches is one run.
pub proof fn law_hunks_show_the_context(lines: Seq<int>, context: int, total: int)
    requires
        ascending(lines, total),
        context >= 0,
    ensures
        ({
            let h = hunks_upto(lines, context, total, lines.len());
            &&& apart(h, total)
            &&& h.len() <= lines.len()
            &&& forall|x: int|
                in_hunks(h, x) <==> near_change(lines, context, total, lines.len() as int, x)
        }),
{
    lemma_hunks(lines, context, total, lines.len());
}

/// The runs of lines to show for a list of changes.
pub fn build_hunks(changes: &[Change], context: usize, total_lines: usize) -> (r: Vec<Hunk>)
    requires
        forall|i: int|
            0 <= i < changes@.len() ==> (#[trigger] changes@[i]).line_idx + context <= usize::MAX,
    ensures
        hunk_views(r@) == hunks_of(changes@, context as int, total_lines as int),
        ascending(changed_lines(changes@), total_lines as int) ==> apart(
            hunk_views(r@),
            total_lines as int,
        ) && r@.len() <= changes@.len() && forall|x: int|
            in_hunks(hunk_views(r@), x) <==> near_change(
                changed_lines(changes@),
                context as int,
                total_lines as int,
                changes@.len() as int,
                x,
            ),
{
    let ghost lines = changed_lines(changes@);
    let mut hunks: Vec<Hunk> = Vec::new();
    let mut i: usize = 0;
    proof {
        assert(hunk_views(hunks@) == hunks_upto(lines, context as int, total_lines as int, 0));
    }
    while i < changes.len()
        invariant
            i <= changes@.len(),
            lines == changed_lines(changes@),
            forall|i: int|
                0 <= i < changes@.len() ==> (#[trigger] changes@[i]).line_idx + context
                    <= usize::MAX,
            hunk_views(hunks@) == hunks_upto(
                lines,
                context as int,
                total_lines as int,
                i as nat,
            ),
            forall|j: int| 0 <= j < hunks@.len() ==> (#[trigger] hunks@[j]).end < usize::MAX,
        decreases changes@.len() - i,
    {
        let line = changes[i].line_idx;
        let start = line.saturating_sub(context);
        let bottom = total_lines.saturating_sub(1);
        let end = if line + context < bottom {
            line + context
        } else {
            bottom
        };
        let ghost before = hunk_views(hunks@);
        let n = hunks.len();
        let mut merged = false;
        if n > 0 {
            let last = hunks[n - 1];
            if start <= last.end + 1 {
                merged = true;
                let longer = if last.end > end {
                    last.end
                } else {
                    end
                };
                hunks.set(n - 1, Hunk { start: last.start, end: longer });
                proof {
                    assert(hunk_views(hunks@) == before.drop_last().push(
                        (last.start as int, longer as int),
                    ));
                }
            }
        }
        if !merged {
            hunks.push(Hunk { start, end });
            proof {
                assert(hunk_views(hunks@) == before.push((start as int, end as int)));
            }
        }
        i = i + 1;
    }
    proof {
        if ascending(lines, total_lines as int) {
            law_hunks_show_the_context(lines, context as int, total_lines as int);
        }
    }
    hunks
}

/// The number of lines in all runs together.
pub open spec fn hunk_rows(hunks: Seq<(int, int)>) -> int
    decreases hunks.len(),
{
    if hunks.len() == 0 {
        0
    } else {
        hunk_rows(hunks.drop_last()) + (hunks.last().1 - hunks.last().0 + 1)
    }
}

/// The rows that a file is taken to need on the screen: its name, the lines of its runs, one
/// more for each changed line where old and new are both shown, and a mark between any two runs.
pub open spec fn file_rows(edit: FileEdit, context: int, preview: Preview) -> int {
    let hunks = hunks_of(edit.changes@, context, edit.lines@.len() as int);
    1 + hunk_rows(hunks) + if preview == Preview::Diff {
        edit.changes@.len() as int
    } else {
        0
    } + if hunks.len() > 0 {
        hunks.len() - 1
    } else {
        0
    }
}

/// The rows that a list of files is taken to need on the screen.
pub open spec fn all_rows(edits: Seq<FileEdit>, context: int, preview: Preview) -> int
    decreases edits.len(),
{
    if edits.len() == 0 {
        0
    } else {
        all_rows(edits.drop_last(), context, preview) + file_rows(edits.last(), context, preview)
    }
}

/// Context that can be counted around every changed line.
pub open spec fn context_fits(edit: FileEdit, context: int) -> bool {
    forall|i: int|
        0 <= i < edit.changes@.len() ==> (#[trigger] edit.changes@[i]).line_idx + context
            <= usize::MAX
}

proof fn lemma_rows_take(hunks: Seq<(int, int)>, total: int, k: int)
    requires
        apart(hunks, total),
        0 <= k <= hunks.len(),
    ensures
        0 <= hunk_rows(hunks.take(k)) <= hunk_rows(hunks),
    decreases hunks.len(),
{
    if hunks.len() == 0 {
        assert(hunks.take(k) == hunks);
    } else {
        let rest = hunks.drop_last();
        assert(hunks[hunks.len() - 1].0 <= hunks[hunks.len() - 1].1);
        assert(apart(rest, total)) by {
            assert forall|i: int| 0 <= i < rest.len() implies 0 <= (#[trigger] rest[i]).0
                <= rest[i].1 < total by {
                assert(hunks[i].0 <= hunks[i].1);
            }
            assert forall|i: int, j: int|
                #![trigger rest[i], rest[j]]
                0 <= i < j < rest.len() implies rest[i].1 + 1 < rest[j].0 by {
                assert(hunks[i].1 + 1 < hunks[j].0);
            }
        }
        if k == hunks.len() {
            assert(hunks.take(k) == hunks);
            lemma_rows_take(rest, total, rest.len() as int);
            assert(rest.take(rest.len() as int) == rest);
        } else {
            lemma_rows_take(rest, total, k);
            assert(rest.take(k) == hunks.take(k));
        }
    }
}

/// The changed lines of a search result are in ascending order, each once.
pub proof fn lemma_wf_ascending(edit: FileEdit)
    requires
        edit.wf(),
    ensures
        ascending(changed_lines(edit.changes@), edit.lines@.len() as int),
        each_once(changed_lines(edit.changes@)),
{
    let lines = changed_lines(edit.changes@);
    let views = edit.change_views();
    assert forall|i: int| 0 <= i < lines.len() implies 0 <= #[trigger] lines[i]
        < edit.lines@.len() by {
        assert(fits_line(edit.line_views(), views[i]));
    }
    assert forall|i: int, j: int|
        #![trigger lines[i], lines[j]]
        0 <= i < j < lines.len() implies lines[i] < lines[j] by {
        assert(views[i].line_idx < views[j].line_idx);
    }
}

/// The rows that a file is taken to need on the screen.
fn file_output_lines(edit: &FileEdit, context: usize, preview: Preview) -> (r: usize)
    requires
        edit.wf(),
        context_fits(*edit, context as int),
        file_rows(*edit, context as int, preview) <= usize::MAX,
    ensures
        r == file_rows(*edit, context as int, preview),
{
    let hunks = build_hunks(edit.changes.as_slice(), context, edit.lines.len());
    let ghost hv = hunk_views(hunks@);
    let ghost total = edit.lines@.len() as int;
    proof {
        lemma_wf_ascending(*edit);
        lemma_rows_take(hv, total, hv.len() as int);
        assert(hv.take(0) == Seq::<(int, int)>::empty());
    }
    let mut rows: usize = 0;
    let mut i: usize = 0;
    while i < hunks.len()
        invariant
            i <= hunks@.len(),
            hv == hunk_views(hunks@),
            apart(hv, total),
            hunk_rows(hv) <= usize::MAX,
            rows == hunk_rows(hv.take(i as int)),
        decreases hunks@.len() - i,
    {
        proof {
            lemma_rows_take(hv, total, i + 1);
            assert(hv.take(i + 1).drop_last() == hv.take(i as int));
            assert(hv.take(i + 1).last() == hv[i as int]);
            assert(hv[i as int].0 <= hv[i as int].1);
            lemma_rows_take(hv, total, i as int);
        }
        rows = rows + (hunks[i].end - hunks[i].start + 1);
        i = i + 1;
    }
    proof {
        assert(hv.take(hv.len() as int) == hv);
    }
    let extra = if preview == Preview::Diff {
        edit.changes.len()
    } else {
        0
    };
    1 + rows + extra + hunks.len().saturating_sub(1)
}

proof fn lemma_file_rows_positive(edit: FileEdit, context: int, preview: Preview)
    requires
        edit.wf(),
        context >= 0,
    ensures
        file_rows(edit, context, preview) >= 1,
{
    lemma_wf_ascending(edit);
    let hunks = hunks_of(edit.changes@, context, edit.lines@.len() as int);
    law_hunks_show_the_context(changed_lines(edit.changes@), context, edit.lines@.len() as int);
    lemma_rows_take(hunks, edit.lines@.len() as int, hunks.len() as int);
}

proof fn lemma_all_rows_take(edits: Seq<FileEdit>, context: int, preview: Preview, k: int)
    requires
        forall|i: int| 0 <= i < edits.len() ==> (#[trigger] edits[i]).wf(),
        context >= 0,
        0 <= k <= edits.len(),
    ensures
        0 <= all_rows(edits.take(k), context, preview) <= all_rows(edits, context, preview),
    decreases edits.len(),
{
    if edits.len() == 0 {
        assert(edits.take(k) == edits);
    } else {
        let rest = edits.drop_last();
        assert(edits[edits.len() - 1].wf());
        lemma_file_rows_positive(edits.last(), context, preview);
        assert forall|i: int| 0 <= i < rest.len() implies (#[trigger] rest[i]).wf() by {
            assert(edits[i].wf());
        }
        if k == edits.len() {
            assert(edits.take(k) == edits);
            lemma_all_rows_take(rest, context, preview, rest.len() as int);
            assert(rest.take(rest.len() as int) == rest);
        } else {
            lemma_all_rows_take(rest, context, preview, k);
            assert(rest.take(k) == edits.take(k));
        }
    }
}

/// The rows that a list of files is taken to need on the screen.
pub fn estimate_output_lines(edits: &[FileEdit], cli: &Cli) -> (r: usize)
    requires
        forall|i: int| 0 <= i < edits@.len() ==> (#[trigger] edits@[i]).wf(),
        forall|i: int|
            0 <= i < edits@.len() ==> context_fits(#[trigger] edits@[i], cli.context as int),
        all_rows(edits@, cli.context as int, cli.preview) <= usize::MAX,
    ensures
        r == all_rows(edits@, cli.context as int, cli.preview),
{
    let ghost context = cli.context as int;
    let mut rows: usize = 0;
    let mut i: usize = 0;
    proof {
        assert(edits@.take(0) == Seq::<FileEdit>::empty());
    }
    while i < edits.len()
        invariant
            i <= edits@.len(),
            context == cli.context,
            forall|i: int| 0 <= i < edits@.len() ==> (#[trigger] edits@[i]).wf(),
            forall|i: int|
                0 <= i < edits@.len() ==> context_fits(#[trigger] edits@[i], context),
            all_rows(edits@, context, cli.preview) <= usize::MAX,
            rows == all_rows(edits@.take(i as int), context, cli.preview),
        decreases edits@.len() - i,
    {
        proof {
            lemma_all_rows_take(edits@, context, cli.preview, i as int);
            lemma_all_rows_take(edits@, context, cli.preview, i + 1);
            assert(edits@.take(i + 1).drop_last() == edits@.take(i as int));
            assert(edits@.take(i + 1).last() == edits@[i as int]);
        }
        rows = rows + file_output_lines(&edits[i], cli.context, cli.preview);
        i = i + 1;
    }
    proof {
        assert(edits@.take(edits@.len() as int) == edits@);
    }
    rows
}

/// The runs of lines are exactly the lines of the file that lie within the context of a changed
/// line, in order, each run as long as it can be.
pub proof fn law_runs_are_the_lines_within_the_context(
    lines: Seq<int>,
    context: int,
    total: int,
    x: int,
)
    requires
        forall|i: int| 0 <= i < lines.len() ==> 0 <= #[trigger] lines[i] < total,
        forall|i: int, j: int|
            #![trigger lines[i], lines[j]]
            0 <= i < j < lines.len() ==> lines[i] <= lines[j],
        context >= 0,
    ensures
        ({
            let h = hunks_upto(lines, context, total, lines.len());
            &&& (exists|i: int| 0 <= i < h.len() && (#[trigger] h[i]).0 <= x <= h[i].1) <==> 0 <= x
                < total && exists|i: int|
                0 <= i < lines.len() && #[trigger] lines[i] - context <= x <= lines[i] + context
            &&& forall|i: int| 0 <= i < h.len() ==> 0 <= (#[trigger] h[i]).0 <= h[i].1 < total
            &&& forall|i: int|
                0 <= i < h.len() - 1 ==> (#[trigger] h[i]).1 + 1 < h[i + 1].0
        }),
{
    law_hunks_show_the_context(lines, context, total);
    let h = hunks_upto(lines, context, total, lines.len());
    assert(in_hunks(h, x) <==> near_change(lines, context, total, lines.len() as int, x));
    assert forall|i: int| 0 <= i < h.len() - 1 implies (#[trigger] h[i]).1 + 1 < h[i + 1].0 by {
        let next = h[i + 1];
    }
}

/// The rows for a list of files are those for each of them, added up.
pub proof fn law_rows_of_files_add_up(
    edits: Seq<FileEdit>,
    edit: FileEdit,
    context: int,
    preview: Preview,
)
    ensures
        all_rows(Seq::<FileEdit>::empty(), context, preview) == 0,
        all_rows(edits.push(edit), context, preview) == all_rows(edits, context, preview)
            + file_rows(edit, context, preview),
{
    assert(edits.push(edit).drop_last() == edits);
}

} // verus!
