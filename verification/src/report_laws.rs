//! How many rows the output of a search takes up.
use vstd::prelude::*;

use crate::cli::Preview;
use crate::edit::{
    change_at, fits_line, sum_matched, sum_matches, ChangeView, FileEdit, MatchedView,
};
use crate::hunks::{
    ascending, changed_lines, file_rows, hunk_rows, hunks_of, in_hunks, law_hunks_show_the_context,
    lemma_wf_ascending, near_change,
};
use crate::lines::body_of;
use crate::report::{
    change_ops, compact_change_ops, compact_changes_ops, compact_ops, context_ops, each_segment_ops,
    gap_ops, hunks_ops, line_ops, lines_ops, number_ops, path_ops, preview_ops, repeated,
    segment_ops, signed_number_ops, vimgrep_line_ops, vimgrep_ops,
};
use crate::segments::highlighted;
use crate::style::{fg_style, lemma_rows_concat, rows_of, Color, OpView, Style};

verus! {

proof fn lemma_rows_none(list: Seq<OpView>)
    requires
        forall|i: int| 0 <= i < list.len() ==> !((#[trigger] list[i]) is Newline),
    ensures
        rows_of(list) == 0,
    decreases list.len(),
{
    if list.len() > 0 {
        lemma_rows_none(list.drop_last());
        assert(!(list[list.len() - 1] is Newline));
    }
}

proof fn lemma_rows_push(list: Seq<OpView>, last: OpView)
    ensures
        rows_of(list.push(last)) == rows_of(list) + if last is Newline {
            1int
        } else {
            0int
        },
{
    assert(list.push(last).drop_last() == list);
}

proof fn lemma_each_segment_rows(segments: Seq<(Seq<char>, bool)>, highlight: Style)
    ensures
        rows_of(each_segment_ops(segments, highlight)) == 0,
    decreases segments.len(),
{
    if segments.len() > 0 {
        let before = each_segment_ops(segments.drop_last(), highlight);
        let look = if segments.last().1 {
            OpView::SetColor(highlight)
        } else {
            OpView::Reset
        };
        lemma_each_segment_rows(segments.drop_last(), highlight);
        lemma_rows_push(before, look);
        lemma_rows_push(before.push(look), OpView::Text(segments.last().0));
    }
}

proof fn lemma_segment_rows(segments: Seq<(Seq<char>, bool)>, highlight: Style)
    ensures
        rows_of(segment_ops(segments, highlight)) == 0,
{
    lemma_each_segment_rows(segments, highlight);
    lemma_rows_push(each_segment_ops(segments, highlight), OpView::Reset);
}

/// A start of a row, segments, and the end of the row.
proof fn lemma_segment_row(
    head: Seq<OpView>,
    segments: Seq<(Seq<char>, bool)>,
    highlight: Style,
)
    requires
        forall|i: int| 0 <= i < head.len() ==> !((#[trigger] head[i]) is Newline),
    ensures
        rows_of((head + segment_ops(segments, highlight)).push(OpView::Newline)) == 1,
{
    lemma_rows_none(head);
    lemma_segment_rows(segments, highlight);
    lemma_rows_concat(head, segment_ops(segments, highlight));
    lemma_rows_push(head + segment_ops(segments, highlight), OpView::Newline);
}

/// The second rows of so many changed lines, where old and new are both shown.
pub open spec fn second_rows(preview: Preview, changes: int) -> int {
    if preview == Preview::Diff {
        changes
    } else {
        0
    }
}

proof fn lemma_change_rows(change: ChangeView, line: int, preview: Preview)
    ensures
        rows_of(change_ops(change, line, preview)) == 1 + second_rows(preview, 1),
{
    lemma_numbered_rows(line);
    match preview {
        Preview::Old => {},
        Preview::New => {},
        Preview::Diff => {
            lemma_rows_concat(
                (signed_number_ops("-"@, Color::Red, line) + segment_ops(
                    change.orig,
                    fg_style(Color::Red, true),
                )).push(OpView::Newline),
                (signed_number_ops("+"@, Color::Green, line) + segment_ops(
                    change.new,
                    fg_style(Color::Green, true),
                )).push(OpView::Newline),
            );
        },
    }
}

/// Segments after the number of a line make one row.
proof fn lemma_numbered_rows(line: int)
    ensures
        forall|segments: Seq<(Seq<char>, bool)>, highlight: Style, width: nat|
            #![trigger segment_ops(segments, highlight), number_ops(line, width)]
            rows_of(
                (number_ops(line, width) + segment_ops(segments, highlight)).push(OpView::Newline),
            ) == 1,
        forall|
            segments: Seq<(Seq<char>, bool)>,
            highlight: Style,
            sign: Seq<char>,
            color: Color,
        |
            #![trigger segment_ops(segments, highlight), signed_number_ops(sign, color, line)]
            rows_of(
                (signed_number_ops(sign, color, line) + segment_ops(segments, highlight)).push(
                    OpView::Newline,
                ),
            ) == 1,
{
    assert forall|segments: Seq<(Seq<char>, bool)>, highlight: Style, width: nat|
        #![trigger segment_ops(segments, highlight), number_ops(line, width)]
        rows_of(
            (number_ops(line, width) + segment_ops(segments, highlight)).push(OpView::Newline),
        ) == 1 by {
        lemma_segment_row(number_ops(line, width), segments, highlight);
    }
    assert forall|
        segments: Seq<(Seq<char>, bool)>,
        highlight: Style,
        sign: Seq<char>,
        color: Color,
    |
        #![trigger segment_ops(segments, highlight), signed_number_ops(sign, color, line)]
        rows_of(
            (signed_number_ops(sign, color, line) + segment_ops(segments, highlight)).push(
                OpView::Newline,
            ),
        ) == 1 by {
        lemma_segment_row(signed_number_ops(sign, color, line), segments, highlight);
    }
}

proof fn lemma_context_rows(body: Seq<char>, line: int, preview: Preview)
    ensures
        rows_of(context_ops(body, line, preview)) == 1,
{
    let ops = context_ops(body, line, preview);
    let head = ops.drop_last();
    assert(ops == head.push(OpView::Newline));
    assert forall|i: int| 0 <= i < head.len() implies !((#[trigger] head[i]) is Newline) by {
        assert(head[i] == ops[i]);
    }
    lemma_rows_none(head);
    lemma_rows_push(head, OpView::Newline);
}

/// The changed lines among the first `k` that lie from `from` up to but without `to`.
pub open spec fn changed_between(lines: Seq<int>, from: int, to: int, k: nat) -> int
    decreases k,
{
    if k == 0 {
        0
    } else {
        changed_between(lines, from, to, (k - 1) as nat) + if from <= lines[k - 1] < to {
            1int
        } else {
            0int
        }
    }
}

proof fn lemma_between_split(lines: Seq<int>, a: int, b: int, c: int, k: nat)
    requires
        a <= b <= c,
    ensures
        changed_between(lines, a, b, k) + changed_between(lines, b, c, k) == changed_between(
            lines,
            a,
            c,
            k,
        ),
    decreases k,
{
    if k > 0 {
        lemma_between_split(lines, a, b, c, (k - 1) as nat);
    }
}

proof fn lemma_between_none(lines: Seq<int>, a: int, b: int, k: nat)
    requires
        k <= lines.len(),
        forall|i: int| 0 <= i < lines.len() ==> !(a <= #[trigger] lines[i] < b),
    ensures
        changed_between(lines, a, b, k) == 0,
    decreases k,
{
    if k > 0 {
        lemma_between_none(lines, a, b, (k - 1) as nat);
        assert(!(a <= lines[k - 1] < b));
    }
}

proof fn lemma_between_all(lines: Seq<int>, total: int, k: nat)
    requires
        k <= lines.len(),
        ascending(lines, total),
    ensures
        changed_between(lines, 0, total, k) == k,
    decreases k,
{
    if k > 0 {
        lemma_between_all(lines, total, (k - 1) as nat);
        assert(0 <= lines[k - 1] < total);
    }
}

/// A line counts once if a change belongs to it.
proof fn lemma_between_one(changes: Seq<ChangeView>, lines: Seq<int>, line: int, k: nat)
    requires
        k <= changes.len(),
        lines.len() == changes.len(),
        forall|i: int| 0 <= i < lines.len() ==> #[trigger] lines[i] == changes[i].line_idx,
        forall|i: int, j: int|
            #![trigger lines[i], lines[j]]
            0 <= i < j < lines.len() ==> lines[i] < lines[j],
    ensures
        changed_between(lines, line, line + 1, k) == if change_at(changes, line, k) is Some {
            1int
        } else {
            0int
        },
        k > 0 && lines[k - 1] < line ==> changed_between(lines, line, line + 1, k) == 0,
    decreases k,
{
    if k > 0 {
        let j = (k - 1) as nat;
        lemma_between_one(changes, lines, line, j);
        assert(lines[k - 1] == changes[k - 1].line_idx);
        if j > 0 {
            assert(lines[j - 1] < lines[k - 1]);
        }
    }
}

proof fn lemma_lines_rows(edit: FileEdit, start: int, end: int, preview: Preview)
    requires
        edit.wf(),
        start <= end,
    ensures
        ({
            let lines = changed_lines(edit.changes@);
            rows_of(
                lines_ops(edit.line_views(), edit.change_views(), start, end, preview),
            ) == end - start + second_rows(
                preview,
                changed_between(lines, start, end, lines.len()),
            )
        }),
    decreases end - start,
{
    let lines = changed_lines(edit.changes@);
    let changes = edit.change_views();
    let n = lines.len();
    let texts = edit.line_views();
    if start == end {
        lemma_between_none_empty(lines, start, n);
    } else {
        let line = end - 1;
        lemma_lines_rows(edit, start, line, preview);
        lemma_wf_ascending(edit);
        lemma_between_split(lines, start, line, end, n);
        lemma_between_one(changes, lines, line, n);
        lemma_rows_concat(
            lines_ops(texts, changes, start, line, preview),
            line_ops(texts, changes, line, preview),
        );
        match change_at(changes, line, changes.len()) {
            Some(c) => {
                lemma_change_rows(changes[c], line, preview);
            },
            None => {
                lemma_context_rows(body_of(texts[line]), line, preview);
            },
        }
    }
}

proof fn lemma_between_none_empty(lines: Seq<int>, a: int, k: nat)
    ensures
        changed_between(lines, a, a, k) == 0,
    decreases k,
{
    if k > 0 {
        lemma_between_none_empty(lines, a, (k - 1) as nat);
    }
}

proof fn lemma_gap_rows()
    ensures
        rows_of(gap_ops()) == 1,
{
    let g = gap_ops();
    reveal_with_fuel(rows_of, 5);
    assert(g.drop_last().drop_last().drop_last().drop_last().len() == 0);
}

proof fn lemma_path_rows(display: Seq<char>)
    ensures
        rows_of(path_ops(display)) == 1,
{
    let g = path_ops(display);
    reveal_with_fuel(rows_of, 5);
    assert(g.drop_last().drop_last().drop_last().drop_last().len() == 0);
}

proof fn lemma_hunks_rows(edit: FileEdit, context: int, preview: Preview, k: nat)
    requires
        edit.wf(),
        context >= 0,
        k <= hunks_of(edit.changes@, context, edit.lines@.len() as int).len(),
    ensures
        ({
            let lines = changed_lines(edit.changes@);
            let hunks = hunks_of(edit.changes@, context, edit.lines@.len() as int);
            rows_of(
                hunks_ops(edit.line_views(), edit.change_views(), hunks, preview, k),
            ) == hunk_rows(hunks.take(k as int)) + (if k > 0 {
                k - 1
            } else {
                0
            }) + second_rows(
                preview,
                if k > 0 {
                    changed_between(lines, 0, hunks[k - 1].1 + 1, lines.len())
                } else {
                    0
                },
            )
        }),
    decreases k,
{
    let lines = changed_lines(edit.changes@);
    let total = edit.lines@.len() as int;
    let hunks = hunks_of(edit.changes@, context, total);
    let texts = edit.line_views();
    let changes = edit.change_views();
    lemma_wf_ascending(edit);
    law_hunks_show_the_context(lines, context, total);
    if k == 0 {
        assert(hunks.take(0) == Seq::<(int, int)>::empty());
    } else {
        let j = (k - 1) as nat;
        lemma_hunks_rows(edit, context, preview, j);
        let before = hunks_ops(texts, changes, hunks, preview, j);
        let from = hunks[k - 1].0;
        let to = hunks[k - 1].1 + 1;
        let body = lines_ops(texts, changes, from, to, preview);
        assert(hunks[k - 1].0 <= hunks[k - 1].1);
        lemma_lines_rows(edit, from, to, preview);
        lemma_gap_rows();
        lemma_rows_concat(before, gap_ops());
        lemma_rows_concat(before + gap_ops(), body);
        lemma_rows_concat(before, body);
        assert(hunks.take(k as int).drop_last() == hunks.take(j as int));
        let last = if j > 0 {
            hunks[j - 1].1 + 1
        } else {
            0
        };
        if j > 0 {
            assert(hunks[j - 1].1 + 1 < hunks[j as int].0);
        }
        assert forall|i: int| 0 <= i < lines.len() implies !(last <= #[trigger] lines[i] < from) by {
            let x = lines[i];
            if last <= x < from {
                assert(near_change(lines, context, total, lines.len() as int, x)) by {
                    assert(lines[i] - context <= x <= lines[i] + context);
                }
                assert(in_hunks(hunks, x));
                let h = choose|h: int|
                    0 <= h < hunks.len() && (#[trigger] hunks[h]).0 <= x <= hunks[h].1;
                if h < j {
                    if h < j - 1 {
                        assert(hunks[h].1 + 1 < hunks[j - 1].0);
                        assert(hunks[j - 1].0 <= hunks[j - 1].1);
                    }
                } else if h > j {
                    assert(hunks[j as int].1 + 1 < hunks[h].0);
                }
            }
        }
        lemma_between_none(lines, last, from, lines.len());
        if j > 0 {
            assert(0 <= hunks[j - 1].0 <= hunks[j - 1].1);
        }
        lemma_between_split(lines, 0, last, from, lines.len());
        lemma_between_split(lines, 0, from, to, lines.len());
        if j == 0 {
            lemma_between_none_empty(lines, 0, lines.len());
        }
    }
}

/// A preview takes up the rows that it is taken to need, and an empty one after it.
pub proof fn law_preview_rows_are_the_estimate(edit: FileEdit, context: int, preview: Preview)
    requires
        edit.wf(),
        context >= 0,
    ensures
        rows_of(preview_ops(edit, context, preview)) == file_rows(edit, context, preview) + 1,
{
    let lines = changed_lines(edit.changes@);
    let total = edit.lines@.len() as int;
    let hunks = hunks_of(edit.changes@, context, total);
    let n = hunks.len();
    let body = hunks_ops(edit.line_views(), edit.change_views(), hunks, preview, n);
    lemma_hunks_rows(edit, context, preview, n);
    assert(hunks.take(n as int) == hunks);
    lemma_path_rows(edit.path.display@);
    lemma_rows_concat(path_ops(edit.path.display@), body);
    lemma_rows_push(path_ops(edit.path.display@) + body, OpView::Newline);
    lemma_wf_ascending(edit);
    law_hunks_show_the_context(lines, context, total);
    if n > 0 {
        let last = hunks[n - 1].1 + 1;
        assert(0 <= hunks[n - 1].0 <= hunks[n - 1].1 < total);
        assert forall|i: int| 0 <= i < lines.len() implies !(last <= #[trigger] lines[i] < total) by {
            let x = lines[i];
            if last <= x < total {
                assert(near_change(lines, context, total, lines.len() as int, x)) by {
                    assert(lines[i] - context <= x <= lines[i] + context);
                }
                assert(in_hunks(hunks, x));
                let h = choose|h: int|
                    0 <= h < hunks.len() && (#[trigger] hunks[h]).0 <= x <= hunks[h].1;
                if h < n - 1 {
                    assert(hunks[h].1 + 1 < hunks[n - 1].0);
                }
            }
        }
        lemma_between_none(lines, last, total, lines.len());
        lemma_between_split(lines, 0, last, total, lines.len());
        lemma_between_all(lines, total, lines.len());
    } else if lines.len() > 0 {
        let x = lines[0];
        assert(near_change(lines, context, total, lines.len() as int, x)) by {
            assert(lines[0] - context <= x <= lines[0] + context);
        }
        assert(in_hunks(hunks, x));
    }
}

proof fn lemma_repeated_rows(ops: Seq<OpView>, times: nat)
    requires
        rows_of(ops) == 1,
    ensures
        rows_of(repeated(ops, times)) == times,
    decreases times,
{
    if times > 0 {
        lemma_repeated_rows(ops, (times - 1) as nat);
        lemma_rows_concat(repeated(ops, (times - 1) as nat), ops);
    }
}

proof fn lemma_compact_rows(edit: FileEdit, preview: Preview, k: nat)
    requires
        edit.wf(),
        k <= edit.changes@.len(),
    ensures
        rows_of(compact_changes_ops(edit.change_views(), preview, k)) == sum_matches(
            edit.change_views().take(k as int),
        ),
    decreases k,
{
    let changes = edit.change_views();
    if k > 0 {
        let change = changes[k - 1];
        let one = compact_change_ops(change, preview);
        let times = highlighted(change.orig).len();
        lemma_compact_rows(edit, preview, (k - 1) as nat);
        lemma_numbered_rows(change.line_idx);
        lemma_repeated_rows(one, times);
        lemma_rows_concat(
            compact_changes_ops(changes, preview, (k - 1) as nat),
            repeated(one, times),
        );
        assert(fits_line(edit.line_views(), changes[k - 1]));
        assert(changes.take(k as int).drop_last() == changes.take(k - 1));
    } else {
        assert(changes.take(0) == Seq::<ChangeView>::empty());
    }
}

/// The compact form has one row for each match that is replaced, one for the name of the file,
/// and an empty one after them.
pub proof fn law_compact_has_a_row_for_each_match(edit: FileEdit, preview: Preview)
    requires
        edit.wf(),
    ensures
        rows_of(compact_ops(edit, preview)) == sum_matches(edit.change_views()) + 2,
{
    let body = compact_changes_ops(edit.change_views(), preview, edit.changes@.len());
    lemma_compact_rows(edit, preview, edit.changes@.len());
    assert(edit.change_views().take(edit.changes@.len() as int) == edit.change_views());
    lemma_path_rows(edit.path.display@);
    lemma_rows_concat(path_ops(edit.path.display@), body);
    lemma_rows_push(path_ops(edit.path.display@) + body, OpView::Newline);
}

proof fn lemma_vimgrep_line_rows(
    display: Seq<char>,
    line: int,
    body: Seq<char>,
    segments: Seq<(Seq<char>, bool)>,
    k: nat,
)
    requires
        k <= segments.len(),
    ensures
        rows_of(vimgrep_line_ops(display, line, body, segments, k)) == highlighted(
            segments.take(k as int),
        ).len(),
    decreases k,
{
    if k > 0 {
        let j = (k - 1) as nat;
        lemma_vimgrep_line_rows(display, line, body, segments, j);
        let before = vimgrep_line_ops(display, line, body, segments, j);
        assert(segments.take(k as int).drop_last() == segments.take(j as int));
        if segments[k - 1].1 {
            let now = vimgrep_line_ops(display, line, body, segments, k);
            let text = now[now.len() - 2];
            assert(now == before.push(text).push(OpView::Newline));
            lemma_rows_push(before, text);
            lemma_rows_push(before.push(text), OpView::Newline);
        }
    }
}

proof fn lemma_vimgrep_rows(edit: FileEdit, k: nat)
    requires
        k <= edit.matched@.len(),
    ensures
        rows_of(vimgrep_ops(edit, k)) == sum_matched(edit.matched_views().take(k as int)),
    decreases k,
{
    let matched = edit.matched_views();
    if k == 0 {
        assert(matched.take(0) == Seq::<MatchedView>::empty());
    } else {
        let line = matched[k - 1];
        lemma_vimgrep_rows(edit, (k - 1) as nat);
        let body = body_of(edit.line_views()[line.line_idx]);
        lemma_vimgrep_line_rows(
            edit.path.display@,
            line.line_idx,
            body,
            line.orig,
            line.orig.len(),
        );
        assert(line.orig.take(line.orig.len() as int) == line.orig);
        lemma_rows_concat(
            vimgrep_ops(edit, (k - 1) as nat),
            vimgrep_line_ops(
                edit.path.display@,
                line.line_idx,
                body,
                line.orig,
                line.orig.len(),
            ),
        );
        assert(matched.take(k as int).drop_last() == matched.take(k - 1));
    }
}

/// The list of matches has one row for each match, replaced or not.
pub proof fn law_vimgrep_has_a_row_for_each_match(edit: FileEdit)
    requires
        edit.wf(),
    ensures
        rows_of(vimgrep_ops(edit, edit.matched@.len())) == sum_matches(edit.change_views())
            + edit.noop_count,
{
    lemma_vimgrep_rows(edit, edit.matched@.len());
    assert(edit.matched_views().take(edit.matched@.len() as int) == edit.matched_views());
}

} // verus!
