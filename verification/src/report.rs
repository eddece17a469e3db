//! Search results as output that scrolls by.
use std::collections::HashMap;
use vstd::prelude::*;

use crate::cli::Preview;
use crate::edit::{
    change_at, fit_lines, index_changes, marks_before, tells_changes, Change, ChangeView, FileEdit,
};
use crate::hunks::{apart, build_hunks, context_fits, hunk_views, hunks_of, lemma_wf_ascending};
use crate::lines::{
    body_of, decimal, lemma_join_push, lemma_part_len, padded, push_decimal, push_padded, split_nl,
};
use crate::segments::{highlighted, lemma_highlighted_take, seg_text, seg_texts, seg_views};
use crate::style::{dim_style, emit, fg_style, op_views, Color, Op, OpView, Style};
use crate::text::{byte_len, lemma_encode_concat, str_len};

verus! {

broadcast use vstd::std_specs::hash::group_hash_axioms;

// Pieces of output.

/// The number of a line.
pub open spec fn number_ops(line: int, width: nat) -> Seq<OpView> {
    seq![
        OpView::SetColor(fg_style(Color::Cyan, false)),
        OpView::Text(padded(decimal((line + 1) as nat), width) + "  "@),
        OpView::Reset,
    ]
}

/// The segments of a line, each in its look.
pub open spec fn each_segment_ops(segments: Seq<(Seq<char>, bool)>, highlight: Style) -> Seq<
    OpView,
>
    decreases segments.len(),
{
    if segments.len() == 0 {
        seq![]
    } else {
        each_segment_ops(segments.drop_last(), highlight).push(
            if segments.last().1 {
                OpView::SetColor(highlight)
            } else {
                OpView::Reset
            },
        ).push(OpView::Text(segments.last().0))
    }
}

/// The segments of a line, and plain text after them.
pub open spec fn segment_ops(segments: Seq<(Seq<char>, bool)>, highlight: Style) -> Seq<OpView> {
    each_segment_ops(segments, highlight).push(OpView::Reset)
}

/// A sign in a colour, and the number of a line.
pub open spec fn signed_number_ops(sign: Seq<char>, color: Color, line: int) -> Seq<OpView> {
    seq![OpView::SetColor(fg_style(color, true)), OpView::Text(sign)] + number_ops(line, 5)
}

/// A changed line.
pub open spec fn change_ops(change: ChangeView, line: int, preview: Preview) -> Seq<OpView> {
    match preview {
        Preview::Old => (number_ops(line, 6) + segment_ops(
            change.orig,
            fg_style(Color::Yellow, true),
        )).push(OpView::Newline),
        Preview::New => (number_ops(line, 6) + segment_ops(
            change.new,
            fg_style(Color::Green, true),
        )).push(OpView::Newline),
        Preview::Diff => (signed_number_ops("-"@, Color::Red, line) + segment_ops(
            change.orig,
            fg_style(Color::Red, true),
        )).push(OpView::Newline) + (signed_number_ops("+"@, Color::Green, line) + segment_ops(
            change.new,
            fg_style(Color::Green, true),
        )).push(OpView::Newline),
    }
}

/// A line of context.
pub open spec fn context_ops(body: Seq<char>, line: int, preview: Preview) -> Seq<OpView> {
    if preview == Preview::Diff {
        seq![
            OpView::SetColor(dim_style()),
            OpView::Text(" "@ + padded(decimal((line + 1) as nat), 5) + "  "@ + body),
            OpView::Reset,
            OpView::Newline,
        ]
    } else {
        number_ops(line, 6) + seq![
            OpView::SetColor(dim_style()),
            OpView::Text(body),
            OpView::Reset,
            OpView::Newline,
        ]
    }
}

/// A line, changed or not.
pub open spec fn line_ops(
    lines: Seq<Seq<char>>,
    changes: Seq<ChangeView>,
    line: int,
    preview: Preview,
) -> Seq<OpView> {
    match change_at(changes, line, changes.len()) {
        Some(c) => change_ops(changes[c], line, preview),
        None => context_ops(body_of(lines[line]), line, preview),
    }
}

/// The lines from `start` up to but without `end`.
pub open spec fn lines_ops(
    lines: Seq<Seq<char>>,
    changes: Seq<ChangeView>,
    start: int,
    end: int,
    preview: Preview,
) -> Seq<OpView>
    decreases end - start,
{
    if end <= start {
        seq![]
    } else {
        lines_ops(lines, changes, start, end - 1, preview) + line_ops(
            lines,
            changes,
            end - 1,
            preview,
        )
    }
}

/// The mark between two runs of lines.
pub open spec fn gap_ops() -> Seq<OpView> {
    seq![
        OpView::SetColor(dim_style()),
        OpView::Text("        \u{22ee}"@),
        OpView::Newline,
        OpView::Reset,
    ]
}

/// The first `k` runs of lines, with marks between them.
pub open spec fn hunks_ops(
    lines: Seq<Seq<char>>,
    changes: Seq<ChangeView>,
    hunks: Seq<(int, int)>,
    preview: Preview,
    k: nat,
) -> Seq<OpView>
    decreases k,
{
    if k == 0 {
        seq![]
    } else {
        let before = hunks_ops(lines, changes, hunks, preview, (k - 1) as nat);
        let marked = if k > 1 {
            before + gap_ops()
        } else {
            before
        };
        marked + lines_ops(lines, changes, hunks[k - 1].0, hunks[k - 1].1 + 1, preview)
    }
}

/// The name of a file.
pub open spec fn path_ops(display: Seq<char>) -> Seq<OpView> {
    seq![
        OpView::SetColor(fg_style(Color::Magenta, true)),
        OpView::Text(display),
        OpView::Newline,
        OpView::Reset,
    ]
}

/// A file with its changes in their context.
pub open spec fn preview_ops(edit: FileEdit, context: int, preview: Preview) -> Seq<OpView> {
    let hunks = hunks_of(edit.changes@, context, edit.lines@.len() as int);
    (path_ops(edit.path.display@) + hunks_ops(
        edit.line_views(),
        edit.change_views(),
        hunks,
        preview,
        hunks.len(),
    )).push(OpView::Newline)
}

/// A changed line without context.
pub open spec fn compact_change_ops(change: ChangeView, preview: Preview) -> Seq<OpView> {
    (number_ops(change.line_idx, 6) + if preview == Preview::New {
        segment_ops(change.new, fg_style(Color::Green, true))
    } else {
        segment_ops(change.orig, fg_style(Color::Yellow, true))
    }).push(OpView::Newline)
}

/// The same output so many times.
pub open spec fn repeated(ops: Seq<OpView>, times: nat) -> Seq<OpView>
    decreases times,
{
    if times == 0 {
        seq![]
    } else {
        repeated(ops, (times - 1) as nat) + ops
    }
}

/// The first `k` changed lines without context, each once for every match in it.
pub open spec fn compact_changes_ops(
    changes: Seq<ChangeView>,
    preview: Preview,
    k: nat,
) -> Seq<OpView>
    decreases k,
{
    if k == 0 {
        seq![]
    } else {
        compact_changes_ops(changes, preview, (k - 1) as nat) + repeated(
            compact_change_ops(changes[k - 1], preview),
            highlighted(changes[k - 1].orig).len(),
        )
    }
}

/// A file with its changed lines without context, one row for every match.
pub open spec fn compact_ops(edit: FileEdit, preview: Preview) -> Seq<OpView> {
    (path_ops(edit.path.display@) + compact_changes_ops(
        edit.change_views(),
        preview,
        edit.changes@.len(),
    )).push(OpView::Newline)
}

fn push_number(out: &mut Vec<Op>, line: usize, width: usize)
    requires
        line < usize::MAX,
    ensures
        op_views(final(out)@) == op_views(old(out)@) + number_ops(line as int, width as nat),
{
    emit(out, Op::SetColor(Style::fg(Color::Cyan, false)));
    let mut number = String::new();
    push_padded(&mut number, line + 1, width);
    number.append("  ");
    proof {
        let p = padded(decimal((line + 1) as nat), width as nat);
        assert(Seq::<char>::empty() + p == p);
    }
    emit(out, Op::Text(number));
    emit(out, Op::Reset);
    proof {
        assert(op_views(out@) == op_views(old(out)@) + number_ops(line as int, width as nat));
    }
}

/// Writes the segments of a line.
pub fn write_segments(out: &mut Vec<Op>, segments: &Vec<(String, bool)>, highlight: Style)
    ensures
        op_views(final(out)@) == op_views(old(out)@) + segment_ops(
            seg_views(segments@),
            highlight,
        ),
{
    let ghost start = op_views(out@);
    let ghost views = seg_views(segments@);
    let mut i: usize = 0;
    proof {
        assert(views.take(0) == Seq::<(Seq<char>, bool)>::empty());
        assert(start + each_segment_ops(views.take(0), highlight) == start);
    }
    while i < segments.len()
        invariant
            i <= segments@.len(),
            views == seg_views(segments@),
            op_views(out@) == start + each_segment_ops(views.take(i as int), highlight),
        decreases segments@.len() - i,
    {
        let ghost before = op_views(out@);
        let marked = segments[i].1;
        if marked {
            emit(out, Op::SetColor(highlight));
        } else {
            emit(out, Op::Reset);
        }
        emit(out, Op::Text(segments[i].0.clone()));
        proof {
            assert(views.take(i + 1).drop_last() == views.take(i as int));
            assert(views.take(i + 1).last() == views[i as int]);
            assert(op_views(out@) == start + each_segment_ops(views.take(i + 1), highlight));
        }
        i = i + 1;
    }
    emit(out, Op::Reset);
    proof {
        assert(views.take(views.len() as int) == views);
        assert(op_views(out@) == start + segment_ops(views, highlight));
    }
}

fn push_signed_number(out: &mut Vec<Op>, sign: &str, color: Color, line: usize)
    requires
        line < usize::MAX,
    ensures
        op_views(final(out)@) == op_views(old(out)@) + signed_number_ops(
            sign@,
            color,
            line as int,
        ),
{
    emit(out, Op::SetColor(Style::fg(color, true)));
    emit(out, Op::Text(sign.to_owned()));
    push_number(out, line, 5);
    proof {
        assert(op_views(out@) == op_views(old(out)@) + signed_number_ops(
            sign@,
            color,
            line as int,
        ));
    }
}

fn push_change(out: &mut Vec<Op>, change: &Change, line: usize, preview: Preview)
    requires
        line < usize::MAX,
    ensures
        op_views(final(out)@) == op_views(old(out)@) + change_ops(change@, line as int, preview),
{
    match preview {
        Preview::Old => {
            push_number(out, line, 6);
            write_segments(out, &change.orig_segments, Style::fg(Color::Yellow, true));
            emit(out, Op::Newline);
        },
        Preview::New => {
            push_number(out, line, 6);
            write_segments(out, &change.new_segments, Style::fg(Color::Green, true));
            emit(out, Op::Newline);
        },
        Preview::Diff => {
            push_signed_number(out, "-", Color::Red, line);
            write_segments(out, &change.orig_segments, Style::fg(Color::Red, true));
            emit(out, Op::Newline);
            push_signed_number(out, "+", Color::Green, line);
            write_segments(out, &change.new_segments, Style::fg(Color::Green, true));
            emit(out, Op::Newline);
        },
    }
    proof {
        assert(op_views(out@) == op_views(old(out)@) + change_ops(change@, line as int, preview));
    }
}

fn push_context(out: &mut Vec<Op>, body: &str, line: usize, preview: Preview)
    requires
        line < usize::MAX,
    ensures
        op_views(final(out)@) == op_views(old(out)@) + context_ops(body@, line as int, preview),
{
    if preview == Preview::Diff {
        emit(out, Op::SetColor(Style::dimmed()));
        let mut text = " ".to_owned();
        push_padded(&mut text, line + 1, 5);
        text.append("  ");
        text.append(body);
        emit(out, Op::Text(text));
        emit(out, Op::Reset);
        emit(out, Op::Newline);
    } else {
        push_number(out, line, 6);
        emit(out, Op::SetColor(Style::dimmed()));
        emit(out, Op::Text(body.to_owned()));
        emit(out, Op::Reset);
        emit(out, Op::Newline);
    }
    proof {
        assert(op_views(out@) == op_views(old(out)@) + context_ops(body@, line as int, preview));
    }
}

/// Writes the lines from `start` up to and with `end`.
pub fn print_hunk(
    out: &mut Vec<Op>,
    edit: &FileEdit,
    table: &HashMap<usize, usize>,
    start: usize,
    end: usize,
    preview: Preview,
)
    requires
        start <= end ==> end < edit.lines@.len(),
        tells_changes(table@, edit.change_views()),
    ensures
        op_views(final(out)@) == op_views(old(out)@) + lines_ops(
            edit.line_views(),
            edit.change_views(),
            start as int,
            end + 1,
            preview,
        ),
{
    let ghost before = op_views(out@);
    let ghost lines = edit.line_views();
    let ghost changes = edit.change_views();
    let n = edit.lines.len();
    let mut line: usize = start;
    proof {
        assert(before + lines_ops(lines, changes, start as int, start as int, preview) == before);
    }
    while line <= end
        invariant
            start <= line,
            line == start || line <= end + 1,
            start <= end ==> end < n,
            n == edit.lines@.len(),
            lines == edit.line_views(),
            changes == edit.change_views(),
            tells_changes(table@, changes),
            op_views(out@) == before + lines_ops(
                lines,
                changes,
                start as int,
                line as int,
                preview,
            ),
        decreases end + 1 - line,
    {
        let ghost so_far = op_views(out@);
        let (body, _newline) = split_nl(edit.lines[line].as_str());
        proof {
            assert(table@.contains_key(line) || !table@.contains_key(line));
        }
        match table.get(&line) {
            Some(c) => {
                proof {
                    assert(changes[*c as int] == edit.changes@[*c as int]@);
                }
                push_change(out, &edit.changes[*c], line, preview);
            },
            None => {
                push_context(out, body, line, preview);
            },
        }
        proof {
            let one = line_ops(lines, changes, line as int, preview);
            assert(op_views(out@) == so_far + one);
            assert(before + (lines_ops(lines, changes, start as int, line as int, preview) + one)
                == so_far + one);
        }
        line = line + 1;
    }
}

fn push_path(out: &mut Vec<Op>, display: &str)
    ensures
        op_views(final(out)@) == op_views(old(out)@) + path_ops(display@),
{
    emit(out, Op::SetColor(Style::fg(Color::Magenta, true)));
    emit(out, Op::Text(display.to_owned()));
    emit(out, Op::Newline);
    emit(out, Op::Reset);
    proof {
        assert(op_views(out@) == op_views(old(out)@) + path_ops(display@));
    }
}

fn push_gap(out: &mut Vec<Op>)
    ensures
        op_views(final(out)@) == op_views(old(out)@) + gap_ops(),
{
    emit(out, Op::SetColor(Style::dimmed()));
    emit(out, Op::Text("        \u{22ee}".to_owned()));
    emit(out, Op::Newline);
    emit(out, Op::Reset);
    proof {
        assert(op_views(out@) == op_views(old(out)@) + gap_ops());
    }
}

/// Writes a file with its changes in their context.
pub fn print_file_preview(edit: &FileEdit, context: usize, preview: Preview, out: &mut Vec<Op>)
    requires
        edit.wf(),
        context_fits(*edit, context as int),
    ensures
        op_views(final(out)@) == op_views(old(out)@) + preview_ops(*edit, context as int, preview),
{
    let ghost lines = edit.line_views();
    let ghost changes = edit.change_views();
    push_path(out, edit.path.display.as_str());
    let table = index_changes(&edit.changes);
    let hunks = build_hunks(edit.changes.as_slice(), context, edit.lines.len());
    let ghost hv = hunk_views(hunks@);
    let ghost start = op_views(out@);
    proof {
        lemma_wf_ascending(*edit);
        assert(start + hunks_ops(lines, changes, hv, preview, 0) == start);
    }
    let mut i: usize = 0;
    while i < hunks.len()
        invariant
            i <= hunks@.len(),
            hv == hunk_views(hunks@),
            apart(hv, edit.lines@.len() as int),
            lines == edit.line_views(),
            changes == edit.change_views(),
            tells_changes(table@, changes),
            op_views(out@) == start + hunks_ops(lines, changes, hv, preview, i as nat),
        decreases hunks@.len() - i,
    {
        let ghost so_far = op_views(out@);
        if i > 0 {
            push_gap(out);
        }
        let hunk = hunks[i];
        proof {
            assert(hv[i as int] == (hunk.start as int, hunk.end as int));
        }
        print_hunk(out, edit, &table, hunk.start, hunk.end, preview);
        proof {
            let before = hunks_ops(lines, changes, hv, preview, i as nat);
            let body = lines_ops(lines, changes, hunk.start as int, hunk.end + 1, preview);
            if i > 0 {
                assert(start + (before + gap_ops() + body) == start + before + gap_ops() + body);
            } else {
                assert(start + (before + body) == start + before + body);
            }
        }
        i = i + 1;
    }
    emit(out, Op::Newline);
    proof {
        assert(op_views(out@) == op_views(old(out)@) + preview_ops(
            *edit,
            context as int,
            preview,
        ));
    }
}

/// Writes a changed line without context.
fn print_compact_row(out: &mut Vec<Op>, change: &Change, preview: Preview)
    requires
        change.line_idx < usize::MAX,
    ensures
        op_views(final(out)@) == op_views(old(out)@) + compact_change_ops(change@, preview),
{
    push_number(out, change.line_idx, 6);
    if preview == Preview::New {
        write_segments(out, &change.new_segments, Style::fg(Color::Green, true));
    } else {
        write_segments(out, &change.orig_segments, Style::fg(Color::Yellow, true));
    }
    emit(out, Op::Newline);
    proof {
        assert(op_views(out@) == op_views(old(out)@) + compact_change_ops(change@, preview));
    }
}

/// Writes a changed line without context once for every match in it.
fn print_compact_change(out: &mut Vec<Op>, change: &Change, preview: Preview)
    requires
        change.line_idx < usize::MAX,
    ensures
        op_views(final(out)@) == op_views(old(out)@) + repeated(
            compact_change_ops(change@, preview),
            highlighted(change@.orig).len(),
        ),
{
    let ghost start = op_views(out@);
    let ghost orig = change@.orig;
    let ghost one = compact_change_ops(change@, preview);
    let mut i: usize = 0;
    proof {
        assert(orig.take(0) == Seq::<(Seq<char>, bool)>::empty());
        assert(start + repeated(one, 0) == start);
    }
    while i < change.orig_segments.len()
        invariant
            change.line_idx < usize::MAX,
            i <= change.orig_segments@.len(),
            orig == change@.orig,
            one == compact_change_ops(change@, preview),
            op_views(out@) == start + repeated(one, marks_before(orig, i as int) as nat),
        decreases change.orig_segments@.len() - i,
    {
        proof {
            lemma_highlighted_take(orig, i as int);
            assert(orig[i as int].1 == change.orig_segments@[i as int].1);
        }
        if change.orig_segments[i].1 {
            let ghost so_far = repeated(one, marks_before(orig, i as int) as nat);
            print_compact_row(out, change, preview);
            proof {
                assert(start + (so_far + one) == start + so_far + one);
            }
        }
        i = i + 1;
    }
    proof {
        assert(orig.take(orig.len() as int) == orig);
    }
}

/// Writes a file with its changed lines without context, one row for every match.
pub fn print_file_compact(edit: &FileEdit, preview: Preview, out: &mut Vec<Op>)
    requires
        forall|i: int|
            0 <= i < edit.changes@.len() ==> (#[trigger] edit.changes@[i]).line_idx < usize::MAX,
    ensures
        op_views(final(out)@) == op_views(old(out)@) + compact_ops(*edit, preview),
{
    let ghost changes = edit.change_views();
    push_path(out, edit.path.display.as_str());
    let ghost start = op_views(out@);
    proof {
        assert(start + compact_changes_ops(changes, preview, 0) == start);
    }
    let mut i: usize = 0;
    while i < edit.changes.len()
        invariant
            i <= edit.changes@.len(),
            changes == edit.change_views(),
            forall|i: int|
                0 <= i < edit.changes@.len() ==> (#[trigger] edit.changes@[i]).line_idx
                    < usize::MAX,
            op_views(out@) == start + compact_changes_ops(changes, preview, i as nat),
        decreases edit.changes@.len() - i,
    {
        let ghost so_far = op_views(out@);
        print_compact_change(out, &edit.changes[i], preview);
        proof {
            let own = repeated(
                compact_change_ops(changes[i as int], preview),
                highlighted(changes[i as int].orig).len(),
            );
            assert(op_views(out@) == so_far + own);
            assert(start + (compact_changes_ops(changes, preview, i as nat) + own) == so_far + own);
        }
        i = i + 1;
    }
    emit(out, Op::Newline);
    proof {
        assert(op_views(out@) == op_views(old(out)@) + compact_ops(*edit, preview));
    }
}

// Matches, one to a row.

/// The row for a match: the file, the line, the column in bytes, and the line itself.
pub open spec fn vimgrep_row(display: Seq<char>, line: int, column: nat, body: Seq<char>) -> Seq<
    char,
> {
    display + ":"@ + decimal((line + 1) as nat) + ":"@ + decimal(column) + ":"@ + body
}

/// The rows for the matches among the first `k` segments of a line.
pub open spec fn vimgrep_line_ops(
    display: Seq<char>,
    line: int,
    body: Seq<char>,
    segments: Seq<(Seq<char>, bool)>,
    k: nat,
) -> Seq<OpView>
    decreases k,
{
    if k == 0 {
        seq![]
    } else {
        let before = vimgrep_line_ops(display, line, body, segments, (k - 1) as nat);
        if segments[k - 1].1 {
            let column = 1 + byte_len(seg_text(segments.take(k - 1)));
            before.push(OpView::Text(vimgrep_row(display, line, column, body))).push(
                OpView::Newline,
            )
        } else {
            before
        }
    }
}

/// The rows for the matches in the first `k` lines of a file that have any.
pub open spec fn vimgrep_ops(edit: FileEdit, k: nat) -> Seq<OpView>
    decreases k,
{
    if k == 0 {
        seq![]
    } else {
        let line = edit.matched_views()[k - 1];
        vimgrep_ops(edit, (k - 1) as nat) + vimgrep_line_ops(
            edit.path.display@,
            line.line_idx,
            body_of(edit.line_views()[line.line_idx]),
            line.orig,
            line.orig.len(),
        )
    }
}

fn vimgrep_line(
    out: &mut Vec<Op>,
    display: &str,
    line: usize,
    body: &str,
    segments: &Vec<(String, bool)>,
)
    requires
        line < usize::MAX,
        byte_len(seg_text(seg_views(segments@))) < usize::MAX,
    ensures
        op_views(final(out)@) == op_views(old(out)@) + vimgrep_line_ops(
            display@,
            line as int,
            body@,
            seg_views(segments@),
            segments@.len(),
        ),
{
    let ghost start = op_views(out@);
    let ghost views = seg_views(segments@);
    let mut offset: usize = 0;
    let mut i: usize = 0;
    proof {
        assert(seg_texts(views.take(0)) == Seq::<Seq<char>>::empty());
        assert(start + vimgrep_line_ops(display@, line as int, body@, views, 0) == start);
    }
    while i < segments.len()
        invariant
            i <= segments@.len(),
            views == seg_views(segments@),
            line < usize::MAX,
            byte_len(seg_text(views)) < usize::MAX,
            offset == byte_len(seg_text(views.take(i as int))),
            op_views(out@) == start + vimgrep_line_ops(
                display@,
                line as int,
                body@,
                views,
                i as nat,
            ),
        decreases segments@.len() - i,
    {
        proof {
            lemma_prefix_len(views, i as int);
            lemma_prefix_len(views, i + 1);
            assert(seg_texts(views.take(i + 1)) == seg_texts(views.take(i as int)).push(
                views[i as int].0,
            ));
            lemma_join_push(seg_texts(views.take(i as int)), views[i as int].0);
            lemma_encode_concat(seg_text(views.take(i as int)), views[i as int].0);
        }
        let ghost so_far = op_views(out@);
        if segments[i].1 {
            let mut row = display.to_owned();
            row.append(":");
            push_decimal(&mut row, line + 1);
            row.append(":");
            push_decimal(&mut row, offset + 1);
            row.append(":");
            row.append(body);
            emit(out, Op::Text(row));
            emit(out, Op::Newline);
        }
        proof {
            assert(op_views(out@) == start + vimgrep_line_ops(
                display@,
                line as int,
                body@,
                views,
                (i + 1) as nat,
            ));
        }
        offset = offset + str_len(segments[i].0.as_str());
        i = i + 1;
    }
}

/// The first segments are no longer than all of them.
proof fn lemma_prefix_len(segments: Seq<(Seq<char>, bool)>, k: int)
    requires
        0 <= k <= segments.len(),
    ensures
        byte_len(seg_text(segments.take(k))) <= byte_len(seg_text(segments)),
    decreases segments.len() - k,
{
    if k == segments.len() {
        assert(segments.take(k) == segments);
    } else {
        lemma_prefix_len(segments, k + 1);
        assert(seg_texts(segments.take(k + 1)) == seg_texts(segments.take(k)).push(segments[k].0));
        lemma_join_push(seg_texts(segments.take(k)), segments[k].0);
        lemma_encode_concat(seg_text(segments.take(k)), segments[k].0);
    }
}

/// Writes the matches of a file, one to a row, whether or not a replacement changes anything.
pub fn print_file_vimgrep(edit: &FileEdit, out: &mut Vec<Op>)
    requires
        edit.wf(),
    ensures
        op_views(final(out)@) == op_views(old(out)@) + vimgrep_ops(*edit, edit.matched@.len()),
{
    let ghost start = op_views(out@);
    let n = edit.lines.len();
    let mut i: usize = 0;
    proof {
        assert(start + vimgrep_ops(*edit, 0) == start);
    }
    while i < edit.matched.len()
        invariant
            i <= edit.matched@.len(),
            n == edit.lines@.len(),
            edit.wf(),
            op_views(out@) == start + vimgrep_ops(*edit, i as nat),
        decreases edit.matched@.len() - i,
    {
        let found = &edit.matched[i];
        proof {
            assert(edit.matched_views()[i as int] == found@);
            assert(fit_lines(edit.line_views(), edit.matched_views()));
            lemma_part_len(edit.line_views(), found.line_idx as int);
        }
        let ghost so_far = op_views(out@);
        let (body, newline) = split_nl(edit.lines[found.line_idx].as_str());
        proof {
            lemma_encode_concat(body@, newline@);
        }
        vimgrep_line(
            out,
            edit.path.display.as_str(),
            found.line_idx,
            body,
            &found.orig_segments,
        );
        proof {
            let one = vimgrep_line_ops(
                edit.path.display@,
                found.line_idx as int,
                body@,
                found@.orig,
                found@.orig.len(),
            );
            assert(op_views(out@) == so_far + one);
            assert(start + (vimgrep_ops(*edit, i as nat) + one) == so_far + one);
        }
        i = i + 1;
    }
}

} // verus!
