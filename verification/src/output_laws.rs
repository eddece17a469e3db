//! What is seen of the output that scrolls by.
use vstd::prelude::*;

use crate::cli::Preview;
use crate::edit::{change_at, fits_line, ChangeView, FileEdit};
use crate::hunks::{
    changed_lines, file_rows, hunks_of, in_hunks, law_hunks_show_the_context, lemma_wf_ascending,
    near_change,
};
use crate::lines::{body_of, decimal, padded};
use crate::report::{
    change_ops, context_ops, each_segment_ops, gap_ops, hunks_ops, line_ops, lines_ops, number_ops,
    path_ops, preview_ops, segment_ops, signed_number_ops,
};
use crate::report_laws::law_preview_rows_are_the_estimate;
use crate::segments::{seg_text, seg_texts};
use crate::style::{dim_style, fg_style, rows_of, Color, OpView, Style};

verus! {

// A screen that output is written to.

/// Rows of text of one look each: a look, or plain text.
#[verifier::ext_equal]
pub struct Screen {
    /// The rows that are complete.
    pub rows: Seq<Seq<(Seq<char>, Option<Style>)>>,
    /// The row that is being written.
    pub row: Seq<(Seq<char>, Option<Style>)>,
    /// The look of text from here on.
    pub look: Option<Style>,
}

/// A screen after one step of output.
pub open spec fn stepped(s: Screen, op: OpView) -> Screen {
    match op {
        OpView::SetColor(style) => Screen { look: Some(style), ..s },
        OpView::Reset => Screen { look: None, ..s },
        OpView::Text(text) => Screen { row: s.row.push((text, s.look)), ..s },
        OpView::Newline => Screen { rows: s.rows.push(s.row), row: seq![], ..s },
    }
}

/// A screen after some output.
pub open spec fn drawn(s: Screen, ops: Seq<OpView>) -> Screen
    decreases ops.len(),
{
    if ops.len() == 0 {
        s
    } else {
        stepped(drawn(s, ops.drop_last()), ops.last())
    }
}

/// A screen at the start of a row, with plain text to come.
pub open spec fn at_row_start(s: Screen) -> bool {
    s.row.len() == 0 && s.look is None
}

/// The same screen with more rows.
pub open spec fn with_rows(s: Screen, rows: Seq<Seq<(Seq<char>, Option<Style>)>>) -> Screen {
    Screen { rows: s.rows + rows, ..s }
}

/// One more step of output.
pub proof fn lemma_drawn_push(s: Screen, ops: Seq<OpView>, op: OpView)
    ensures
        drawn(s, ops.push(op)) == stepped(drawn(s, ops), op),
{
    assert(ops.push(op).drop_last() == ops);
}

/// Output in two parts.
pub proof fn lemma_drawn_concat(s: Screen, a: Seq<OpView>, b: Seq<OpView>)
    ensures
        drawn(s, a + b) == drawn(drawn(s, a), b),
    decreases b.len(),
{
    if b.len() == 0 {
        assert(a + b == a);
    } else {
        lemma_drawn_concat(s, a, b.drop_last());
        assert((a + b).drop_last() == a + b.drop_last());
    }
}

proof fn lemma_drawn_three(s: Screen, a: OpView, b: OpView, c: OpView)
    ensures
        drawn(s, seq![a, b, c]) == stepped(stepped(stepped(s, a), b), c),
{
    let none = Seq::<OpView>::empty();
    lemma_drawn_push(s, none, a);
    lemma_drawn_push(s, none.push(a), b);
    lemma_drawn_push(s, none.push(a).push(b), c);
    assert(seq![a, b, c] == none.push(a).push(b).push(c));
}

proof fn lemma_drawn_four(s: Screen, a: OpView, b: OpView, c: OpView, d: OpView)
    ensures
        drawn(s, seq![a, b, c, d]) == stepped(stepped(stepped(stepped(s, a), b), c), d),
{
    lemma_drawn_three(s, a, b, c);
    lemma_drawn_push(s, seq![a, b, c], d);
    assert(seq![a, b, c, d] == seq![a, b, c].push(d));
}

// What is to be seen.

/// Bold text in a colour.
pub open spec fn bold(color: Color) -> Option<Style> {
    Some(Style { fg: Some(color), bg: None, bold: true, dim: false })
}

/// Text in a colour.
pub open spec fn coloured(color: Color) -> Option<Style> {
    Some(Style { fg: Some(color), bg: None, bold: false, dim: false })
}

/// Faint text.
pub open spec fn faint() -> Option<Style> {
    Some(Style { fg: None, bg: None, bold: false, dim: true })
}

/// The number of a line, counted from one, in a column of its own.
pub open spec fn number(line: int, width: nat) -> Seq<char> {
    padded(decimal((line + 1) as nat), width) + "  "@
}

/// The segments of a line, the highlighted ones in a colour and the others plain.
pub open spec fn pieces(segments: Seq<(Seq<char>, bool)>, color: Color) -> Seq<
    (Seq<char>, Option<Style>),
> {
    Seq::new(
        segments.len(),
        |i: int|
            (
                segments[i].0,
                if segments[i].1 {
                    bold(color)
                } else {
                    None
                },
            ),
    )
}

/// The rows of a changed line: as it was, as it will be, or one above the other with a sign.
pub open spec fn changed_line_rows(change: ChangeView, preview: Preview) -> Seq<
    Seq<(Seq<char>, Option<Style>)>,
> {
    let line = change.line_idx;
    match preview {
        Preview::Old => seq![
            seq![(number(line, 6), coloured(Color::Cyan))] + pieces(change.orig, Color::Yellow),
        ],
        Preview::New => seq![
            seq![(number(line, 6), coloured(Color::Cyan))] + pieces(change.new, Color::Green),
        ],
        Preview::Diff => seq![
            seq![("-"@, bold(Color::Red)), (number(line, 5), coloured(Color::Cyan))] + pieces(
                change.orig,
                Color::Red,
            ),
            seq![("+"@, bold(Color::Green)), (number(line, 5), coloured(Color::Cyan))] + pieces(
                change.new,
                Color::Green,
            ),
        ],
    }
}

/// The row of a line that stays as it is.
pub open spec fn other_line_row(body: Seq<char>, line: int, preview: Preview) -> Seq<
    (Seq<char>, Option<Style>),
> {
    if preview == Preview::Diff {
        seq![(" "@ + padded(decimal((line + 1) as nat), 5) + "  "@ + body, faint())]
    } else {
        seq![(number(line, 6), coloured(Color::Cyan)), (body, faint())]
    }
}

/// A change belongs to this line.
pub open spec fn is_changed(edit: FileEdit, line: int) -> bool {
    exists|c: int| 0 <= c < edit.changes@.len() && (#[trigger] edit.changes@[c]).line_idx == line
}

/// The change that belongs to this line.
pub open spec fn change_in(edit: FileEdit, line: int) -> ChangeView {
    edit.changes@[choose|c: int|
        0 <= c < edit.changes@.len() && (#[trigger] edit.changes@[c]).line_idx == line]@
}

/// The rows of a line of a file.
pub open spec fn rows_of_line(edit: FileEdit, line: int, preview: Preview) -> Seq<
    Seq<(Seq<char>, Option<Style>)>,
> {
    if is_changed(edit, line) {
        changed_line_rows(change_in(edit, line), preview)
    } else {
        seq![other_line_row(body_of(edit.lines@[line]@), line, preview)]
    }
}

/// The line is one of those around a changed line that are shown with it.
pub open spec fn is_near(edit: FileEdit, context: int, line: int) -> bool {
    exists|c: int|
        0 <= c < edit.changes@.len() && (#[trigger] edit.changes@[c]).line_idx - context <= line
            <= edit.changes@[c].line_idx + context
}

/// The rows of those of the first `k` lines that are near a change. A mark stands where lines
/// were left out between two that are shown.
pub open spec fn near_rows(edit: FileEdit, context: int, preview: Preview, k: nat) -> Seq<
    Seq<(Seq<char>, Option<Style>)>,
>
    decreases k,
{
    if k == 0 {
        seq![]
    } else {
        let before = near_rows(edit, context, preview, (k - 1) as nat);
        if !is_near(edit, context, k - 1) {
            before
        } else if before.len() > 0 && !is_near(edit, context, k - 2) {
            before.push(seq![("        \u{22ee}"@, faint())]) + rows_of_line(edit, k - 1, preview)
        } else {
            before + rows_of_line(edit, k - 1, preview)
        }
    }
}

// Pieces of output on a screen.

proof fn lemma_number(s: Screen, line: int, width: nat)
    ensures
        drawn(s, number_ops(line, width)) == (Screen {
            row: s.row.push((number(line, width), coloured(Color::Cyan))),
            look: None,
            ..s
        }),
{
    let ops = number_ops(line, width);
    lemma_drawn_three(s, ops[0], ops[1], ops[2]);
    assert(ops == seq![ops[0], ops[1], ops[2]]);
}

proof fn lemma_each_segment(
    s: Screen,
    segments: Seq<(Seq<char>, bool)>,
    color: Color,
    highlight: Style,
)
    requires
        bold(color) == Some(highlight),
    ensures
        drawn(s, each_segment_ops(segments, highlight)).rows == s.rows,
        drawn(s, each_segment_ops(segments, highlight)).row == s.row + pieces(segments, color),
    decreases segments.len(),
{
    if segments.len() == 0 {
        assert(s.row + pieces(segments, color) == s.row);
    } else {
        let rest = segments.drop_last();
        lemma_each_segment(s, rest, color, highlight);
        let before = each_segment_ops(rest, highlight);
        let look = if segments.last().1 {
            OpView::SetColor(highlight)
        } else {
            OpView::Reset
        };
        lemma_drawn_push(s, before, look);
        lemma_drawn_push(s, before.push(look), OpView::Text(segments.last().0));
        assert(pieces(segments, color) == pieces(rest, color).push(
            pieces(segments, color)[segments.len() - 1],
        ));
        assert(s.row + pieces(segments, color) == (s.row + pieces(rest, color)).push(
            pieces(segments, color)[segments.len() - 1],
        ));
    }
}

proof fn lemma_segments(
    s: Screen,
    segments: Seq<(Seq<char>, bool)>,
    color: Color,
    highlight: Style,
)
    requires
        bold(color) == Some(highlight),
    ensures
        drawn(s, segment_ops(segments, highlight)) == (Screen {
            row: s.row + pieces(segments, color),
            look: None,
            ..s
        }),
{
    lemma_each_segment(s, segments, color, highlight);
    lemma_drawn_push(s, each_segment_ops(segments, highlight), OpView::Reset);
}

/// The number of a line and its segments make a row.
pub proof fn lemma_numbered_row(
    s: Screen,
    line: int,
    segments: Seq<(Seq<char>, bool)>,
    color: Color,
    highlight: Style,
)
    requires
        at_row_start(s),
        bold(color) == Some(highlight),
    ensures
        drawn(
            s,
            (number_ops(line, 6) + segment_ops(segments, highlight)).push(OpView::Newline),
        ) == with_rows(
            s,
            seq![seq![(number(line, 6), coloured(Color::Cyan))] + pieces(segments, color)],
        ),
{
    let a = number_ops(line, 6);
    let b = segment_ops(segments, highlight);
    lemma_number(s, line, 6);
    lemma_drawn_concat(s, a, b);
    lemma_segments(drawn(s, a), segments, color, highlight);
    lemma_drawn_push(s, a + b, OpView::Newline);
    assert(s.row.push((number(line, 6), coloured(Color::Cyan))) == seq![
        (number(line, 6), coloured(Color::Cyan)),
    ]);
    let end = drawn(s, (a + b).push(OpView::Newline));
    let row = seq![(number(line, 6), coloured(Color::Cyan))] + pieces(segments, color);
    assert(end.rows == s.rows + seq![row]);
    assert(end.row == s.row);
}

proof fn lemma_signed_row(
    s: Screen,
    sign: Seq<char>,
    line: int,
    segments: Seq<(Seq<char>, bool)>,
    color: Color,
    highlight: Style,
)
    requires
        at_row_start(s),
        bold(color) == Some(highlight),
    ensures
        drawn(
            s,
            (signed_number_ops(sign, color, line) + segment_ops(segments, highlight)).push(
                OpView::Newline,
            ),
        ) == with_rows(
            s,
            seq![
                seq![(sign, bold(color)), (number(line, 5), coloured(Color::Cyan))] + pieces(
                    segments,
                    color,
                ),
            ],
        ),
{
    let none = Seq::<OpView>::empty();
    let look = OpView::SetColor(fg_style(color, true));
    let first = seq![look, OpView::Text(sign)];
    lemma_drawn_push(s, none, look);
    lemma_drawn_push(s, none.push(look), OpView::Text(sign));
    assert(first == none.push(look).push(OpView::Text(sign)));
    let s1 = drawn(s, first);
    let a = signed_number_ops(sign, color, line);
    assert(a == first + number_ops(line, 5));
    lemma_drawn_concat(s, first, number_ops(line, 5));
    lemma_number(s1, line, 5);
    let b = segment_ops(segments, highlight);
    lemma_drawn_concat(s, a, b);
    lemma_segments(drawn(s, a), segments, color, highlight);
    lemma_drawn_push(s, a + b, OpView::Newline);
    let head = seq![(sign, bold(color)), (number(line, 5), coloured(Color::Cyan))];
    assert(drawn(s, a).row == head);
    let end = drawn(s, (a + b).push(OpView::Newline));
    assert(end.rows == s.rows + seq![head + pieces(segments, color)]);
    assert(end.row == s.row);
}

proof fn lemma_change(s: Screen, change: ChangeView, preview: Preview)
    requires
        at_row_start(s),
    ensures
        drawn(s, change_ops(change, change.line_idx, preview)) == with_rows(
            s,
            changed_line_rows(change, preview),
        ),
{
    let line = change.line_idx;
    match preview {
        Preview::Old => {
            lemma_numbered_row(
                s,
                line,
                change.orig,
                Color::Yellow,
                fg_style(Color::Yellow, true),
            );
        },
        Preview::New => {
            lemma_numbered_row(
                s,
                line,
                change.new,
                Color::Green,
                fg_style(Color::Green, true),
            );
        },
        Preview::Diff => {
            let red = fg_style(Color::Red, true);
            let green = fg_style(Color::Green, true);
            lemma_signed_row(s, "-"@, line, change.orig, Color::Red, red);
            let a = (signed_number_ops("-"@, Color::Red, line) + segment_ops(
                change.orig,
                red,
            )).push(OpView::Newline);
            let b = (signed_number_ops("+"@, Color::Green, line) + segment_ops(
                change.new,
                green,
            )).push(OpView::Newline);
            lemma_drawn_concat(s, a, b);
            lemma_signed_row(drawn(s, a), "+"@, line, change.new, Color::Green, green);
            assert(drawn(s, a + b).rows == s.rows + changed_line_rows(change, preview));
        },
    }
}

proof fn lemma_context(s: Screen, body: Seq<char>, line: int, preview: Preview)
    requires
        at_row_start(s),
    ensures
        drawn(s, context_ops(body, line, preview)) == with_rows(
            s,
            seq![other_line_row(body, line, preview)],
        ),
{
    let look = OpView::SetColor(dim_style());
    if preview == Preview::Diff {
        let text = OpView::Text(" "@ + padded(decimal((line + 1) as nat), 5) + "  "@ + body);
        lemma_drawn_four(s, look, text, OpView::Reset, OpView::Newline);
    } else {
        let tail = seq![look, OpView::Text(body), OpView::Reset, OpView::Newline];
        lemma_drawn_concat(s, number_ops(line, 6), tail);
        lemma_number(s, line, 6);
        lemma_drawn_four(
            drawn(s, number_ops(line, 6)),
            look,
            OpView::Text(body),
            OpView::Reset,
            OpView::Newline,
        );
    }
    let end = drawn(s, context_ops(body, line, preview));
    assert(s.row == Seq::<(Seq<char>, Option<Style>)>::empty());
    assert(end.rows == s.rows + seq![other_line_row(body, line, preview)]) by {
        assert(end.rows == s.rows.push(end.rows.last()));
        assert(end.rows.last() =~= other_line_row(body, line, preview));
    }
}

proof fn lemma_change_at(changes: Seq<ChangeView>, line: int, k: nat)
    requires
        k <= changes.len(),
    ensures
        change_at(changes, line, k) matches Some(c) ==> 0 <= c < k && changes[c].line_idx == line,
        change_at(changes, line, k) is None ==> forall|c: int|
            0 <= c < k ==> (#[trigger] changes[c]).line_idx != line,
    decreases k,
{
    if k > 0 {
        lemma_change_at(changes, line, (k - 1) as nat);
    }
}

proof fn lemma_line(s: Screen, edit: FileEdit, line: int, preview: Preview)
    requires
        edit.wf(),
        at_row_start(s),
        0 <= line < edit.lines@.len(),
    ensures
        drawn(s, line_ops(edit.line_views(), edit.change_views(), line, preview)) == with_rows(
            s,
            rows_of_line(edit, line, preview),
        ),
{
    let changes = edit.change_views();
    lemma_change_at(changes, line, changes.len());
    match change_at(changes, line, changes.len()) {
        Some(c) => {
            assert(edit.changes@[c].line_idx == line);
            let d = choose|d: int|
                0 <= d < edit.changes@.len() && (#[trigger] edit.changes@[d]).line_idx == line;
            if c != d {
                assert(changes[c].line_idx != changes[d].line_idx);
            }
            assert(changes[c] == edit.changes@[c]@);
            lemma_change(s, changes[c], preview);
        },
        None => {
            if is_changed(edit, line) {
                let d = choose|d: int|
                    0 <= d < edit.changes@.len() && (#[trigger] edit.changes@[d]).line_idx == line;
                assert(changes[d].line_idx == line);
            }
            lemma_context(s, body_of(edit.line_views()[line]), line, preview);
        },
    }
}

/// The rows of the lines from `start` up to but without `end`.
pub open spec fn rows_between(edit: FileEdit, start: int, end: int, preview: Preview) -> Seq<
    Seq<(Seq<char>, Option<Style>)>,
>
    decreases end - start,
{
    if end <= start {
        seq![]
    } else {
        rows_between(edit, start, end - 1, preview) + rows_of_line(edit, end - 1, preview)
    }
}

/// A run of lines is seen line by line. A line that a change belongs to is seen as that change
/// has it, with its own number, and every other line as it stands in the file.
pub proof fn law_lines_are_seen_one_by_one(
    s: Screen,
    edit: FileEdit,
    start: int,
    end: int,
    preview: Preview,
)
    requires
        edit.wf(),
        at_row_start(s),
        0 <= start,
        end <= edit.lines@.len(),
    ensures
        drawn(
            s,
            lines_ops(edit.line_views(), edit.change_views(), start, end, preview),
        ) == with_rows(s, rows_between(edit, start, end, preview)),
    decreases end - start,
{
    let lines = edit.line_views();
    let changes = edit.change_views();
    if end <= start {
        assert(s.rows + Seq::<Seq<(Seq<char>, Option<Style>)>>::empty() == s.rows);
    } else {
        law_lines_are_seen_one_by_one(s, edit, start, end - 1, preview);
        let before = lines_ops(lines, changes, start, end - 1, preview);
        lemma_drawn_concat(s, before, line_ops(lines, changes, end - 1, preview));
        lemma_line(drawn(s, before), edit, end - 1, preview);
        let done = rows_between(edit, start, end - 1, preview);
        let own = rows_of_line(edit, end - 1, preview);
        assert(s.rows + (done + own) == s.rows + done + own);
    }
}

proof fn lemma_near(edit: FileEdit, context: int, line: int)
    requires
        edit.wf(),
        context >= 0,
        0 <= line < edit.lines@.len(),
    ensures
        is_near(edit, context, line) <==> in_hunks(
            hunks_of(edit.changes@, context, edit.lines@.len() as int),
            line,
        ),
{
    let lines = changed_lines(edit.changes@);
    let total = edit.lines@.len() as int;
    lemma_wf_ascending(edit);
    law_hunks_show_the_context(lines, context, total);
    if is_near(edit, context, line) {
        let c = choose|c: int|
            0 <= c < edit.changes@.len() && (#[trigger] edit.changes@[c]).line_idx - context
                <= line <= edit.changes@[c].line_idx + context;
        assert(lines[c] - context <= line <= lines[c] + context);
        assert(near_change(lines, context, total, lines.len() as int, line));
    }
    if in_hunks(hunks_of(edit.changes@, context, total), line) {
        assert(near_change(lines, context, total, lines.len() as int, line));
        let c = choose|c: int|
            0 <= c < lines.len() && #[trigger] lines[c] - context <= line <= lines[c] + context;
        assert(edit.changes@[c].line_idx - context <= line <= edit.changes@[c].line_idx + context);
    }
}

proof fn lemma_none_near(edit: FileEdit, context: int, preview: Preview, a: nat, b: nat)
    requires
        a <= b,
        forall|x: int| a <= x < b ==> !#[trigger] is_near(edit, context, x),
    ensures
        near_rows(edit, context, preview, b) == near_rows(edit, context, preview, a),
    decreases b - a,
{
    if a < b {
        lemma_none_near(edit, context, preview, a, (b - 1) as nat);
        assert(!is_near(edit, context, b - 1));
    }
}

proof fn lemma_rows_of_line_some(edit: FileEdit, line: int, preview: Preview)
    ensures
        rows_of_line(edit, line, preview).len() > 0,
{
}

/// All lines of a run that starts at `from` are near.
proof fn lemma_all_near(edit: FileEdit, context: int, preview: Preview, from: nat, to: nat)
    requires
        from < to,
        forall|x: int| from <= x < to ==> #[trigger] is_near(edit, context, x),
        from > 0 ==> !is_near(edit, context, from - 1),
    ensures
        ({
            let before = near_rows(edit, context, preview, from);
            let marked = if before.len() > 0 {
                before.push(seq![("        \u{22ee}"@, faint())])
            } else {
                before
            };
            &&& near_rows(edit, context, preview, to) == marked + rows_between(
                edit,
                from as int,
                to as int,
                preview,
            )
            &&& near_rows(edit, context, preview, to).len() > 0
        }),
    decreases to - from,
{
    let before = near_rows(edit, context, preview, from);
    let marked = if before.len() > 0 {
        before.push(seq![("        \u{22ee}"@, faint())])
    } else {
        before
    };
    let own = rows_of_line(edit, to - 1, preview);
    lemma_rows_of_line_some(edit, to - 1, preview);
    assert(is_near(edit, context, to - 1));
    if to == from + 1 {
        let none = rows_between(edit, from as int, from as int, preview);
        assert(none.len() == 0);
        assert(none + own == own);
        if before.len() > 0 {
            assert(from > 0);
        }
        assert(near_rows(edit, context, preview, to) == marked + own);
    } else {
        lemma_all_near(edit, context, preview, from, (to - 1) as nat);
        assert(is_near(edit, context, to - 2));
        let part = rows_between(edit, from as int, to - 1, preview);
        assert(marked + (part + own) == marked + part + own);
    }
}

proof fn lemma_gap(s: Screen)
    requires
        at_row_start(s),
    ensures
        drawn(s, gap_ops()) == with_rows(s, seq![seq![("        \u{22ee}"@, faint())]]),
{
    let ops = gap_ops();
    lemma_drawn_four(s, ops[0], ops[1], ops[2], ops[3]);
    assert(ops == seq![ops[0], ops[1], ops[2], ops[3]]);
    let end = drawn(s, ops);
    assert(s.row == Seq::<(Seq<char>, Option<Style>)>::empty());
    assert(end.rows == s.rows + seq![seq![("        \u{22ee}"@, faint())]]) by {
        assert(end.rows.last() =~= seq![("        \u{22ee}"@, faint())]);
    }
}

/// The name of a file makes a row.
pub proof fn lemma_path(s: Screen, display: Seq<char>)
    requires
        at_row_start(s),
    ensures
        drawn(s, path_ops(display)) == with_rows(s, seq![seq![(display, bold(Color::Magenta))]]),
{
    let ops = path_ops(display);
    lemma_drawn_four(s, ops[0], ops[1], ops[2], ops[3]);
    assert(ops == seq![ops[0], ops[1], ops[2], ops[3]]);
    let end = drawn(s, ops);
    assert(s.row == Seq::<(Seq<char>, Option<Style>)>::empty());
    assert(end.rows == s.rows + seq![seq![(display, bold(Color::Magenta))]]) by {
        assert(end.rows.last() =~= seq![(display, bold(Color::Magenta))]);
    }
}

proof fn lemma_hunks_drawn(s: Screen, edit: FileEdit, context: int, preview: Preview, k: nat)
    requires
        edit.wf(),
        context >= 0,
        at_row_start(s),
        k <= hunks_of(edit.changes@, context, edit.lines@.len() as int).len(),
    ensures
        ({
            let hunks = hunks_of(edit.changes@, context, edit.lines@.len() as int);
            let upto = if k == 0 {
                0nat
            } else {
                (hunks[k - 1].1 + 1) as nat
            };
            &&& drawn(
                s,
                hunks_ops(edit.line_views(), edit.change_views(), hunks, preview, k),
            ) == with_rows(s, near_rows(edit, context, preview, upto))
            &&& k > 0 ==> near_rows(edit, context, preview, upto).len() > 0
        }),
    decreases k,
{
    let total = edit.lines@.len() as int;
    let hunks = hunks_of(edit.changes@, context, total);
    let lines = edit.line_views();
    let changes = edit.change_views();
    lemma_wf_ascending(edit);
    law_hunks_show_the_context(changed_lines(edit.changes@), context, total);
    if k == 0 {
        assert(s.rows + Seq::<Seq<(Seq<char>, Option<Style>)>>::empty() == s.rows);
    } else {
        let j = (k - 1) as nat;
        lemma_hunks_drawn(s, edit, context, preview, j);
        let from = hunks[k - 1].0;
        let to = hunks[k - 1].1 + 1;
        assert(0 <= hunks[k - 1].0 <= hunks[k - 1].1 < total);
        let last = if j == 0 {
            0nat
        } else {
            (hunks[j - 1].1 + 1) as nat
        };
        if j > 0 {
            assert(0 <= hunks[j - 1].0 <= hunks[j - 1].1 < total);
            assert(hunks[j - 1].1 + 1 < hunks[k - 1].0);
        }
        assert forall|x: int| last <= x < from implies !#[trigger] is_near(edit, context, x) by {
            lemma_near(edit, context, x);
            if in_hunks(hunks, x) {
                let h = choose|h: int|
                    0 <= h < hunks.len() && (#[trigger] hunks[h]).0 <= x <= hunks[h].1;
                if h < j - 1 {
                    assert(hunks[h].1 + 1 < hunks[j - 1].0);
                } else if h > j {
                    assert(hunks[j as int].1 + 1 < hunks[h].0);
                }
            }
        }
        assert forall|x: int| from <= x < to implies #[trigger] is_near(edit, context, x) by {
            lemma_near(edit, context, x);
            assert(hunks[k - 1].0 <= x <= hunks[k - 1].1);
        }
        lemma_none_near(edit, context, preview, last, from as nat);
        if from > 0 {
            if from - 1 >= last {
                assert(!is_near(edit, context, from - 1));
            } else {
                assert(false);
            }
        }
        lemma_all_near(edit, context, preview, from as nat, to as nat);
        let before = hunks_ops(lines, changes, hunks, preview, j);
        let body = lines_ops(lines, changes, from, to, preview);
        let s1 = drawn(s, before);
        let done = near_rows(edit, context, preview, from as nat);
        let own = rows_between(edit, from, to, preview);
        if k > 1 {
            lemma_drawn_concat(s, before, gap_ops());
            lemma_gap(s1);
            lemma_drawn_concat(s, before + gap_ops(), body);
            law_lines_are_seen_one_by_one(drawn(s, before + gap_ops()), edit, from, to, preview);
            let mark = seq![("        \u{22ee}"@, faint())];
            assert(done.len() > 0);
            assert(s.rows + done + seq![mark] + own == s.rows + (done.push(mark) + own));
        } else {
            lemma_drawn_concat(s, before, body);
            law_lines_are_seen_one_by_one(s1, edit, from, to, preview);
            assert(done.len() == 0);
            assert(s.rows + done + own == s.rows + (done + own));
        }
    }
}

/// A preview shows the name of the file, then every line near a change and no other: a changed
/// line as its change has it, any other as it stands, and a mark where lines are left out; and
/// an empty row at the end.
pub proof fn law_preview_shows_the_lines_near_changes(
    s: Screen,
    edit: FileEdit,
    context: int,
    preview: Preview,
)
    requires
        edit.wf(),
        context >= 0,
        at_row_start(s),
    ensures
        drawn(s, preview_ops(edit, context, preview)) == with_rows(
            s,
            (seq![seq![(edit.path.display@, bold(Color::Magenta))]] + near_rows(
                edit,
                context,
                preview,
                edit.lines@.len(),
            )).push(seq![]),
        ),
{
    let total = edit.lines@.len() as int;
    let hunks = hunks_of(edit.changes@, context, total);
    let n = hunks.len();
    let a = path_ops(edit.path.display@);
    let b = hunks_ops(edit.line_views(), edit.change_views(), hunks, preview, n);
    lemma_path(s, edit.path.display@);
    lemma_drawn_concat(s, a, b);
    lemma_hunks_drawn(drawn(s, a), edit, context, preview, n);
    lemma_drawn_push(s, a + b, OpView::Newline);
    lemma_wf_ascending(edit);
    law_hunks_show_the_context(changed_lines(edit.changes@), context, total);
    let last = if n == 0 {
        0nat
    } else {
        (hunks[n - 1].1 + 1) as nat
    };
    if n > 0 {
        assert(0 <= hunks[n - 1].0 <= hunks[n - 1].1 < total);
    }
    assert forall|x: int| last <= x < total implies !#[trigger] is_near(edit, context, x) by {
        lemma_near(edit, context, x);
        if in_hunks(hunks, x) {
            let h = choose|h: int|
                0 <= h < hunks.len() && (#[trigger] hunks[h]).0 <= x <= hunks[h].1;
            if h < n - 1 {
                assert(hunks[h].1 + 1 < hunks[n - 1].0);
            }
        }
    }
    lemma_none_near(edit, context, preview, last, total as nat);
    let title = seq![seq![(edit.path.display@, bold(Color::Magenta))]];
    let rows = near_rows(edit, context, preview, last);
    let end = drawn(s, preview_ops(edit, context, preview));
    assert(end.rows == s.rows + (title + rows).push(seq![])) by {
        assert(end.rows == (s.rows + title + rows).push(s.row));
        assert(s.row =~= Seq::<(Seq<char>, Option<Style>)>::empty());
        assert(end.rows =~= s.rows + (title + rows).push(seq![]));
    }
    assert(end.row =~= s.row);
}

/// The text of a row.
pub open spec fn text_in(row: Seq<(Seq<char>, Option<Style>)>) -> Seq<char>
    decreases row.len(),
{
    if row.len() == 0 {
        seq![]
    } else {
        text_in(row.drop_last()) + row.last().0
    }
}

proof fn lemma_pieces_text(segments: Seq<(Seq<char>, bool)>, color: Color)
    ensures
        text_in(pieces(segments, color)) == seg_text(segments),
    decreases segments.len(),
{
    if segments.len() == 0 {
        assert(seg_texts(segments) == Seq::<Seq<char>>::empty());
    } else {
        lemma_pieces_text(segments.drop_last(), color);
        assert(pieces(segments, color).drop_last() == pieces(segments.drop_last(), color));
        assert(seg_texts(segments).drop_last() == seg_texts(
            segments.drop_last(),
        ));
    }
}

/// Where old and new are both shown, a changed line is seen in two rows: after the sign and the
/// number of the line, the one carries the line itself and the other what the change of this very
/// line makes of it. Where one of them is shown, it is in one row. Any other line is seen in one
/// row that ends in the line itself.
pub proof fn law_rows_carry_their_own_line(edit: FileEdit, line: int)
    requires
        edit.wf(),
        0 <= line < edit.lines@.len(),
    ensures
        is_changed(edit, line) ==> {
            let change = change_in(edit, line);
            let both = rows_of_line(edit, line, Preview::Diff);
            let old = rows_of_line(edit, line, Preview::Old);
            let new = rows_of_line(edit, line, Preview::New);
            &&& change.line_idx == line
            &&& both.len() == 2 && old.len() == 1 && new.len() == 1
            &&& both[0][0].0 == "-"@ && both[1][0].0 == "+"@
            &&& both[0][1].0 == number(line, 5) && both[1][1].0 == number(line, 5)
            &&& text_in(both[0].skip(2)) == body_of(edit.lines@[line]@)
            &&& text_in(both[1].skip(2)) == seg_text(change.new)
            &&& old[0][0].0 == number(line, 6) && new[0][0].0 == number(line, 6)
            &&& text_in(old[0].skip(1)) == body_of(edit.lines@[line]@)
            &&& text_in(new[0].skip(1)) == seg_text(change.new)
        },
        !is_changed(edit, line) ==> {
            let both = rows_of_line(edit, line, Preview::Diff);
            let one = rows_of_line(edit, line, Preview::Old);
            &&& both.len() == 1 && one.len() == 1
            &&& rows_of_line(edit, line, Preview::New) == one
            &&& text_in(both[0]) == " "@ + number(line, 5) + body_of(edit.lines@[line]@)
            &&& text_in(one[0]) == number(line, 6) + body_of(edit.lines@[line]@)
        },
{
    reveal_with_fuel(text_in, 3);
    if is_changed(edit, line) {
        let c = choose|c: int|
            0 <= c < edit.changes@.len() && (#[trigger] edit.changes@[c]).line_idx == line;
        let change = change_in(edit, line);
        assert(edit.change_views()[c] == change);
        assert(fits_line(edit.line_views(), edit.change_views()[c]));
        lemma_pieces_text(change.orig, Color::Red);
        lemma_pieces_text(change.new, Color::Green);
        lemma_pieces_text(change.orig, Color::Yellow);
        let both = rows_of_line(edit, line, Preview::Diff);
        assert(both[0].skip(2) == pieces(change.orig, Color::Red));
        assert(both[1].skip(2) == pieces(change.new, Color::Green));
        let old = rows_of_line(edit, line, Preview::Old);
        let new = rows_of_line(edit, line, Preview::New);
        assert(old[0].skip(1) == pieces(change.orig, Color::Yellow));
        assert(new[0].skip(1) == pieces(change.new, Color::Green));
    } else {
        let body = body_of(edit.lines@[line]@);
        let row = rows_of_line(edit, line, Preview::Diff)[0];
        assert(row.drop_last() == Seq::<(Seq<char>, Option<Style>)>::empty());
        assert(text_in(row) == " "@ + number(line, 5) + body);
        let one = rows_of_line(edit, line, Preview::Old)[0];
        assert(one.drop_last() == seq![(number(line, 6), coloured(Color::Cyan))]);
        assert(one.drop_last().drop_last() == Seq::<(Seq<char>, Option<Style>)>::empty());
        assert(text_in(one) == number(line, 6) + body);
    }
}

/// A screen has a row more for every row that a piece of output ends.
pub proof fn law_rows_of_output_are_counted(s: Screen, ops: Seq<OpView>)
    ensures
        drawn(s, ops).rows.len() == s.rows.len() + rows_of(ops),
    decreases ops.len(),
{
    if ops.len() > 0 {
        law_rows_of_output_are_counted(s, ops.drop_last());
    }
}

/// The rows that a preview is taken to need are those that are seen of it, but for the empty one
/// at its end.
pub proof fn law_preview_is_as_long_as_it_is_taken_to_be(
    edit: FileEdit,
    context: int,
    preview: Preview,
)
    requires
        edit.wf(),
        context >= 0,
    ensures
        file_rows(edit, context, preview) == 1 + near_rows(
            edit,
            context,
            preview,
            edit.lines@.len(),
        ).len(),
{
    let s = Screen { rows: seq![], row: seq![], look: None };
    law_preview_shows_the_lines_near_changes(s, edit, context, preview);
    law_rows_of_output_are_counted(s, preview_ops(edit, context, preview));
    law_preview_rows_are_the_estimate(edit, context, preview);
}

} // verus!
