//! Search results and lines of input as rows of a full-screen view.
use vstd::prelude::*;

use crate::cli::Preview;
use crate::edit::{fits_line, Change, ChangeView, FileEdit, SourcePath};
use crate::input_field::{deleted, lemma_wf, FieldView, InputField};
use crate::lines::{body_of, decimal, join, padded, push_decimal, push_padded, split_nl};
use crate::segments::{seg_text, seg_texts, seg_views};
use crate::style::{
    add_row, add_span, dim_style, fg_style, on_style, plain, row, row_views, span, span_views,
    Color, Row, RowView, Span, SpanView, Style,
};
use crate::text::{lemma_slice_ends, slice_str, str_len};

verus! {

/// The segments of a line, those that are marked in a look of their own.
pub open spec fn segment_spans(segments: Seq<(Seq<char>, bool)>, highlight: Style) -> Seq<SpanView>
    decreases segments.len(),
{
    if segments.len() == 0 {
        seq![]
    } else {
        segment_spans(segments.drop_last(), highlight).push(
            span(
                segments.last().0,
                if segments.last().1 {
                    highlight
                } else {
                    plain()
                },
            ),
        )
    }
}

fn push_segments(out: &mut Vec<Span>, segments: &Vec<(String, bool)>, highlight: Style)
    ensures
        span_views(final(out)@) == span_views(old(out)@) + segment_spans(
            seg_views(segments@),
            highlight,
        ),
{
    let ghost start = span_views(out@);
    let ghost views = seg_views(segments@);
    let mut i: usize = 0;
    proof {
        assert(views.take(0) == Seq::<(Seq<char>, bool)>::empty());
        assert(start + segment_spans(views.take(0), highlight) == start);
    }
    while i < segments.len()
        invariant
            i <= segments@.len(),
            views == seg_views(segments@),
            span_views(out@) == start + segment_spans(views.take(i as int), highlight),
        decreases segments@.len() - i,
    {
        let style = if segments[i].1 {
            highlight
        } else {
            Style::plain()
        };
        add_span(out, segments[i].0.clone(), style);
        proof {
            assert(views.take(i + 1).drop_last() == views.take(i as int));
            assert(views.take(i + 1).last() == views[i as int]);
            assert(span_views(out@) == start + segment_spans(views.take(i + 1), highlight));
        }
        i = i + 1;
    }
    proof {
        assert(views.take(views.len() as int) == views);
    }
}

// The list of changed lines.

/// How a file is called in the list: by the last component of its path, or by the whole path
/// where there is no such component.
pub open spec fn short_name(path: SourcePath) -> Seq<char> {
    match path.file_name {
        Some(name) => name@,
        None => path.display@,
    }
}

/// The mark before an entry of the list.
pub open spec fn entry_mark(applied: bool) -> SpanView {
    if applied {
        span("\u{2713} "@, fg_style(Color::Green, false))
    } else {
        span("  "@, plain())
    }
}

/// A match as an entry of the list: the changed line that it stands in.
pub open spec fn entry_row(
    path: SourcePath,
    change: ChangeView,
    preview: Preview,
    selected: bool,
    applied: bool,
) -> RowView {
    RowView {
        spans: seq![
            entry_mark(applied),
            span(short_name(path), fg_style(Color::Magenta, true)),
            span(":"@ + decimal((change.line_idx + 1) as nat), fg_style(Color::Cyan, false)),
            span("  "@, plain()),
        ] + if preview == Preview::New {
            segment_spans(change.new, fg_style(Color::Green, true))
        } else {
            segment_spans(change.orig, fg_style(Color::Yellow, true))
        },
        style: if selected {
            on_style(None, Color::Blue)
        } else {
            plain()
        },
    }
}

/// Makes an entry of the list from the changed line that a match stands in.
pub fn render_compact_entry(
    path: &SourcePath,
    change: &Change,
    preview: Preview,
    selected: bool,
    applied: bool,
) -> (r: Row)
    requires
        change.line_idx < usize::MAX,
    ensures
        r@ == entry_row(*path, change@, preview, selected, applied),
{
    let mut spans: Vec<Span> = Vec::new();
    if applied {
        add_span(&mut spans, "\u{2713} ".to_owned(), Style::fg(Color::Green, false));
    } else {
        add_span(&mut spans, "  ".to_owned(), Style::plain());
    }
    let name = match &path.file_name {
        Some(name) => name.clone(),
        None => path.display.clone(),
    };
    add_span(&mut spans, name, Style::fg(Color::Magenta, true));
    let mut number = ":".to_owned();
    push_decimal(&mut number, change.line_idx + 1);
    add_span(&mut spans, number, Style::fg(Color::Cyan, false));
    add_span(&mut spans, "  ".to_owned(), Style::plain());
    if preview == Preview::New {
        push_segments(&mut spans, &change.new_segments, Style::fg(Color::Green, true));
    } else {
        push_segments(&mut spans, &change.orig_segments, Style::fg(Color::Yellow, true));
    }
    let style = if selected {
        Style::on(None, Color::Blue)
    } else {
        Style::plain()
    };
    let r = Row { spans, style };
    proof {
        assert(r@ == entry_row(*path, change@, preview, selected, applied));
    }
    r
}

// A changed line in its file.

/// The number of a line.
pub open spec fn number_span(line: int, width: nat) -> SpanView {
    span(padded(decimal((line + 1) as nat), width) + "  "@, fg_style(Color::Cyan, false))
}

/// A line with a sign before its number.
pub open spec fn signed_row(
    sign: Seq<char>,
    color: Color,
    line: int,
    segments: Seq<(Seq<char>, bool)>,
) -> RowView {
    row(
        seq![span(sign, fg_style(color, true)), number_span(line, 5)] + segment_spans(
            segments,
            fg_style(color, true),
        ),
    )
}

/// A changed line.
pub open spec fn change_rows(change: ChangeView, preview: Preview) -> Seq<RowView> {
    let line = change.line_idx;
    match preview {
        Preview::Old => seq![
            row(
                seq![number_span(line, 6)] + segment_spans(
                    change.orig,
                    fg_style(Color::Yellow, true),
                ),
            ),
        ],
        Preview::New => seq![
            row(
                seq![number_span(line, 6)] + segment_spans(
                    change.new,
                    fg_style(Color::Green, true),
                ),
            ),
        ],
        Preview::Diff => seq![
            signed_row("-"@, Color::Red, line, change.orig),
            signed_row("+"@, Color::Green, line, change.new),
        ],
    }
}

/// A line that is not looked at.
pub open spec fn context_row(body: Seq<char>, line: int, preview: Preview) -> RowView {
    if preview == Preview::Diff {
        row(
            seq![
                span(
                    " "@ + padded(decimal((line + 1) as nat), 5) + "  "@ + body,
                    dim_style(),
                ),
            ],
        )
    } else {
        row(seq![number_span(line, 6), span(body, dim_style())])
    }
}

/// The first `k` lines of a file, one of them changed.
pub open spec fn file_rows_upto(
    lines: Seq<Seq<char>>,
    change: ChangeView,
    preview: Preview,
    k: nat,
) -> Seq<RowView>
    decreases k,
{
    if k == 0 {
        seq![]
    } else {
        let before = file_rows_upto(lines, change, preview, (k - 1) as nat);
        if k - 1 == change.line_idx {
            before + change_rows(change, preview)
        } else {
            before.push(context_row(body_of(lines[k - 1]), k - 1, preview))
        }
    }
}

/// The name of a file and all its lines, one of them changed.
pub open spec fn match_context(edit: FileEdit, change: int, preview: Preview) -> Seq<RowView> {
    seq![row(seq![span(edit.path.display@, fg_style(Color::Magenta, true))])] + file_rows_upto(
        edit.line_views(),
        edit.change_views()[change],
        preview,
        edit.lines@.len(),
    )
}

proof fn lemma_rows_before(lines: Seq<Seq<char>>, change: ChangeView, preview: Preview, k: nat)
    ensures
        file_rows_upto(lines, change, preview, k).len() == k + if preview == Preview::Diff && 0
            <= change.line_idx < k {
            1int
        } else {
            0int
        },
        0 <= change.line_idx < k ==> file_rows_upto(lines, change, preview, k).subrange(
            change.line_idx,
            change.line_idx + change_rows(change, preview).len(),
        ) == change_rows(change, preview),
    decreases k,
{
    if k > 0 {
        lemma_rows_before(lines, change, preview, (k - 1) as nat);
        let before = file_rows_upto(lines, change, preview, (k - 1) as nat);
        let now = file_rows_upto(lines, change, preview, k);
        let own = change_rows(change, preview);
        if k - 1 == change.line_idx {
            assert((before + own).subrange(change.line_idx, change.line_idx + own.len()) == own);
        } else if 0 <= change.line_idx < k {
            assert(now.subrange(change.line_idx, change.line_idx + own.len()) == before.subrange(
                change.line_idx,
                change.line_idx + own.len(),
            ));
        }
    }
}

/// The whole file is shown, and the changed line is found in the row after as many rows as
/// there are lines before it, and the name of the file.
pub proof fn law_change_is_shown_in_its_row(edit: FileEdit, change: int, preview: Preview)
    requires
        edit.wf(),
        0 <= change < edit.changes@.len(),
    ensures
        ({
            let rows = match_context(edit, change, preview);
            let c = edit.change_views()[change];
            &&& rows.len() == 1 + edit.lines@.len() + if preview == Preview::Diff {
                1int
            } else {
                0int
            }
            &&& rows.subrange(
                c.line_idx + 1,
                c.line_idx + 1 + change_rows(c, preview).len(),
            ) == change_rows(c, preview)
        }),
{
    let c = edit.change_views()[change];
    assert(fits_line(edit.line_views(), edit.change_views()[change]));
    lemma_rows_before(edit.line_views(), c, preview, edit.lines@.len());
    let rows = match_context(edit, change, preview);
    let body = file_rows_upto(edit.line_views(), c, preview, edit.lines@.len());
    let own = change_rows(c, preview);
    assert(rows.subrange(c.line_idx + 1, c.line_idx + 1 + own.len()) == body.subrange(
        c.line_idx,
        c.line_idx + own.len(),
    ));
}

fn push_number(out: &mut Vec<Span>, line: usize, width: usize)
    requires
        line < usize::MAX,
    ensures
        span_views(final(out)@) == span_views(old(out)@).push(
            number_span(line as int, width as nat),
        ),
{
    let mut number = String::new();
    push_padded(&mut number, line + 1, width);
    number.append("  ");
    proof {
        let p = padded(decimal((line + 1) as nat), width as nat);
        assert(Seq::<char>::empty() + p == p);
    }
    add_span(out, number, Style::fg(Color::Cyan, false));
}

fn push_numbered_row(
    out: &mut Vec<Row>,
    line: usize,
    segments: &Vec<(String, bool)>,
    highlight: Style,
)
    requires
        line < usize::MAX,
    ensures
        row_views(final(out)@) == row_views(old(out)@).push(
            row(
                seq![number_span(line as int, 6)] + segment_spans(
                    seg_views(segments@),
                    highlight,
                ),
            ),
        ),
{
    let mut spans: Vec<Span> = Vec::new();
    push_number(&mut spans, line, 6);
    proof {
        assert(span_views(spans@) == seq![number_span(line as int, 6)]);
    }
    push_segments(&mut spans, segments, highlight);
    add_row(out, spans);
}

fn push_signed_row(
    out: &mut Vec<Row>,
    sign: &str,
    color: Color,
    line: usize,
    segments: &Vec<(String, bool)>,
)
    requires
        line < usize::MAX,
    ensures
        row_views(final(out)@) == row_views(old(out)@).push(
            signed_row(sign@, color, line as int, seg_views(segments@)),
        ),
{
    let mut spans: Vec<Span> = Vec::new();
    add_span(&mut spans, sign.to_owned(), Style::fg(color, true));
    push_number(&mut spans, line, 5);
    proof {
        assert(span_views(spans@) == seq![
            span(sign@, fg_style(color, true)),
            number_span(line as int, 5),
        ]);
    }
    push_segments(&mut spans, segments, Style::fg(color, true));
    add_row(out, spans);
}

fn push_change_rows(out: &mut Vec<Row>, change: &Change, preview: Preview)
    requires
        change.line_idx < usize::MAX,
    ensures
        row_views(final(out)@) == row_views(old(out)@) + change_rows(change@, preview),
{
    let line = change.line_idx;
    match preview {
        Preview::Old => {
            push_numbered_row(out, line, &change.orig_segments, Style::fg(Color::Yellow, true));
        },
        Preview::New => {
            push_numbered_row(out, line, &change.new_segments, Style::fg(Color::Green, true));
        },
        Preview::Diff => {
            push_signed_row(out, "-", Color::Red, line, &change.orig_segments);
            push_signed_row(out, "+", Color::Green, line, &change.new_segments);
        },
    }
    proof {
        assert(row_views(out@) == row_views(old(out)@) + change_rows(change@, preview));
    }
}

fn push_context_row(out: &mut Vec<Row>, body: &str, line: usize, preview: Preview)
    requires
        line < usize::MAX,
    ensures
        row_views(final(out)@) == row_views(old(out)@).push(
            context_row(body@, line as int, preview),
        ),
{
    let mut spans: Vec<Span> = Vec::new();
    if preview == Preview::Diff {
        let mut text = " ".to_owned();
        push_padded(&mut text, line + 1, 5);
        text.append("  ");
        text.append(body);
        add_span(&mut spans, text, Style::dimmed());
    } else {
        push_number(&mut spans, line, 6);
        add_span(&mut spans, body.to_owned(), Style::dimmed());
    }
    proof {
        assert(span_views(spans@) == context_row(body@, line as int, preview).spans);
    }
    add_row(out, spans);
}

/// Makes rows of the name of a file and all its lines, one of them changed.
pub fn render_match_context(edit: &FileEdit, change_idx: usize, preview: Preview) -> (r: Vec<Row>)
    requires
        change_idx < edit.changes@.len(),
        edit.lines@.len() > 0,
    ensures
        row_views(r@) == match_context(*edit, change_idx as int, preview),
{
    let mut rows: Vec<Row> = Vec::new();
    let mut title: Vec<Span> = Vec::new();
    add_span(&mut title, edit.path.display.clone(), Style::fg(Color::Magenta, true));
    let ghost head = seq![row(seq![span(edit.path.display@, fg_style(Color::Magenta, true))])];
    proof {
        assert(span_views(title@) == head[0].spans);
    }
    add_row(&mut rows, title);
    let ghost lines = edit.line_views();
    let change = &edit.changes[change_idx];
    let n = edit.lines.len();
    let mut line: usize = 0;
    proof {
        assert(row_views(rows@) == head);
        assert(head + file_rows_upto(lines, change@, preview, 0) == head);
    }
    while line < n
        invariant
            line <= n,
            n == edit.lines@.len(),
            lines == edit.line_views(),
            row_views(rows@) == head + file_rows_upto(lines, change@, preview, line as nat),
        decreases n - line,
    {
        let ghost so_far = file_rows_upto(lines, change@, preview, line as nat);
        if line == change.line_idx {
            push_change_rows(&mut rows, change, preview);
            proof {
                let own = change_rows(change@, preview);
                assert(head + (so_far + own) == head + so_far + own);
            }
        } else {
            let (body, _newline) = split_nl(edit.lines[line].as_str());
            push_context_row(&mut rows, body, line, preview);
            proof {
                let own = context_row(body@, line as int, preview);
                assert(head + so_far.push(own) == (head + so_far).push(own));
            }
        }
        line = line + 1;
    }
    rows
}

// Lines of input.

/// A line of input: its label, and its text. The one that is being typed in shows its place as a
/// character in other colours.
pub open spec fn input_row(
    label: Seq<char>,
    text: Seq<char>,
    field: FieldView,
    active: bool,
) -> RowView {
    if active {
        let shown = seq![
            span(label, fg_style(Color::Cyan, true)),
            span(field.before, plain()),
            span(
                if field.after.len() > 0 {
                    seq![field.after[0]]
                } else {
                    " "@
                },
                on_style(Some(Color::Black), Color::White),
            ),
        ];
        row(
            if deleted(field).after.len() > 0 {
                shown.push(span(deleted(field).after, plain()))
            } else {
                shown
            },
        )
    } else {
        row(seq![span(label, fg_style(Color::DarkGray, false)), span(text, dim_style())])
    }
}

/// Makes a row of a line of input.
pub fn render_input_line(label: &str, field: &InputField, active: bool) -> (r: Row)
    requires
        field.wf(),
    ensures
        r@ == input_row(label@, field.text@, field@, active),
{
    let mut spans: Vec<Span> = Vec::new();
    if active {
        add_span(&mut spans, label.to_owned(), Style::fg(Color::Cyan, true));
        let (before, after) = field.halves();
        let at_cursor = Style::on(Some(Color::Black), Color::White);
        add_span(&mut spans, before.to_owned(), Style::plain());
        if after.is_empty() {
            add_span(&mut spans, " ".to_owned(), at_cursor);
        } else {
            let mut under = String::new();
            under.push(after.get_char(0));
            proof {
                assert(under@ == seq![field@.after[0]]);
            }
            add_span(&mut spans, under, at_cursor);
            let len = str_len(field.text.as_str());
            let next = field.next_boundary();
            proof {
                lemma_wf(*field);
                lemma_slice_ends(field.text@);
            }
            let rest = slice_str(field.text.as_str(), next, len);
            if !rest.is_empty() {
                add_span(&mut spans, rest.to_owned(), Style::plain());
            }
        }
    } else {
        add_span(&mut spans, label.to_owned(), Style::fg(Color::DarkGray, false));
        add_span(&mut spans, field.text.clone(), Style::dimmed());
    }
    let r = Row { spans, style: Style::plain() };
    proof {
        assert(r@ == input_row(label@, field.text@, field@, active));
    }
    r
}

// What the rows say.

/// The text of a row.
pub open spec fn row_text(r: RowView) -> Seq<char> {
    join(span_texts(r.spans))
}

/// The texts of the pieces of a row.
pub open spec fn span_texts(spans: Seq<SpanView>) -> Seq<Seq<char>> {
    Seq::new(spans.len(), |i: int| spans[i].text)
}

/// The segments of a line are shown whole and in order, whatever they look like.
pub proof fn law_segments_are_shown_whole(segments: Seq<(Seq<char>, bool)>, highlight: Style)
    ensures
        span_texts(segment_spans(segments, highlight)) == seg_texts(segments),
        join(span_texts(segment_spans(segments, highlight))) == seg_text(segments),
    decreases segments.len(),
{
    if segments.len() > 0 {
        law_segments_are_shown_whole(segments.drop_last(), highlight);
        assert(segments.drop_last().push(segments.last()) == segments);
        assert(seg_texts(segments) == seg_texts(segments.drop_last()).push(segments.last().0));
        let before = segment_spans(segments.drop_last(), highlight);
        let now = segment_spans(segments, highlight);
        assert(span_texts(now) == span_texts(before).push(segments.last().0));
    } else {
        assert(span_texts(segment_spans(segments, highlight)) == seg_texts(segments));
    }
}

/// A line of input shows its label and its text; where the place is at the end of the text, a
/// space stands for it.
pub proof fn law_input_is_shown_whole(label: Seq<char>, field: FieldView)
    ensures
        row_text(input_row(label, field.before + field.after, field, false)) == label
            + field.before + field.after,
        field.after.len() > 0 ==> row_text(
            input_row(label, field.before + field.after, field, true),
        ) == label + field.before + field.after,
        field.after.len() == 0 ==> row_text(
            input_row(label, field.before + field.after, field, true),
        ) == label + field.before + " "@,
{
    reveal_with_fuel(join, 5);
    let quiet = span_texts(input_row(label, field.before + field.after, field, false).spans);
    assert(quiet == seq![label, field.before + field.after]);
    assert(quiet.drop_last() == seq![label]);
    assert(quiet.drop_last().drop_last() == Seq::<Seq<char>>::empty());
    assert(join(quiet) == label + field.before + field.after);
    let texts = span_texts(input_row(label, field.before + field.after, field, true).spans);
    if field.after.len() > 1 {
        let under = seq![field.after[0]];
        assert(texts == seq![label, field.before, under, field.after.drop_first()]);
        assert(texts.drop_last() == seq![label, field.before, under]);
        assert(texts.drop_last().drop_last() == seq![label, field.before]);
        assert(texts.drop_last().drop_last().drop_last() == seq![label]);
        assert(texts.drop_last().drop_last().drop_last().drop_last() == Seq::<Seq<char>>::empty());
        assert(join(texts) == label + field.before + field.after);
    } else {
        let under = if field.after.len() > 0 {
            seq![field.after[0]]
        } else {
            " "@
        };
        assert(texts == seq![label, field.before, under]);
        assert(texts.drop_last() == seq![label, field.before]);
        assert(texts.drop_last().drop_last() == seq![label]);
        assert(texts.drop_last().drop_last().drop_last() == Seq::<Seq<char>>::empty());
        if field.after.len() > 0 {
            assert(under == field.after);
        }
        assert(join(texts) == label + field.before + under);
    }
}

} // verus!
