//! What is seen in the full-screen view.
use vstd::prelude::*;

use crate::cli::Preview;
use crate::edit::{fits_line, ChangeView, FileEdit, SourcePath};
use crate::found::{all_matches, entries_of};
use crate::frame::{accepted_info, empty_text, frame_of, key_help, settled_session, status_text};
use crate::input_field::FieldView;
use crate::lines::{body_of, decimal, padded};
use crate::messages::{no_change_text, noop_text};
use crate::output_laws::number;
use crate::panes::{bottom_height, bottom_rows, list_rows, settled, top_height, PanesView};
use crate::render::{
    change_rows, context_row, entry_row, file_rows_upto, input_row, match_context, segment_spans,
};
use crate::session::SessionView;
use crate::style::{fg_style, Color, RowView, SpanView, Style};

verus! {

// Rows.

/// A piece of a row in bold.
pub open spec fn bold_piece(text: Seq<char>, color: Color) -> SpanView {
    SpanView { text, style: Style { fg: Some(color), bg: None, bold: true, dim: false } }
}

/// A piece of a row in a colour.
pub open spec fn colour_piece(text: Seq<char>, color: Color) -> SpanView {
    SpanView { text, style: Style { fg: Some(color), bg: None, bold: false, dim: false } }
}

/// A plain piece of a row.
pub open spec fn plain_piece(text: Seq<char>) -> SpanView {
    SpanView { text, style: Style { fg: None, bg: None, bold: false, dim: false } }
}

/// A faint piece of a row.
pub open spec fn faint_piece(text: Seq<char>) -> SpanView {
    SpanView { text, style: Style { fg: None, bg: None, bold: false, dim: true } }
}

/// A piece of a row for each segment of a line: in bold where it is highlighted, else plain.
pub open spec fn segment_pieces(segments: Seq<(Seq<char>, bool)>, color: Color) -> Seq<SpanView> {
    Seq::new(
        segments.len(),
        |i: int|
            if segments[i].1 {
                bold_piece(segments[i].0, color)
            } else {
                plain_piece(segments[i].0)
            },
    )
}

/// A row of these pieces, without a colour behind it.
pub open spec fn plain_row(spans: Seq<SpanView>) -> RowView {
    RowView { spans, style: Style { fg: None, bg: None, bold: false, dim: false } }
}

/// The segments of a line are shown one by one, each that is highlighted in its colour.
pub proof fn law_each_segment_is_a_piece(
    segments: Seq<(Seq<char>, bool)>,
    color: Color,
    highlight: Style,
)
    requires
        highlight == (Style { fg: Some(color), bg: None, bold: true, dim: false }),
    ensures
        segment_spans(segments, highlight) == segment_pieces(segments, color),
    decreases segments.len(),
{
    if segments.len() > 0 {
        law_each_segment_is_a_piece(segments.drop_last(), color, highlight);
        assert(segment_pieces(segments, color) == segment_pieces(segments.drop_last(), color).push(
            segment_pieces(segments, color)[segments.len() - 1],
        ));
    }
    assert(segment_spans(segments, highlight) == segment_pieces(segments, color));
}

/// An entry of the list shows whether its match is accepted, the name of the file, the number of
/// the line, and the line as it will be or as it is; the selected one stands out.
pub proof fn law_entry_shows_its_match(
    path: SourcePath,
    change: ChangeView,
    preview: Preview,
    selected: bool,
    applied: bool,
)
    ensures
        entry_row(path, change, preview, selected, applied).spans == seq![
            if applied {
                colour_piece("\u{2713} "@, Color::Green)
            } else {
                plain_piece("  "@)
            },
            bold_piece(
                match path.file_name {
                    Some(name) => name@,
                    None => path.display@,
                },
                Color::Magenta,
            ),
            colour_piece(":"@ + decimal((change.line_idx + 1) as nat), Color::Cyan),
            plain_piece("  "@),
        ] + if preview == Preview::New {
            segment_pieces(change.new, Color::Green)
        } else {
            segment_pieces(change.orig, Color::Yellow)
        },
        entry_row(path, change, preview, selected, applied).style.bg == if selected {
            Some(Color::Blue)
        } else {
            None
        },
        entry_row(path, change, preview, selected, applied).style.fg is None,
{
    law_each_segment_is_a_piece(
        change.new,
        Color::Green,
        fg_style(Color::Green, true),
    );
    law_each_segment_is_a_piece(
        change.orig,
        Color::Yellow,
        fg_style(Color::Yellow, true),
    );
}

/// The row of a line that is not looked at.
pub open spec fn quiet_row(body: Seq<char>, line: int, preview: Preview) -> RowView {
    if preview == Preview::Diff {
        plain_row(
            seq![faint_piece(" "@ + padded(decimal((line + 1) as nat), 5) + "  "@ + body)],
        )
    } else {
        plain_row(seq![colour_piece(number(line, 6), Color::Cyan), faint_piece(body)])
    }
}

/// The rows of the changed line: as it was, as it will be, or one above the other with a sign.
pub open spec fn looked_at_rows(change: ChangeView, preview: Preview) -> Seq<RowView> {
    let line = change.line_idx;
    match preview {
        Preview::Old => seq![
            plain_row(
                seq![colour_piece(number(line, 6), Color::Cyan)] + segment_pieces(
                    change.orig,
                    Color::Yellow,
                ),
            ),
        ],
        Preview::New => seq![
            plain_row(
                seq![colour_piece(number(line, 6), Color::Cyan)] + segment_pieces(
                    change.new,
                    Color::Green,
                ),
            ),
        ],
        Preview::Diff => seq![
            plain_row(
                seq![
                    bold_piece("-"@, Color::Red),
                    colour_piece(number(line, 5), Color::Cyan),
                ] + segment_pieces(change.orig, Color::Red),
            ),
            plain_row(
                seq![
                    bold_piece("+"@, Color::Green),
                    colour_piece(number(line, 5), Color::Cyan),
                ] + segment_pieces(change.new, Color::Green),
            ),
        ],
    }
}

proof fn lemma_change_rows(change: ChangeView, preview: Preview)
    ensures
        change_rows(change, preview) == looked_at_rows(change, preview),
{
    law_each_segment_is_a_piece(
        change.new,
        Color::Green,
        fg_style(Color::Green, true),
    );
    law_each_segment_is_a_piece(
        change.orig,
        Color::Yellow,
        fg_style(Color::Yellow, true),
    );
    law_each_segment_is_a_piece(change.orig, Color::Red, fg_style(Color::Red, true));
    assert(change_rows(change, preview) =~= looked_at_rows(change, preview));
}

proof fn lemma_context_row(body: Seq<char>, line: int, preview: Preview)
    ensures
        context_row(body, line, preview) == quiet_row(body, line, preview),
{
    assert(context_row(body, line, preview) =~= quiet_row(body, line, preview));
}

/// The rows that come on top of one for each line.
pub open spec fn extra_rows(preview: Preview) -> int {
    if preview == Preview::Diff {
        1
    } else {
        0
    }
}

proof fn lemma_file_rows(
    lines: Seq<Seq<char>>,
    change: ChangeView,
    preview: Preview,
    k: nat,
    x: int,
)
    requires
        0 <= x < k <= lines.len(),
        0 <= change.line_idx,
    ensures
        ({
            let rows = file_rows_upto(lines, change, preview, k);
            let at = x + if x > change.line_idx {
                extra_rows(preview)
            } else {
                0
            };
            &&& rows.len() == k + if change.line_idx < k {
                extra_rows(preview)
            } else {
                0
            }
            &&& x != change.line_idx ==> rows[at] == quiet_row(body_of(lines[x]), x, preview)
            &&& x == change.line_idx ==> rows[at] == looked_at_rows(change, preview)[0]
            &&& x == change.line_idx && preview == Preview::Diff ==> rows[at + 1]
                == looked_at_rows(change, preview)[1]
        }),
    decreases k,
{
    let before = file_rows_upto(lines, change, preview, (k - 1) as nat);
    lemma_change_rows(change, preview);
    lemma_context_row(body_of(lines[k - 1]), k - 1, preview);
    if k > 1 {
        lemma_file_rows(lines, change, preview, (k - 1) as nat, if x < k - 1 {
            x
        } else {
            0
        });
    } else {
        assert(before.len() == 0);
    }
}

/// The lower pane shows the name of the file, and then the whole file line by line: each line in
/// its row with its number, and the line of the selected match as it is changed.
pub proof fn law_lower_pane_shows_the_whole_file(
    edit: FileEdit,
    c: int,
    preview: Preview,
    x: int,
)
    requires
        edit.wf(),
        0 <= c < edit.changes@.len(),
        0 <= x < edit.lines@.len(),
    ensures
        ({
            let rows = match_context(edit, c, preview);
            let change = edit.changes@[c]@;
            let at = 1 + x + if x > change.line_idx {
                extra_rows(preview)
            } else {
                0
            };
            &&& rows.len() == 1 + edit.lines@.len() + extra_rows(preview)
            &&& rows[0] == plain_row(seq![bold_piece(edit.path.display@, Color::Magenta)])
            &&& x != change.line_idx ==> rows[at] == quiet_row(
                body_of(edit.lines@[x]@),
                x,
                preview,
            )
            &&& x == change.line_idx ==> rows[at] == looked_at_rows(change, preview)[0]
            &&& x == change.line_idx && preview == Preview::Diff ==> rows[at + 1]
                == looked_at_rows(change, preview)[1]
        }),
{
    let change = edit.change_views()[c];
    assert(change == edit.changes@[c]@);
    assert(fits_line(edit.line_views(), edit.change_views()[c]));
    lemma_file_rows(edit.line_views(), change, preview, edit.lines@.len(), x);
    let rows = match_context(edit, c, preview);
    assert(rows[0] =~= plain_row(seq![bold_piece(edit.path.display@, Color::Magenta)]));
}

/// A line of input shows its label and then its text. The one that is typed in shows apart what
/// stands before the place, the character at the place in other colours, and what follows it.
pub proof fn law_input_shows_the_place(label: Seq<char>, field: FieldView)
    ensures
        ({
            let quiet = input_row(label, field.before + field.after, field, false);
            &&& quiet == plain_row(
                seq![
                    colour_piece(label, Color::DarkGray),
                    faint_piece(field.before + field.after),
                ],
            )
        }),
        ({
            let row = input_row(label, field.before + field.after, field, true);
            let marked = Style {
                fg: Some(Color::Black),
                bg: Some(Color::White),
                bold: false,
                dim: false,
            };
            &&& row.spans[0] == bold_piece(label, Color::Cyan)
            &&& row.spans[1] == plain_piece(field.before)
            &&& row.spans[2].style == marked
            &&& field.after.len() == 0 ==> row.spans.len() == 3 && row.spans[2].text == " "@
            &&& field.after.len() > 0 ==> row.spans[2].text == seq![field.after[0]]
            &&& field.after.len() == 1 ==> row.spans.len() == 3
            &&& field.after.len() > 1 ==> row.spans.len() == 4 && row.spans[3] == plain_piece(
                field.after.subrange(1, field.after.len() as int),
            )
        }),
{
    if field.after.len() > 0 {
        assert(field.after.drop_first() == field.after.subrange(1, field.after.len() as int));
    }
    assert(input_row(label, field.before + field.after, field, false) =~= plain_row(
        seq![colour_piece(label, Color::DarkGray), faint_piece(field.before + field.after)],
    ));
}

// The panes.

/// The upper pane has a third of the rows that are not for the status and the input, and at
/// least three; the lower one has the others but one.
pub proof fn law_panes_share_the_rows(total_h: int, in_edit: bool)
    requires
        total_h >= 0,
    ensures
        ({
            let rest = total_h - if in_edit {
                4int
            } else {
                2
            };
            let top = top_height(total_h, in_edit);
            let bottom = bottom_height(total_h, in_edit);
            &&& rest >= 9 ==> top == rest / 3
            &&& rest < 9 ==> top == 3
            &&& rest >= top + 1 ==> bottom == rest - top - 1
            &&& rest < top + 1 ==> bottom == 0
        }),
{
}

/// To show the panes, the selection stays unless it is beyond the list, and then the last match is
/// selected; the list is scrolled no further than it takes to see the selection.
pub proof fn law_list_is_scrolled_to_the_selection(
    p: PanesView,
    edits: Seq<FileEdit>,
    preview: Preview,
    top_h: int,
    bottom_h: int,
)
    requires
        p.selected >= 0,
        p.top_scroll >= 0,
        top_h > 0,
    ensures
        ({
            let s = settled(p, edits, preview, top_h, bottom_h);
            let n = entries_of(edits).len();
            &&& p.selected < n || n == 0 ==> s.selected == p.selected
            &&& 0 < n <= p.selected ==> s.selected == n - 1
            &&& n > 0 && p.top_scroll <= s.selected < p.top_scroll + top_h ==> s.top_scroll
                == p.top_scroll
            &&& s.selected < p.top_scroll ==> s.top_scroll == s.selected
            &&& n > 0 && s.selected >= p.top_scroll + top_h ==> s.top_scroll + top_h - 1
                == s.selected
        }),
{
}

/// The lower pane shows the file of the selected match from a row above its line. As long as the
/// same match is selected, it stays, and is scrolled no further than its last page.
pub proof fn law_lower_pane_goes_with_the_selection(
    p: PanesView,
    edits: Seq<FileEdit>,
    preview: Preview,
    top_h: int,
    bottom_h: int,
)
    requires
        p.selected >= 0,
    ensures
        ({
            let s = settled(p, edits, preview, top_h, bottom_h);
            let n = entries_of(edits).len();
            let made = !(p.shown == Some(s.selected)) || p.rows.len() == 0 && s.selected < n;
            &&& s.shown == Some(s.selected)
            &&& made && s.selected < n ==> {
                let entry = entries_of(edits)[s.selected];
                let line = edits[entry.0].change_views()[entry.1].line_idx;
                &&& s.rows == match_context(edits[entry.0], entry.1, preview)
                &&& line >= 1 ==> s.bottom_scroll == line - 1
                &&& line < 1 ==> s.bottom_scroll == 0
            }
            &&& made && s.selected >= n ==> s.rows.len() == 0 && s.bottom_scroll == 0
            &&& !made ==> {
                let last = if p.rows.len() >= bottom_h {
                    p.rows.len() - bottom_h
                } else {
                    0
                };
                &&& s.rows == p.rows
                &&& p.bottom_scroll <= last ==> s.bottom_scroll == p.bottom_scroll
                &&& p.bottom_scroll > last ==> s.bottom_scroll == last
            }
        }),
{
}

/// The list shows the entries from where it is scrolled to, as many as fit: each with the file and
/// the change of its match, the selected one and the accepted ones marked as such.
pub proof fn law_list_shows_the_entries(
    edits: Seq<FileEdit>,
    applied: Set<usize>,
    p: PanesView,
    preview: Preview,
    top_h: int,
    k: int,
)
    requires
        0 <= p.top_scroll <= entries_of(edits).len(),
        entries_of(edits).len() <= usize::MAX,
        top_h >= 0,
    ensures
        ({
            let rows = list_rows(edits, applied, p, preview, top_h);
            let left = entries_of(edits).len() - p.top_scroll;
            &&& rows.len() == if left < top_h {
                left
            } else {
                top_h
            }
            &&& 0 <= k < rows.len() ==> {
                let i = p.top_scroll + k;
                let entry = entries_of(edits)[i];
                rows[k] == entry_row(
                    edits[entry.0].path,
                    edits[entry.0].change_views()[entry.1],
                    preview,
                    i == p.selected,
                    applied.contains(i as usize),
                )
            }
        }),
{
}

/// The lower pane shows its rows from where it is scrolled to, as many as fit.
pub proof fn law_lower_pane_shows_its_rows(p: PanesView, bottom_h: int, k: int)
    requires
        0 <= p.bottom_scroll <= p.rows.len(),
        bottom_h >= 0,
    ensures
        ({
            let rows = bottom_rows(p, bottom_h);
            let left = p.rows.len() - p.bottom_scroll;
            &&& rows.len() == if left < bottom_h {
                left
            } else {
                bottom_h
            }
            &&& 0 <= k < rows.len() ==> rows[k] == p.rows[p.bottom_scroll + k]
        }),
{
}

// The whole view.

/// The view shows, from top to bottom, the lines of input while the user edits, the list or what
/// stands in its place, the lower pane and the status; without a replacement, only lines as they
/// are.
pub proof fn law_view_shows_its_parts(v: SessionView, preview: Preview, total_h: int)
    ensures
        ({
            let frame = frame_of(v, preview, total_h);
            let top_h = top_height(total_h, v.in_edit);
            let bottom_h = bottom_height(total_h, v.in_edit);
            let shown = if v.rep.before.len() + v.rep.after.len() == 0 {
                Preview::Old
            } else {
                preview
            };
            &&& frame.top_h == top_h && frame.bottom_h == bottom_h
            &&& entries_of(v.found.edits).len() > 0 ==> frame.top == list_rows(
                v.found.edits,
                v.found.applied,
                v.panes,
                shown,
                top_h,
            )
            &&& entries_of(v.found.edits).len() == 0 ==> frame.top == seq![
                plain_row(seq![faint_piece(empty_text(v))]),
            ]
            &&& frame.bottom == bottom_rows(v.panes, bottom_h)
            &&& settled_session(v, preview, total_h).panes == settled(
                v.panes,
                v.found.edits,
                shown,
                top_h,
                bottom_h,
            )
            &&& settled_session(v, preview, total_h) == (SessionView {
                panes: settled_session(v, preview, total_h).panes,
                ..v
            })
            &&& v.in_edit ==> frame.input == seq![
                input_row(
                    "Pattern:     "@,
                    v.pat.before + v.pat.after,
                    v.pat,
                    v.active_field == 0,
                ),
                input_row(
                    "Replacement: "@,
                    v.rep.before + v.rep.after,
                    v.rep,
                    v.active_field == 1,
                ),
            ]
            &&& !v.in_edit ==> frame.input.len() == 0
            &&& frame.status.text == status_text(v)
            &&& v.error is Some ==> frame.status == colour_piece(status_text(v), Color::Red)
            &&& v.error is None ==> frame.status == plain_piece(status_text(v))
        }),
{
    let frame = frame_of(v, preview, total_h);
    if entries_of(v.found.edits).len() == 0 {
        assert(frame.top =~= seq![plain_row(seq![faint_piece(empty_text(v))])]);
    }
}

/// Where the list is empty, the view says why: the search goes on, there is no pattern, or nothing
/// was found that would change anything.
pub proof fn law_empty_list_says_why(v: SessionView)
    ensures
        !v.search_done ==> empty_text(v) == " Searching\u{2026}"@,
        v.search_done && v.pat.before.len() + v.pat.after.len() == 0 ==> empty_text(v)
            == " Type a pattern to search"@,
        v.search_done && v.pat.before.len() + v.pat.after.len() > 0 ==> empty_text(v) == " "@
            + no_change_text(v.found.noops as nat),
{
}

/// The status tells what is wrong with the pattern, if anything is; else the keys for editing
/// while the user edits; else how far a search has come that still goes on; else how much was
/// found, which match is selected out of how many, and how many are accepted; and else that there
/// is nothing.
pub proof fn law_status_tells_how_things_stand(v: SessionView)
    ensures
        ({
            let total = all_matches(v.found.edits) as nat;
            let n = entries_of(v.found.edits).len();
            let noops = v.found.noops as nat;
            let empty = v.pat.before.len() + v.pat.after.len() == 0;
            &&& v.error matches Some(e) ==> status_text(v) == " Error: "@ + e
            &&& v.error is None && v.in_edit ==> status_text(v)
                == " \u{21b5} replace mode  \u{00b7}  esc revert  \u{00b7}  tab/shift+tab switch field  \u{00b7}  q quit"@
            &&& v.error is None && !v.in_edit && !v.search_done ==> status_text(v)
                == " Searching\u{2026} "@ + decimal(total) + " matches"@ + noop_text(noops)
                + key_help()
            &&& v.error is None && !v.in_edit && v.search_done && total > 0 ==> status_text(v)
                == " "@ + decimal(total) + " matches in "@ + decimal(v.found.edits.len())
                + " files"@ + noop_text(noops) + " ["@ + decimal((v.panes.selected + 1) as nat)
                + "/"@ + decimal(n) + "]"@ + accepted_info(v) + key_help()
            &&& v.error is None && !v.in_edit && v.search_done && total == 0 && empty
                ==> status_text(v) == " Type a pattern  \u{00b7}  esc quit"@
            &&& v.error is None && !v.in_edit && v.search_done && total == 0 && !empty
                ==> status_text(v) == " "@ + no_change_text(noops)
                + "  \u{00b7}  e edit  \u{00b7}  q quit"@
            &&& v.found.applied.is_empty() ==> accepted_info(v) == ""@
            &&& !v.found.applied.is_empty() ==> accepted_info(v) == "  \u{00b7}  "@ + decimal(
                v.found.applied.len(),
            ) + "/"@ + decimal(n) + " replaced"@
            &&& key_help()
                == "  \u{00b7}  \u{21b5} replace  \u{00b7}  shift+\u{21b5} replace all  \u{00b7}  e edit  \u{00b7}  q quit"@
        }),
{
}

} // verus!
