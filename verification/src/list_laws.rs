//! What is seen of matches that are listed without context.
use vstd::prelude::*;

use crate::batch::plain_ops;
use crate::cli::{Cli, Preview};
use crate::edit::{fits_line, matched_upto, ChangeView, FileEdit, SourcePath};
use crate::engine::{regex_spans, valid_spans};
use crate::lines::{body_of, decimal, lemma_join_push};
use crate::output_laws::{
    at_row_start, bold, coloured, drawn, law_preview_shows_the_lines_near_changes,
    lemma_drawn_concat, lemma_drawn_push, lemma_numbered_row, lemma_path, near_rows, number, pieces,
    with_rows, Screen,
};
use crate::process::{found_in, is_edit_of};
use crate::report::{
    compact_change_ops, compact_changes_ops, compact_ops, path_ops, preview_ops, repeated,
    vimgrep_line_ops, vimgrep_ops,
};
use crate::search_laws::spans_fit;
use crate::segments::{
    end_of, highlighted, lemma_end_boundary, lemma_woven_original, matched_texts, seg_text,
    seg_texts, segments, woven,
};
use crate::style::{fg_style, Color, OpView, Style};
use crate::text::{
    byte_len, byte_slice, lemma_slice, lemma_slice_ends, lemma_slices_join, on_boundary,
};

verus! {

// The compact form.

/// The row of a changed line without context.
pub open spec fn compact_row(change: ChangeView, preview: Preview) -> Seq<
    (Seq<char>, Option<Style>),
> {
    seq![(number(change.line_idx, 6), coloured(Color::Cyan))] + if preview == Preview::New {
        pieces(change.new, Color::Green)
    } else {
        pieces(change.orig, Color::Yellow)
    }
}

/// The rows of the first `k` changes: each once for every match in its line.
pub open spec fn compact_rows(edit: FileEdit, preview: Preview, k: nat) -> Seq<
    Seq<(Seq<char>, Option<Style>)>,
>
    decreases k,
{
    if k == 0 {
        seq![]
    } else {
        compact_rows(edit, preview, (k - 1) as nat) + Seq::new(
            edit.changes@[k - 1].match_count as nat,
            |i: int| compact_row(edit.changes@[k - 1]@, preview),
        )
    }
}

proof fn lemma_compact_change(s: Screen, change: ChangeView, preview: Preview)
    requires
        at_row_start(s),
    ensures
        drawn(s, compact_change_ops(change, preview)) == with_rows(
            s,
            seq![compact_row(change, preview)],
        ),
{
    if preview == Preview::New {
        lemma_numbered_row(
            s,
            change.line_idx,
            change.new,
            Color::Green,
            fg_style(Color::Green, true),
        );
    } else {
        lemma_numbered_row(
            s,
            change.line_idx,
            change.orig,
            Color::Yellow,
            fg_style(Color::Yellow, true),
        );
    }
}

proof fn lemma_repeated(s: Screen, change: ChangeView, preview: Preview, times: nat)
    requires
        at_row_start(s),
    ensures
        drawn(s, repeated(compact_change_ops(change, preview), times)) == with_rows(
            s,
            Seq::new(times, |i: int| compact_row(change, preview)),
        ),
    decreases times,
{
    let row = compact_row(change, preview);
    if times == 0 {
        assert(s.rows + Seq::new(0, |i: int| row) == s.rows);
    } else {
        let one = compact_change_ops(change, preview);
        let before = repeated(one, (times - 1) as nat);
        lemma_repeated(s, change, preview, (times - 1) as nat);
        lemma_drawn_concat(s, before, one);
        lemma_compact_change(drawn(s, before), change, preview);
        assert(s.rows + Seq::new((times - 1) as nat, |i: int| row) + seq![row] == s.rows
            + Seq::new(times, |i: int| row));
    }
}

proof fn lemma_compact_changes(s: Screen, edit: FileEdit, preview: Preview, k: nat)
    requires
        edit.wf(),
        at_row_start(s),
        k <= edit.changes@.len(),
    ensures
        drawn(s, compact_changes_ops(edit.change_views(), preview, k)) == with_rows(
            s,
            compact_rows(edit, preview, k),
        ),
    decreases k,
{
    let changes = edit.change_views();
    if k == 0 {
        assert(s.rows + Seq::<Seq<(Seq<char>, Option<Style>)>>::empty() == s.rows);
    } else {
        let j = (k - 1) as nat;
        let change = changes[k - 1];
        assert(fits_line(edit.line_views(), changes[k - 1]));
        assert(change == edit.changes@[k - 1]@);
        lemma_compact_changes(s, edit, preview, j);
        let before = compact_changes_ops(changes, preview, j);
        let times = highlighted(change.orig).len();
        let own = repeated(compact_change_ops(change, preview), times);
        lemma_drawn_concat(s, before, own);
        lemma_repeated(drawn(s, before), change, preview, times);
        let done = compact_rows(edit, preview, j);
        let new = Seq::new(times, |i: int| compact_row(change, preview));
        assert(s.rows + done + new == s.rows + (done + new));
        assert(new == Seq::new(
            edit.changes@[k - 1].match_count as nat,
            |i: int| compact_row(edit.changes@[k - 1]@, preview),
        ));
    }
}

/// The compact form shows the name of the file, then for every match that is replaced the line
/// that it stands in, as it will be or as it is, and an empty row at the end.
pub proof fn law_compact_form_shows_each_match(s: Screen, edit: FileEdit, preview: Preview)
    requires
        edit.wf(),
        at_row_start(s),
    ensures
        drawn(s, compact_ops(edit, preview)) == with_rows(
            s,
            (seq![seq![(edit.path.display@, bold(Color::Magenta))]] + compact_rows(
                edit,
                preview,
                edit.changes@.len(),
            )).push(seq![]),
        ),
{
    let a = path_ops(edit.path.display@);
    let b = compact_changes_ops(edit.change_views(), preview, edit.changes@.len());
    lemma_path(s, edit.path.display@);
    lemma_drawn_concat(s, a, b);
    lemma_compact_changes(drawn(s, a), edit, preview, edit.changes@.len());
    lemma_drawn_push(s, a + b, OpView::Newline);
    let title = seq![seq![(edit.path.display@, bold(Color::Magenta))]];
    let rows = compact_rows(edit, preview, edit.changes@.len());
    let end = drawn(s, compact_ops(edit, preview));
    assert(end.rows == s.rows + (title + rows).push(seq![])) by {
        assert(end.rows == (s.rows + title + rows).push(s.row));
        assert(s.row =~= Seq::<(Seq<char>, Option<Style>)>::empty());
        assert(end.rows =~= s.rows + (title + rows).push(seq![]));
    }
    assert(end.row =~= s.row);
}

// Matches, one to a row.

/// The row of a match: the file, the line and the column of its first byte, both counted from
/// one, and the line itself.
pub open spec fn match_row(display: Seq<char>, line: int, at: int, body: Seq<char>) -> Seq<
    (Seq<char>, Option<Style>),
> {
    seq![
        (
            display + ":"@ + decimal((line + 1) as nat) + ":"@ + decimal((at + 1) as nat) + ":"@
                + body,
            None,
        ),
    ]
}

/// The rows of all matches in the first `k` lines.
pub open spec fn match_rows(
    display: Seq<char>,
    source: (Seq<char>, bool),
    lines: Seq<Seq<char>>,
    k: nat,
) -> Seq<Seq<(Seq<char>, Option<Style>)>>
    decreases k,
{
    if k == 0 {
        seq![]
    } else {
        let body = body_of(lines[k - 1]);
        let spans = regex_spans(source, body);
        match_rows(display, source, lines, (k - 1) as nat) + Seq::new(
            spans.len(),
            |i: int| match_row(display, k - 1, spans[i].0, body),
        )
    }
}

proof fn lemma_same_start(
    display: Seq<char>,
    line: int,
    body: Seq<char>,
    a: Seq<(Seq<char>, bool)>,
    b: Seq<(Seq<char>, bool)>,
    k: nat,
)
    requires
        k <= a.len() <= b.len(),
        b.take(a.len() as int) == a,
    ensures
        vimgrep_line_ops(display, line, body, a, k) == vimgrep_line_ops(display, line, body, b, k),
    decreases k,
{
    if k > 0 {
        lemma_same_start(display, line, body, a, b, (k - 1) as nat);
        assert(b.take(a.len() as int)[k - 1] == b[k - 1]);
        assert(a.take(k - 1) == b.take(k - 1));
    }
}

proof fn lemma_row_push(
    s: Screen,
    display: Seq<char>,
    line: int,
    body: Seq<char>,
    segs: Seq<(Seq<char>, bool)>,
    last: (Seq<char>, bool),
)
    requires
        at_row_start(s),
        at_row_start(drawn(s, vimgrep_line_ops(display, line, body, segs, segs.len()))),
    ensures
        drawn(
            s,
            vimgrep_line_ops(display, line, body, segs.push(last), segs.push(last).len()),
        ) == with_rows(
            drawn(s, vimgrep_line_ops(display, line, body, segs, segs.len())),
            if last.1 {
                seq![match_row(display, line, byte_len(seg_text(segs)) as int, body)]
            } else {
                seq![]
            },
        ),
{
    let more = segs.push(last);
    assert(more.take(segs.len() as int) == segs);
    lemma_same_start(display, line, body, segs, more, segs.len());
    let before = vimgrep_line_ops(display, line, body, segs, segs.len());
    let s1 = drawn(s, before);
    if last.1 {
        let text = match_row(display, line, byte_len(seg_text(segs)) as int, body)[0].0;
        assert(1 + byte_len(seg_text(segs)) == (byte_len(seg_text(segs)) + 1) as nat);
        lemma_drawn_push(s, before, OpView::Text(text));
        lemma_drawn_push(s, before.push(OpView::Text(text)), OpView::Newline);
        let end = drawn(s, before.push(OpView::Text(text)).push(OpView::Newline));
        assert(end.rows =~= s1.rows + seq![
            match_row(display, line, byte_len(seg_text(segs)) as int, body),
        ]) by {
            assert(s1.row.push((text, None)) =~= match_row(
                display,
                line,
                byte_len(seg_text(segs)) as int,
                body,
            ));
        }
        assert(end.row =~= s1.row);
    } else {
        assert(s1.rows + Seq::<Seq<(Seq<char>, Option<Style>)>>::empty() == s1.rows);
    }
}

proof fn lemma_woven_rows(
    s: Screen,
    display: Seq<char>,
    line: int,
    body: Seq<char>,
    spans: Seq<(int, int)>,
    k: nat,
)
    requires
        at_row_start(s),
        valid_spans(body, spans),
        k <= spans.len(),
    ensures
        ({
            let segs = woven(body, spans, matched_texts(body, spans), k);
            drawn(s, vimgrep_line_ops(display, line, body, segs, segs.len())) == with_rows(
                s,
                Seq::new(k, |i: int| match_row(display, line, spans[i].0, body)),
            )
        }),
    decreases k,
{
    let texts = matched_texts(body, spans);
    if k == 0 {
        assert(s.rows + Seq::new(0, |i: int| match_row(display, line, spans[i].0, body)) == s.rows);
    } else {
        let j = (k - 1) as nat;
        lemma_woven_rows(s, display, line, body, spans, j);
        lemma_woven_original(body, spans, j);
        lemma_end_boundary(body, spans, j as int);
        lemma_slice_ends(body);
        let before = woven(body, spans, texts, j);
        let last = end_of(spans, j as int);
        let start = spans[k - 1].0;
        assert(on_boundary(body, spans[k - 1].0));
        let s1 = drawn(s, vimgrep_line_ops(display, line, body, before, before.len()));
        let piece = (byte_slice(body, last, start), false);
        let done = Seq::new(j, |i: int| match_row(display, line, spans[i].0, body));
        lemma_slice(body, 0, last);
        lemma_slice(body, 0, start);
        if start > last {
            lemma_row_push(s, display, line, body, before, piece);
            assert(s1.rows + Seq::<Seq<(Seq<char>, Option<Style>)>>::empty() == s1.rows);
            lemma_slices_join(body, 0, last, start);
            lemma_seg_push(before, piece);
            lemma_row_push(s, display, line, body, before.push(piece), (texts[k - 1], true));
        } else {
            lemma_row_push(s, display, line, body, before, (texts[k - 1], true));
        }
        assert(s.rows + done + seq![match_row(display, line, start, body)] =~= s.rows + Seq::new(
            k,
            |i: int| match_row(display, line, spans[i].0, body),
        ));
    }
}

proof fn lemma_seg_push(segs: Seq<(Seq<char>, bool)>, last: (Seq<char>, bool))
    ensures
        seg_text(segs.push(last)) == seg_text(segs) + last.0,
{
    assert(seg_texts(segs.push(last)) == seg_texts(segs).push(
        last.0,
    ));
    lemma_join_push(seg_texts(segs), last.0);
}

proof fn lemma_line_rows(
    s: Screen,
    display: Seq<char>,
    line: int,
    body: Seq<char>,
    spans: Seq<(int, int)>,
)
    requires
        at_row_start(s),
        valid_spans(body, spans),
    ensures
        ({
            let segs = segments(body, spans, matched_texts(body, spans));
            drawn(s, vimgrep_line_ops(display, line, body, segs, segs.len())) == with_rows(
                s,
                Seq::new(spans.len(), |i: int| match_row(display, line, spans[i].0, body)),
            )
        }),
{
    let n = spans.len();
    let texts = matched_texts(body, spans);
    lemma_woven_rows(s, display, line, body, spans, n);
    let all = woven(body, spans, texts, n);
    let last = end_of(spans, n as int);
    if last < byte_len(body) {
        let rest = (byte_slice(body, last, byte_len(body) as int), false);
        lemma_row_push(s, display, line, body, all, rest);
        let s1 = drawn(s, vimgrep_line_ops(display, line, body, all, all.len()));
        assert(s1.rows + Seq::<Seq<(Seq<char>, Option<Style>)>>::empty() == s1.rows);
    }
}

/// The lines without matches make no difference to the list.
proof fn lemma_vimgrep(
    s: Screen,
    edit: FileEdit,
    source: (Seq<char>, bool),
    lines: Seq<Seq<char>>,
    replacement: Seq<char>,
    fixed: bool,
    k: nat,
    m: nat,
)
    requires
        at_row_start(s),
        spans_fit(source, lines),
        edit.line_views() == lines,
        k <= lines.len(),
        m == matched_upto(found_in(source, lines, replacement, fixed), k).len(),
        m <= edit.matched@.len(),
        edit.matched_views().take(m as int) == matched_upto(
            found_in(source, lines, replacement, fixed),
            k,
        ),
    ensures
        drawn(s, vimgrep_ops(edit, m)) == with_rows(
            s,
            match_rows(edit.path.display@, source, lines, k),
        ),
    decreases k,
{
    let found = found_in(source, lines, replacement, fixed);
    let display = edit.path.display@;
    if k == 0 {
        assert(s.rows + Seq::<Seq<(Seq<char>, Option<Style>)>>::empty() == s.rows);
    } else {
        let j = (k - 1) as nat;
        let body = body_of(lines[k - 1]);
        let spans = regex_spans(source, body);
        let before = matched_upto(found, j);
        let done = match_rows(display, source, lines, j);
        let new = Seq::new(spans.len(), |i: int| match_row(display, k - 1, spans[i].0, body));
        assert(valid_spans(body_of(lines[k - 1]), regex_spans(source, body_of(lines[k - 1]))));
        if spans.len() > 0 {
            let now = matched_upto(found, k);
            assert(found[k - 1] is Some);
            assert(now.drop_last() == before);
            assert(edit.matched_views().take(m as int).drop_last() == edit.matched_views().take(
                m - 1,
            ));
            assert(edit.matched_views().take(m as int)[m - 1] == now[m - 1]);
            lemma_vimgrep(s, edit, source, lines, replacement, fixed, j, (m - 1) as nat);
            let line = edit.matched_views()[m - 1];
            let own = vimgrep_line_ops(display, k - 1, body, line.orig, line.orig.len());
            lemma_drawn_concat(s, vimgrep_ops(edit, (m - 1) as nat), own);
            lemma_line_rows(
                drawn(s, vimgrep_ops(edit, (m - 1) as nat)),
                display,
                k - 1,
                body,
                spans,
            );
            assert(s.rows + done + new == s.rows + (done + new));
        } else {
            assert(found[k - 1] is None);
            lemma_vimgrep(s, edit, source, lines, replacement, fixed, j, m);
            assert(done + new == done);
        }
    }
}

/// The list of matches has for every match of a search, replaced or not, a row with the file, the
/// line, the column where the match starts, and the line as it is: line by line, and in each
/// line from left to right.
pub proof fn law_list_has_a_row_with_the_place_of_each_match(
    s: Screen,
    edit: FileEdit,
    path: SourcePath,
    source: (Seq<char>, bool),
    lines: Seq<Seq<char>>,
    replacement: Seq<char>,
    fixed: bool,
)
    requires
        at_row_start(s),
        is_edit_of(Some(edit), path, lines, found_in(source, lines, replacement, fixed)),
        spans_fit(source, lines),
    ensures
        drawn(s, vimgrep_ops(edit, edit.matched@.len())) == with_rows(
            s,
            match_rows(path.display@, source, lines, lines.len()),
        ),
{
    let m = edit.matched@.len();
    assert(edit.matched_views().take(m as int) == edit.matched_views());
    lemma_vimgrep(s, edit, source, lines, replacement, fixed, lines.len(), m);
}

// All files.

/// The rows of a file in the form that is asked for.
pub open spec fn file_shown(edit: FileEdit, cli: Cli) -> Seq<Seq<(Seq<char>, Option<Style>)>> {
    (seq![seq![(edit.path.display@, bold(Color::Magenta))]] + if cli.compact {
        compact_rows(edit, cli.preview, edit.changes@.len())
    } else {
        near_rows(edit, cli.context as int, cli.preview, edit.lines@.len())
    }).push(seq![])
}

/// The rows of the first `k` files.
pub open spec fn files_shown(edits: Seq<FileEdit>, cli: Cli, k: nat) -> Seq<
    Seq<(Seq<char>, Option<Style>)>,
>
    decreases k,
{
    if k == 0 {
        seq![]
    } else {
        files_shown(edits, cli, (k - 1) as nat) + file_shown(edits[k - 1], cli)
    }
}

/// What is printed before the user is asked shows every file, one after the other, in the form
/// that is asked for: compact, or with the context that is asked for.
pub proof fn law_printed_results_show_every_file(
    s: Screen,
    edits: Seq<FileEdit>,
    cli: Cli,
    k: nat,
)
    requires
        at_row_start(s),
        k <= edits.len(),
        forall|i: int| 0 <= i < edits.len() ==> (#[trigger] edits[i]).wf(),
    ensures
        drawn(s, plain_ops(edits, cli, k)) == with_rows(s, files_shown(edits, cli, k)),
    decreases k,
{
    if k == 0 {
        assert(s.rows + Seq::<Seq<(Seq<char>, Option<Style>)>>::empty() == s.rows);
    } else {
        let j = (k - 1) as nat;
        law_printed_results_show_every_file(s, edits, cli, j);
        let edit = edits[k - 1];
        assert(edits[k - 1].wf());
        let before = plain_ops(edits, cli, j);
        let s1 = drawn(s, before);
        if cli.compact {
            lemma_drawn_concat(s, before, compact_ops(edit, cli.preview));
            law_compact_form_shows_each_match(s1, edit, cli.preview);
        } else {
            lemma_drawn_concat(s, before, preview_ops(edit, cli.context as int, cli.preview));
            law_preview_shows_the_lines_near_changes(s1, edit, cli.context as int, cli.preview);
        }
        let done = files_shown(edits, cli, j);
        let own = file_shown(edit, cli);
        assert(s.rows + done + own == s.rows + (done + own));
    }
}

} // verus!
