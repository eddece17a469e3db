//! What the models of the library's data hold: what the data holds, and nothing else.
use vstd::prelude::*;

use crate::cli::{path_views, SearchPath, SearchPathView};
use crate::edit::{
    change_views, ints, match_views, matched_views, Change, LineMatch, MatchedLine,
};
use crate::engine::span_views as place_views;
use crate::file_types::definition_views;
use crate::found::{entry_views, Found, MatchEntry};
use crate::frame::Frame;
use crate::hunks::{changed_lines, hunk_views, Hunk};
use crate::input_field::{lemma_wf, InputField};
use crate::lines::string_views;
use crate::outcome::{write_views, FileWrite, Outcome, OutcomeView};
use crate::panes::Panes;
use crate::segments::{seg_texts, seg_views};
use crate::session::{text_of, Session};
use crate::style::{op_views, row_views, span_views, Op, OpView, Row, Span};
use crate::text::byte_len;

verus! {

/// Lists of texts, places and segments are modelled element by element.
pub proof fn law_lists_of_text_are_modelled_one_by_one(
    strings: Seq<String>,
    paths: Seq<SearchPath>,
    segments: Seq<(String, bool)>,
    spans: Seq<(usize, usize)>,
    definitions: Seq<(String, Vec<String>)>,
    i: int,
)
    ensures
        string_views(strings).len() == strings.len(),
        0 <= i < strings.len() ==> string_views(strings)[i] == strings[i]@,
        path_views(paths).len() == paths.len(),
        0 <= i < paths.len() ==> match paths[i] {
            SearchPath::Given(p) => path_views(paths)[i] == SearchPathView::Given(p),
            SearchPath::Word(w) => path_views(paths)[i] == SearchPathView::Word(w@),
        },
        seg_views(segments).len() == segments.len(),
        0 <= i < segments.len() ==> seg_views(segments)[i] == (segments[i].0@, segments[i].1),
        place_views(spans).len() == spans.len(),
        0 <= i < spans.len() ==> place_views(spans)[i] == (spans[i].0 as int, spans[i].1 as int),
        definition_views(definitions).len() == definitions.len(),
        0 <= i < definitions.len() ==> definition_views(definitions)[i].0 == definitions[i].0@
            && definition_views(definitions)[i].1 == string_views(definitions[i].1@),
{
}

/// The findings of a search are modelled field by field.
pub proof fn law_findings_are_modelled_field_by_field(
    matches: Seq<Option<LineMatch>>,
    matched: Seq<MatchedLine>,
    changes: Seq<Change>,
    i: int,
)
    ensures
        match_views(matches).len() == matches.len(),
        0 <= i < matches.len() ==> match matches[i] {
            Some(m) => match_views(matches)[i] matches Some(v) && v.orig == seg_views(
                m.orig_segments@,
            ) && v.new == seg_views(m.new_segments@) && v.count == m.match_count,
            None => match_views(matches)[i] is None,
        },
        matched_views(matched).len() == matched.len(),
        0 <= i < matched.len() ==> {
            let v = matched_views(matched)[i];
            v.line_idx == matched[i].line_idx && v.orig == seg_views(matched[i].orig_segments@)
        },
        change_views(changes).len() == changes.len(),
        0 <= i < changes.len() ==> {
            let v = change_views(changes)[i];
            &&& v.line_idx == changes[i].line_idx
            &&& v.orig == seg_views(changes[i].orig_segments@)
            &&& v.new == seg_views(changes[i].new_segments@)
            &&& v.match_count == changes[i].match_count
        },
        changed_lines(changes).len() == changes.len(),
        0 <= i < changes.len() ==> changed_lines(changes)[i] == changes[i].line_idx,
{
}

/// Numbers in lists and sets are modelled as they are.
pub proof fn law_numbers_are_modelled_as_they_are(
    hunks: Seq<Hunk>,
    entries: Seq<MatchEntry>,
    writes: Seq<FileWrite>,
    set: Set<usize>,
    i: int,
    x: usize,
)
    ensures
        hunk_views(hunks).len() == hunks.len(),
        0 <= i < hunks.len() ==> hunk_views(hunks)[i] == (
            hunks[i].start as int,
            hunks[i].end as int,
        ),
        entry_views(entries).len() == entries.len(),
        0 <= i < entries.len() ==> entry_views(entries)[i] == (
            entries[i].edit_idx as int,
            entries[i].change_idx as int,
            entries[i].match_idx as int,
        ),
        write_views(writes).len() == writes.len(),
        0 <= i < writes.len() ==> write_views(writes)[i] == (
            writes[i].edit_idx as int,
            writes[i].text@,
        ),
        ints(set).contains(x as int) <==> set.contains(x),
        i < 0 || i > usize::MAX ==> !ints(set).contains(i),
{
}

/// Output and rows are modelled step by step and piece by piece.
pub proof fn law_output_is_modelled_step_by_step(
    ops: Seq<Op>,
    spans: Seq<Span>,
    rows: Seq<Row>,
    i: int,
)
    ensures
        op_views(ops).len() == ops.len(),
        0 <= i < ops.len() ==> match ops[i] {
            Op::SetColor(style) => op_views(ops)[i] == OpView::SetColor(style),
            Op::Reset => op_views(ops)[i] == OpView::Reset,
            Op::Text(text) => op_views(ops)[i] == OpView::Text(text@),
            Op::Newline => op_views(ops)[i] == OpView::Newline,
        },
        span_views(spans).len() == spans.len(),
        0 <= i < spans.len() ==> span_views(spans)[i].text == spans[i].text@
            && span_views(spans)[i].style == spans[i].style,
        row_views(rows).len() == rows.len(),
        0 <= i < rows.len() ==> row_views(rows)[i].spans == span_views(rows[i].spans@)
            && row_views(rows)[i].style == rows[i].style,
{
}

/// A line of input is what stands before its place and what stands after it, and the place is
/// where the former ends.
pub proof fn law_input_is_what_stands_around_its_place(field: InputField)
    requires
        field.wf(),
    ensures
        field@.before + field@.after == field.text@,
        byte_len(field@.before) == field.cursor,
{
    lemma_wf(field);
}

/// What was found, what is selected and what comes of it are modelled field by field.
pub proof fn law_results_are_modelled_field_by_field(found: Found, panes: Panes, outcome: Outcome)
    ensures
        found@.edits == found.all_edits@,
        found@.noops == found.noop_total,
        found@.applied == found.applied@,
        panes@.selected == panes.selected,
        panes@.top_scroll == panes.top_scroll,
        panes@.rows == row_views(panes.bottom_lines@),
        panes@.bottom_scroll == panes.bottom_scroll,
        match panes.last_selected {
            Some(i) => panes@.shown == Some(i as int),
            None => panes@.shown is None,
        },
        match outcome {
            Outcome::Aborted => outcome@ == OutcomeView::Aborted,
            Outcome::Nothing => outcome@ == OutcomeView::Nothing,
            Outcome::Replaced { writes, count } => outcome@ == (OutcomeView::Replaced {
                writes: write_views(writes@),
                count: count as int,
            }),
        },
{
}

/// A session and what is shown of it are modelled field by field.
pub proof fn law_session_is_modelled_field_by_field(session: Session, frame: Frame)
    ensures
        session@.pat == session.pat@ && session@.rep == session.rep@,
        session@.active_field == session.active_field,
        session@.in_edit == session.in_edit,
        session@.snap_pat == session.snap_pat@ && session@.snap_rep == session.snap_rep@,
        session@.found == session.found@,
        session@.search_done == session.search_done,
        session@.pending == session.pending,
        session@.panes == session.panes@,
        match session.regex_error {
            Some(e) => session@.error == Some(e@),
            None => session@.error is None,
        },
        text_of(session.pat@) == session.pat@.before + session.pat@.after,
        frame@.input == row_views(frame.input@),
        frame@.top_h == frame.top_h && frame@.bottom_h == frame.bottom_h,
        frame@.top == row_views(frame.top@) && frame@.bottom == row_views(frame.bottom@),
        frame@.status.text == frame.status.text@ && frame@.status.style == frame.status.style,
{
}

/// The texts of segments are modelled one by one.
pub proof fn law_texts_of_segments_are_theirs(segments: Seq<(Seq<char>, bool)>, i: int)
    ensures
        seg_texts(segments).len() == segments.len(),
        0 <= i < segments.len() ==> seg_texts(segments)[i] == segments[i].0,
{
}

} // verus!
