//! What the full-screen view shows at one moment.
use vstd::prelude::*;

use crate::cli::Preview;

use crate::found::{all_matches, entries_of, entry_views, law_one_entry_for_each_match};
use crate::input_field::lemma_wf;
use crate::lines::{decimal, push_decimal};
use crate::messages::{no_change_message, no_change_text, noop_suffix, noop_text};
use crate::panes::{
    bottom_height, bottom_rows, law_selected_match_is_seen, list_rows, pane_heights, settled,
    top_height,
};
use crate::render::{input_row, render_input_line};
use crate::session::{text_of, Session, SessionView};
use crate::style::{
    add_row, add_span, dim_style, fg_style, plain, row, row_views, span, span_views, Color, Row,
    RowView, Span, SpanView, Style,
};

verus! {

broadcast use vstd::std_specs::hash::group_hash_axioms;

/// What is shown, from top to bottom.
pub struct Frame {
    /// The lines of input, where there are any.
    pub input: Vec<Row>,
    pub top_h: usize,
    pub top: Vec<Row>,
    pub bottom_h: usize,
    pub bottom: Vec<Row>,
    pub status: Span,
}

/// What is shown, with its text.
#[verifier::ext_equal]
pub struct FrameView {
    pub input: Seq<RowView>,
    pub top_h: int,
    pub top: Seq<RowView>,
    pub bottom_h: int,
    pub bottom: Seq<RowView>,
    pub status: SpanView,
}

impl View for Frame {
    type V = FrameView;

    open spec fn view(&self) -> FrameView {
        FrameView {
            input: row_views(self.input@),
            top_h: self.top_h as int,
            top: row_views(self.top@),
            bottom_h: self.bottom_h as int,
            bottom: row_views(self.bottom@),
            status: self.status@,
        }
    }
}

/// How changed lines are shown: without a replacement there is nothing new to show.
pub open spec fn shown_preview(rep: Seq<char>, preview: Preview) -> Preview {
    if rep.len() == 0 {
        Preview::Old
    } else {
        preview
    }
}

/// What stands in place of an empty list.
pub open spec fn empty_text(v: SessionView) -> Seq<char> {
    if !v.search_done {
        " Searching\u{2026}"@
    } else if text_of(v.pat).len() == 0 {
        " Type a pattern to search"@
    } else {
        " "@ + no_change_text(v.found.noops as nat)
    }
}

/// The keys that are named below the panes.
pub open spec fn key_help() -> Seq<char> {
    "  \u{00b7}  \u{21b5} replace  \u{00b7}  shift+\u{21b5} replace all  \u{00b7}  e edit  \u{00b7}  q quit"@
}

/// How many matches are accepted.
pub open spec fn accepted_info(v: SessionView) -> Seq<char> {
    if v.found.applied.is_empty() {
        ""@
    } else {
        "  \u{00b7}  "@ + decimal(v.found.applied.len()) + "/"@ + decimal(
            entries_of(v.found.edits).len(),
        ) + " replaced"@
    }
}

/// The text below the panes.
pub open spec fn status_text(v: SessionView) -> Seq<char> {
    let total = all_matches(v.found.edits) as nat;
    match v.error {
        Some(e) => " Error: "@ + e,
        None => if v.in_edit {
            " \u{21b5} replace mode  \u{00b7}  esc revert  \u{00b7}  tab/shift+tab switch field  \u{00b7}  q quit"@
        } else if !v.search_done {
            " Searching\u{2026} "@ + decimal(total) + " matches"@ + noop_text(
                v.found.noops as nat,
            ) + key_help()
        } else if total > 0 {
            " "@ + decimal(total) + " matches in "@ + decimal(v.found.edits.len()) + " files"@
                + noop_text(v.found.noops as nat) + " ["@ + decimal(
                (v.panes.selected + 1) as nat,
            ) + "/"@ + decimal(entries_of(v.found.edits).len()) + "]"@ + accepted_info(v)
                + key_help()
        } else if text_of(v.pat).len() == 0 {
            " Type a pattern  \u{00b7}  esc quit"@
        } else {
            " "@ + no_change_text(v.found.noops as nat) + "  \u{00b7}  e edit  \u{00b7}  q quit"@
        },
    }
}

/// The text below the panes, in red where it tells of an error.
pub open spec fn status_span(v: SessionView) -> SpanView {
    span(
        status_text(v),
        if v.error is Some {
            fg_style(Color::Red, false)
        } else {
            plain()
        },
    )
}

/// The lines of input.
pub open spec fn input_rows(v: SessionView) -> Seq<RowView> {
    if v.in_edit {
        seq![
            input_row("Pattern:     "@, text_of(v.pat), v.pat, v.active_field == 0),
            input_row("Replacement: "@, text_of(v.rep), v.rep, v.active_field == 1),
        ]
    } else {
        seq![]
    }
}

/// The list of matches, or what stands in its place.
pub open spec fn top_rows(v: SessionView, preview: Preview, top_h: int) -> Seq<RowView> {
    if entries_of(v.found.edits).len() == 0 {
        seq![row(seq![span(empty_text(v), dim_style())])]
    } else {
        list_rows(v.found.edits, v.found.applied, v.panes, preview, top_h)
    }
}

/// The session as it is shown on a screen of so many rows.
pub open spec fn settled_session(v: SessionView, preview: Preview, total_h: int) -> SessionView {
    SessionView {
        panes: settled(
            v.panes,
            v.found.edits,
            shown_preview(text_of(v.rep), preview),
            top_height(total_h, v.in_edit),
            bottom_height(total_h, v.in_edit),
        ),
        ..v
    }
}

/// What a settled session shows on a screen of so many rows.
pub open spec fn frame_of(v: SessionView, preview: Preview, total_h: int) -> FrameView {
    let top_h = top_height(total_h, v.in_edit);
    let bottom_h = bottom_height(total_h, v.in_edit);
    FrameView {
        input: input_rows(v),
        top_h,
        top: top_rows(v, shown_preview(text_of(v.rep), preview), top_h),
        bottom_h,
        bottom: bottom_rows(v.panes, bottom_h),
        status: status_span(v),
    }
}

impl Session {
    fn push_key_help(out: &mut String)
        ensures
            final(out)@ == old(out)@ + key_help(),
    {
        out.append(
            "  \u{00b7}  \u{21b5} replace  \u{00b7}  shift+\u{21b5} replace all  \u{00b7}  e edit  \u{00b7}  q quit",
        );
    }

    fn searching_text(&self) -> (r: String)
        requires
            self.wf(),
            self.regex_error is None,
            !self.in_edit,
            !self.search_done,
        ensures
            r@ == status_text(self@),
    {
        let mut out = " Searching\u{2026} ".to_owned();
        push_decimal(&mut out, self.found.total_matches);
        out.append(" matches");
        out.append(noop_suffix(self.found.noop_total).as_str());
        Self::push_key_help(&mut out);
        out
    }

    fn push_accepted_info(&self, out: &mut String)
        requires
            self.wf(),
        ensures
            final(out)@ == old(out)@ + accepted_info(self@),
    {
        let n = self.found.match_list.len();
        proof {
            assert(entry_views(self.found.match_list@).len() == n);
        }
        if !self.found.applied.is_empty() {
            out.append("  \u{00b7}  ");
            push_decimal(out, self.found.applied.len());
            out.append("/");
            push_decimal(out, n);
            out.append(" replaced");
        } else {
            out.append("");
        }
        proof {
            assert(out@ == old(out)@ + accepted_info(self@));
        }
    }

    fn results_text(&self) -> (r: String)
        requires
            self.wf(),
            self.regex_error is None,
            !self.in_edit,
            self.search_done,
            self.found.total_matches > 0,
        ensures
            r@ == status_text(self@),
    {
        let n = self.found.match_list.len();
        proof {
            assert(entry_views(self.found.match_list@).len() == n);
            law_one_entry_for_each_match(self.found@.edits);
        }
        let mut out = " ".to_owned();
        push_decimal(&mut out, self.found.total_matches);
        out.append(" matches in ");
        push_decimal(&mut out, self.found.all_edits.len());
        out.append(" files");
        out.append(noop_suffix(self.found.noop_total).as_str());
        out.append(" [");
        push_decimal(&mut out, self.panes.selected + 1);
        out.append("/");
        push_decimal(&mut out, n);
        out.append("]");
        self.push_accepted_info(&mut out);
        Self::push_key_help(&mut out);
        out
    }

    /// The text below the panes.
    pub fn status_line(&self) -> (r: Span)
        requires
            self.wf(),
        ensures
            r@ == status_span(self@),
    {
        let style = if self.regex_error.is_some() {
            Style::fg(Color::Red, false)
        } else {
            Style::plain()
        };
        proof {
            lemma_wf(self.pat);
        }
        let text = match &self.regex_error {
            Some(e) => {
                let mut out = " Error: ".to_owned();
                out.append(e.as_str());
                out
            },
            None => if self.in_edit {
                " \u{21b5} replace mode  \u{00b7}  esc revert  \u{00b7}  tab/shift+tab switch field  \u{00b7}  q quit".to_owned()
            } else if !self.search_done {
                self.searching_text()
            } else if self.found.total_matches > 0 {
                self.results_text()
            } else if self.pat.text.as_str().is_empty() {
                " Type a pattern  \u{00b7}  esc quit".to_owned()
            } else {
                let mut out = " ".to_owned();
                out.append(no_change_message(self.found.noop_total).as_str());
                out.append("  \u{00b7}  e edit  \u{00b7}  q quit");
                out
            },
        };
        Span { text, style }
    }

    fn empty_message(&self) -> (r: String)
        requires
            self.wf(),
        ensures
            r@ == empty_text(self@),
    {
        proof {
            lemma_wf(self.pat);
        }
        if !self.search_done {
            " Searching\u{2026}".to_owned()
        } else if self.pat.text.as_str().is_empty() {
            " Type a pattern to search".to_owned()
        } else {
            let mut out = " ".to_owned();
            out.append(no_change_message(self.found.noop_total).as_str());
            out
        }
    }

    /// The list of matches, or what stands in its place.
    pub fn show_top(&self, preview: Preview, top_h: usize) -> (r: Vec<Row>)
        requires
            self.wf(),
            self.panes.top_scroll <= self.found.match_list@.len(),
        ensures
            row_views(r@) == top_rows(self@, preview, top_h as int),
    {
        proof {
            assert(entry_views(self.found.match_list@).len() == self.found.match_list@.len());
        }
        if self.found.match_list.len() == 0 {
            let mut spans: Vec<Span> = Vec::new();
            add_span(&mut spans, self.empty_message(), Style::dimmed());
            proof {
                assert(span_views(spans@) == seq![span(empty_text(self@), dim_style())]);
            }
            let mut rows: Vec<Row> = Vec::new();
            add_row(&mut rows, spans);
            proof {
                assert(row_views(rows@) == top_rows(self@, preview, top_h as int));
            }
            rows
        } else {
            self.panes.show_list(&self.found, preview, top_h)
        }
    }

    /// The lines of input.
    pub fn show_input(&self) -> (r: Vec<Row>)
        requires
            self.wf(),
        ensures
            row_views(r@) == input_rows(self@),
    {
        let mut rows: Vec<Row> = Vec::new();
        if self.in_edit {
            proof {
                lemma_wf(self.pat);
                lemma_wf(self.rep);
            }
            rows.push(render_input_line("Pattern:     ", &self.pat, self.active_field == 0));
            rows.push(render_input_line("Replacement: ", &self.rep, self.active_field == 1));
        }
        proof {
            assert(row_views(rows@) == input_rows(self@));
        }
        rows
    }

    /// Makes the session ready to be shown on a screen of so many rows, and says what is shown.
    pub fn frame(&mut self, preview: Preview, total_h: usize) -> (r: Frame)
        requires
            old(self).wf(),
        ensures
            final(self).wf(),
            final(self)@ == settled_session(old(self)@, preview, total_h as int),
            r@ == frame_of(final(self)@, preview, total_h as int),
    {
        let (top_h, bottom_h) = pane_heights(total_h, self.in_edit);
        proof {
            lemma_wf(self.rep);
        }
        let preview = if self.rep.text.as_str().is_empty() {
            Preview::Old
        } else {
            preview
        };
        self.panes.settle(&self.found, preview, top_h, bottom_h);
        proof {
            law_selected_match_is_seen(
                old(self)@.panes,
                self.found@.edits,
                preview,
                top_h as int,
                bottom_h as int,
            );
            assert(entry_views(self.found.match_list@).len() == self.found.match_list@.len());
            assert(self@.panes.rows.len() == self.panes.bottom_lines@.len());
        }
        let input = self.show_input();
        let top = self.show_top(preview, top_h);
        let bottom = self.panes.show_bottom(bottom_h);
        let status = self.status_line();
        Frame { input, top_h, top, bottom_h, bottom, status }
    }
}

/// Editing adds two lines of input to the view, and nothing else does.
pub proof fn law_editing_adds_two_lines(v: SessionView, preview: Preview, total_h: int)
    ensures
        frame_of(v, preview, total_h).input.len() == if v.in_edit {
            2nat
        } else {
            0nat
        },
{
}

} // verus!
