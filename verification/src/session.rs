//! The full-screen view: searching while the user types, and accepting matches one by one.
use regex::Regex;
use vstd::prelude::*;

use crate::cli::Cli;
use crate::edit::{sum_matches, FileEdit};
use crate::engine::regex_source;
use crate::found::{
    all_matches, all_wf, entries_of, entry_views, lemma_entries_prefix, lemma_offset_grows,
    nothing_found, received, Found, FoundView,
};
use crate::input_field::{lemma_wf, FieldView, InputField};
use crate::keys::{edits_text, handle_input_key, typed, Key, KeyCode};
use crate::outcome::{applied_at_end, edits_at_end, outcome_of, End, Outcome};
use crate::panes::{
    down, fresh_panes, jumped, law_next_file_is_the_next, law_prev_file_is_the_one_before,
    next_file, prev_file, scrolled_down, scrolled_end, scrolled_home, scrolled_up, selecting, up,
    Panes, PanesView,
};
use crate::pattern::{build_regex, invalid_pattern, pattern_text, surely_compiles, PatternError};

verus! {

/// How long the user has to stop typing for a search to start, in milliseconds.
pub const QUIET_MS: u64 = 200;

/// Whether a search is to start.
#[derive(Clone, Copy, Debug, PartialEq, Eq, Structural)]
pub enum Pending {
    /// No search is called for.
    Idle,
    /// A search is to start at once.
    Due,
    /// The text was changed at this time, in milliseconds.
    Since(u64),
}

/// A search is to start now.
pub open spec fn due(pending: Pending, now: u64) -> bool {
    match pending {
        Pending::Idle => false,
        Pending::Due => true,
        Pending::Since(t) => now - t >= QUIET_MS,
    }
}

/// What becomes of the search that may be under way.
pub enum SearchAction {
    /// It goes on.
    Keep,
    /// It is given up.
    Stop,
    /// It is given up, and one for this pattern and this replacement starts.
    Start(Regex, String),
}

/// What a key asks for.
#[derive(Clone, Copy, Debug, PartialEq, Eq, Structural)]
pub enum Action {
    Ignore,
    Leave(End),
    /// Accept the selected match.
    Accept,
    StartEdit,
    LeaveEdit,
    /// Leave the editor, with the texts as they were before.
    Revert,
    SwitchField,
    Type(Key),
    Up,
    Down,
    First,
    Last,
    NextFile,
    PrevFile,
    ScrollDown,
    ScrollUp,
    PageDown,
    PageUp,
    ScrollHome,
    ScrollEnd,
}

/// What a key asks for while pattern and replacement are edited.
pub open spec fn edit_action(key: Key) -> Action {
    match key.code {
        KeyCode::Enter => Action::LeaveEdit,
        KeyCode::Esc => Action::Revert,
        KeyCode::Tab => Action::SwitchField,
        KeyCode::BackTab => Action::SwitchField,
        KeyCode::Up => Action::Up,
        KeyCode::Down => Action::Down,
        KeyCode::Char(ch) => if ch == 'q' && !key.ctrl {
            Action::Leave(End::Quit)
        } else if ch == 'c' && key.ctrl {
            Action::Leave(End::Abort)
        } else if ch == 'n' && key.ctrl {
            Action::ScrollDown
        } else if ch == 'p' && key.ctrl {
            Action::ScrollUp
        } else if ch == 'v' && key.ctrl {
            Action::PageDown
        } else if ch == 'v' && key.alt {
            Action::PageUp
        } else {
            Action::Type(key)
        },
        _ => Action::Type(key),
    }
}

/// What a key asks for while matches are accepted.
pub open spec fn replace_action(key: Key) -> Action {
    match key.code {
        KeyCode::Esc => Action::Leave(End::Quit),
        KeyCode::Enter => if key.shift {
            Action::Leave(End::WriteAll)
        } else {
            Action::Accept
        },
        KeyCode::Up => Action::Up,
        KeyCode::Down => Action::Down,
        KeyCode::PageDown => Action::PageDown,
        KeyCode::PageUp => Action::PageUp,
        KeyCode::Char(ch) => if ch == 'q' {
            Action::Leave(End::Quit)
        } else if ch == 'c' && key.ctrl {
            Action::Leave(End::Abort)
        } else if ch == 'e' {
            Action::StartEdit
        } else if ch == '}' && key.alt {
            Action::NextFile
        } else if ch == '{' && key.alt {
            Action::PrevFile
        } else if ch == 'j' || ch == 'n' && key.ctrl {
            Action::ScrollDown
        } else if ch == 'k' || ch == 'p' && key.ctrl {
            Action::ScrollUp
        } else if ch == ' ' || ch == 'f' || ch == 'v' && key.ctrl {
            Action::PageDown
        } else if ch == 'b' || ch == 'v' && key.alt {
            Action::PageUp
        } else if ch == 'g' {
            Action::ScrollHome
        } else if ch == 'G' {
            Action::ScrollEnd
        } else if ch == '<' && key.alt {
            Action::First
        } else if ch == '>' && key.alt {
            Action::Last
        } else {
            Action::Ignore
        },
        _ => Action::Ignore,
    }
}

/// What a key asks for.
pub open spec fn action_of(in_edit: bool, key: Key) -> Action {
    if in_edit {
        edit_action(key)
    } else {
        replace_action(key)
    }
}

fn edit_key(key: Key) -> (r: Action)
    ensures
        r == edit_action(key),
{
    match key.code {
        KeyCode::Enter => Action::LeaveEdit,
        KeyCode::Esc => Action::Revert,
        KeyCode::Tab => Action::SwitchField,
        KeyCode::BackTab => Action::SwitchField,
        KeyCode::Up => Action::Up,
        KeyCode::Down => Action::Down,
        KeyCode::Char(ch) => if ch == 'q' && !key.ctrl {
            Action::Leave(End::Quit)
        } else if ch == 'c' && key.ctrl {
            Action::Leave(End::Abort)
        } else if ch == 'n' && key.ctrl {
            Action::ScrollDown
        } else if ch == 'p' && key.ctrl {
            Action::ScrollUp
        } else if ch == 'v' && key.ctrl {
            Action::PageDown
        } else if ch == 'v' && key.alt {
            Action::PageUp
        } else {
            Action::Type(key)
        },
        _ => Action::Type(key),
    }
}

fn replace_key(key: Key) -> (r: Action)
    ensures
        r == replace_action(key),
{
    match key.code {
        KeyCode::Esc => Action::Leave(End::Quit),
        KeyCode::Enter => if key.shift {
            Action::Leave(End::WriteAll)
        } else {
            Action::Accept
        },
        KeyCode::Up => Action::Up,
        KeyCode::Down => Action::Down,
        KeyCode::PageDown => Action::PageDown,
        KeyCode::PageUp => Action::PageUp,
        KeyCode::Char(ch) => replace_char(ch, key),
        _ => Action::Ignore,
    }
}

fn replace_char(ch: char, key: Key) -> (r: Action)
    requires
        key.code == KeyCode::Char(ch),
    ensures
        r == replace_action(key),
{
    if ch == 'q' {
        Action::Leave(End::Quit)
    } else if ch == 'c' && key.ctrl {
        Action::Leave(End::Abort)
    } else if ch == 'e' {
        Action::StartEdit
    } else if ch == '}' && key.alt {
        Action::NextFile
    } else if ch == '{' && key.alt {
        Action::PrevFile
    } else if ch == 'j' || ch == 'n' && key.ctrl {
        Action::ScrollDown
    } else if ch == 'k' || ch == 'p' && key.ctrl {
        Action::ScrollUp
    } else if ch == ' ' || ch == 'f' || ch == 'v' && key.ctrl {
        Action::PageDown
    } else if ch == 'b' || ch == 'v' && key.alt {
        Action::PageUp
    } else if ch == 'g' {
        Action::ScrollHome
    } else if ch == 'G' {
        Action::ScrollEnd
    } else if ch == '<' && key.alt {
        Action::First
    } else if ch == '>' && key.alt {
        Action::Last
    } else {
        Action::Ignore
    }
}

// The state of a session.

/// A session in the full-screen view.
pub struct Session {
    pub pat: InputField,
    pub rep: InputField,
    /// Which of the two the user types in: 0 or 1.
    pub active_field: usize,
    /// The user edits pattern and replacement; else they accept matches.
    pub in_edit: bool,
    /// The texts as they were when the user began to edit them.
    pub snap_pat: String,
    pub snap_rep: String,
    pub found: Found,
    pub search_done: bool,
    pub pending: Pending,
    pub regex_error: Option<String>,
    pub panes: Panes,
}

/// A session, with its texts.
#[verifier::ext_equal]
pub struct SessionView {
    pub pat: FieldView,
    pub rep: FieldView,
    pub active_field: int,
    pub in_edit: bool,
    pub snap_pat: Seq<char>,
    pub snap_rep: Seq<char>,
    pub found: FoundView,
    pub search_done: bool,
    pub pending: Pending,
    pub error: Option<Seq<char>>,
    pub panes: PanesView,
}

impl View for Session {
    type V = SessionView;

    open spec fn view(&self) -> SessionView {
        SessionView {
            pat: self.pat@,
            rep: self.rep@,
            active_field: self.active_field as int,
            in_edit: self.in_edit,
            snap_pat: self.snap_pat@,
            snap_rep: self.snap_rep@,
            found: self.found@,
            search_done: self.search_done,
            pending: self.pending,
            error: match self.regex_error {
                Some(e) => Some(e@),
                None => None,
            },
            panes: self.panes@,
        }
    }
}

/// Text without regard to the place in it.
pub open spec fn text_of(f: FieldView) -> Seq<char> {
    f.before + f.after
}

/// Text with the place at its end.
pub open spec fn at_text_end(text: Seq<char>) -> FieldView {
    FieldView { before: text, after: seq![] }
}

/// A session at its start.
pub open spec fn started(
    pat: Seq<char>,
    rep: Seq<char>,
    in_edit: bool,
    found: FoundView,
    pending: Pending,
) -> SessionView {
    SessionView {
        pat: at_text_end(pat),
        rep: at_text_end(rep),
        active_field: 0,
        in_edit,
        snap_pat: pat,
        snap_rep: rep,
        found,
        search_done: true,
        pending,
        error: None,
        panes: fresh_panes(),
    }
}

/// A session in which what was found before is forgotten.
pub open spec fn forgotten(v: SessionView) -> SessionView {
    SessionView {
        found: nothing_found(),
        pending: Pending::Idle,
        error: None,
        panes: fresh_panes(),
        ..v
    }
}

/// A session after an action other than leaving it.
pub open spec fn performed(v: SessionView, action: Action, bottom_h: int, now: u64) -> SessionView {
    let n = entries_of(v.found.edits).len();
    match action {
        Action::Ignore => v,
        Action::Leave(_) => v,
        Action::Accept => if n > 0 {
            SessionView {
                found: FoundView {
                    applied: v.found.applied.insert(v.panes.selected as usize),
                    ..v.found
                },
                panes: down(v.panes, n),
                ..v
            }
        } else {
            v
        },
        Action::StartEdit => SessionView {
            snap_pat: text_of(v.pat),
            snap_rep: text_of(v.rep),
            in_edit: true,
            ..v
        },
        Action::LeaveEdit => SessionView { in_edit: false, ..v },
        Action::Revert => SessionView {
            pat: at_text_end(v.snap_pat),
            rep: at_text_end(v.snap_rep),
            pending: if text_of(v.pat) != v.snap_pat || text_of(v.rep) != v.snap_rep {
                Pending::Due
            } else {
                v.pending
            },
            in_edit: false,
            ..v
        },
        Action::SwitchField => SessionView { active_field: 1 - v.active_field, ..v },
        Action::Type(key) => SessionView {
            pat: if v.active_field == 0 {
                typed(v.pat, key)
            } else {
                v.pat
            },
            rep: if v.active_field == 0 {
                v.rep
            } else {
                typed(v.rep, key)
            },
            pending: if edits_text(key) {
                Pending::Since(now)
            } else {
                v.pending
            },
            ..v
        },
        Action::Up => SessionView { panes: up(v.panes), ..v },
        Action::Down => SessionView { panes: down(v.panes, n), ..v },
        Action::First => SessionView { panes: selecting(v.panes, 0), ..v },
        Action::Last => if n > 0 {
            SessionView { panes: selecting(v.panes, n - 1), ..v }
        } else {
            v
        },
        Action::NextFile => SessionView {
            panes: jumped(v.panes, n, next_file(v.found.edits, v.panes.selected)),
            ..v
        },
        Action::PrevFile => SessionView {
            panes: jumped(v.panes, n, prev_file(v.found.edits, v.panes.selected)),
            ..v
        },
        Action::ScrollDown => SessionView { panes: scrolled_down(v.panes, 1), ..v },
        Action::ScrollUp => SessionView { panes: scrolled_up(v.panes, 1), ..v },
        Action::PageDown => SessionView { panes: scrolled_down(v.panes, bottom_h), ..v },
        Action::PageUp => SessionView { panes: scrolled_up(v.panes, bottom_h), ..v },
        Action::ScrollHome => SessionView { panes: scrolled_home(v.panes), ..v },
        Action::ScrollEnd => SessionView { panes: scrolled_end(v.panes, bottom_h), ..v },
    }
}

/// How the user leaves, if they do.
pub open spec fn end_of_action(action: Action) -> Option<End> {
    match action {
        Action::Leave(end) => Some(end),
        _ => None,
    }
}

impl Session {
    /// The places in the texts lie between characters, the list names exactly the matches in
    /// changed lines, and one of them is selected, if there are any.
    pub open spec fn wf(&self) -> bool {
        &&& self.pat.wf()
        &&& self.rep.wf()
        &&& self.active_field <= 1
        &&& self.found.wf()
        &&& self.panes.wf(entries_of(self.found@.edits).len())
    }

    /// Starts a session. Where results are at hand, they are shown; else a pattern, if there is
    /// one, is searched for at once.
    pub fn new(
        init_pat: &str,
        init_rep: &str,
        start_in_edit: bool,
        preloaded: Option<Vec<FileEdit>>,
        initial_noop: usize,
    ) -> (r: Session)
        requires
            preloaded matches Some(edits) ==> all_wf(edits@) && all_matches(edits@) <= usize::MAX,
        ensures
            r.wf(),
            r@ == started(
                init_pat@,
                init_rep@,
                start_in_edit,
                FoundView {
                    edits: match preloaded {
                        Some(edits) => edits@,
                        None => seq![],
                    },
                    noops: initial_noop as int,
                    applied: Set::empty(),
                },
                if preloaded is None && init_pat@.len() > 0 {
                    Pending::Due
                } else {
                    Pending::Idle
                },
            ),
    {
        let pending = if init_pat.is_empty() || preloaded.is_some() {
            Pending::Idle
        } else {
            Pending::Due
        };
        let found = match preloaded {
            Some(edits) => Found::preloaded(edits, initial_noop),
            None => Found::preloaded(Vec::new(), initial_noop),
        };
        Session {
            pat: InputField::new(init_pat),
            rep: InputField::new(init_rep),
            active_field: 0,
            in_edit: start_in_edit,
            snap_pat: init_pat.to_owned(),
            snap_rep: init_rep.to_owned(),
            found,
            search_done: true,
            pending,
            regex_error: None,
            panes: Panes::new(),
        }
    }

    /// Takes in one more file of the search that is under way.
    pub fn receive(&mut self, edit: FileEdit)
        requires
            old(self).wf(),
            edit.wf(),
            old(self).found.total_matches + sum_matches(edit.change_views()) <= usize::MAX,
            old(self).found.noop_total + edit.noop_count <= usize::MAX,
        ensures
            final(self).wf(),
            final(self)@ == (SessionView {
                found: received(old(self)@.found, edit),
                ..old(self)@
            }),
    {
        self.found.receive(edit);
        proof {
            let before = old(self).found@.edits;
            lemma_entries_prefix(before, seq![edit], before.len());
            assert(before.push(edit) == before + seq![edit]);
            lemma_offset_grows(
                before.push(edit),
                before.len() as int,
                before.len() as int + 1,
            );
        }
    }

    /// The search that was under way is over.
    pub fn search_finished(&mut self)
        requires
            old(self).wf(),
        ensures
            final(self).wf(),
            final(self)@ == (SessionView { search_done: true, ..old(self)@ }),
    {
        self.search_done = true;
    }

    fn forget(&mut self)
        requires
            old(self).wf(),
        ensures
            final(self).wf(),
            final(self)@ == forgotten(old(self)@),
    {
        self.pending = Pending::Idle;
        self.found = Found::new();
        self.panes = Panes::new();
        self.regex_error = None;
    }

    /// Goes on from a compiled pattern to a search with the replacement as it stands, or from an
    /// error to a message.
    pub fn begin_search(&mut self, outcome: Result<Regex, PatternError>) -> (r: SearchAction)
        requires
            old(self).wf(),
        ensures
            final(self).wf(),
            match outcome {
                Ok(re) => {
                    &&& r matches SearchAction::Start(wanted, replacement) && wanted == re
                        && replacement@ == text_of(old(self)@.rep)
                    &&& final(self)@ == (SessionView { search_done: false, ..old(self)@ })
                },
                Err(e) => r == SearchAction::Stop && final(self)@ == (SessionView {
                    search_done: true,
                    error: Some(invalid_pattern(e.pattern@)),
                    ..old(self)@
                }),
            },
    {
        match outcome {
            Ok(re) => {
                self.search_done = false;
                proof {
                    lemma_wf(self.rep);
                }
                SearchAction::Start(re, self.rep.text.clone())
            },
            Err(e) => {
                self.regex_error = Some(e.message());
                self.search_done = true;
                SearchAction::Stop
            },
        }
    }

    /// Starts a search where one is due. The search is for the pattern as it stands, under the
    /// flags of the run, and with the replacement as it stands.
    pub fn tick(&mut self, cli: &Cli, now: u64) -> (r: SearchAction)
        requires
            old(self).wf(),
        ensures
            final(self).wf(),
            !due(old(self)@.pending, now) ==> r is Keep && final(self)@ == old(self)@,
            due(old(self)@.pending, now) && text_of(old(self)@.pat).len() > 0 && surely_compiles(
                *cli,
                text_of(old(self)@.pat),
            ) ==> r is Start,
            due(old(self)@.pending, now) ==> match r {
                SearchAction::Keep => false,
                SearchAction::Stop => final(self)@ == (SessionView {
                    search_done: true,
                    error: if text_of(old(self)@.pat).len() > 0 {
                        Some(invalid_pattern(text_of(old(self)@.pat)))
                    } else {
                        None
                    },
                    ..forgotten(old(self)@)
                }),
                SearchAction::Start(re, replacement) => {
                    &&& text_of(old(self)@.pat).len() > 0
                    &&& replacement@ == text_of(old(self)@.rep)
                    &&& regex_source(re) == (
                        pattern_text(text_of(old(self)@.pat), cli.fixed_strings, cli.word),
                        cli.ignore_case,
                    )
                    &&& final(self)@ == (SessionView {
                        search_done: false,
                        ..forgotten(old(self)@)
                    })
                },
            },
    {
        let start = match self.pending {
            Pending::Idle => false,
            Pending::Due => true,
            Pending::Since(t) => now >= t && now - t >= QUIET_MS,
        };
        if !start {
            return SearchAction::Keep;
        }
        self.forget();
        proof {
            lemma_wf(self.pat);
        }
        if self.pat.text.as_str().is_empty() {
            self.search_done = true;
            SearchAction::Stop
        } else {
            let outcome = build_regex(cli, self.pat.text.as_str());
            self.begin_search(outcome)
        }
    }

    fn perform(&mut self, action: Action, bottom_h: usize, now: u64)
        requires
            old(self).wf(),
        ensures
            final(self).wf(),
            final(self)@ == performed(old(self)@, action, bottom_h as int, now),
    {
        let n = self.found.match_list.len();
        proof {
            assert(entry_views(self.found.match_list@).len() == n);
        }
        match action {
            Action::Ignore => {},
            Action::Leave(_) => {},
            Action::Accept => {
                if n > 0 {
                    self.found.accept(self.panes.selected);
                    self.panes.move_down(n);
                }
            },
            Action::StartEdit => {
                self.snap_pat = self.pat.text.clone();
                self.snap_rep = self.rep.text.clone();
                self.in_edit = true;
                proof {
                    lemma_wf(self.pat);
                    lemma_wf(self.rep);
                }
            },
            Action::LeaveEdit => {
                self.in_edit = false;
            },
            Action::Revert => {
                self.revert();
            },
            Action::SwitchField => {
                self.active_field = 1 - self.active_field;
            },
            Action::Type(key) => {
                self.type_key(key, now);
            },
            Action::Up => {
                self.panes.move_up();
            },
            Action::Down => {
                self.panes.move_down(n);
            },
            Action::First => {
                self.panes.move_first();
            },
            Action::Last => {
                self.panes.move_last(n);
            },
            Action::NextFile => {
                self.panes.jump_next(&self.found);
                proof {
                    if old(self).panes.selected < n {
                        law_next_file_is_the_next(
                            self.found@.edits,
                            old(self).panes.selected as int,
                        );
                    }
                }
            },
            Action::PrevFile => {
                self.panes.jump_prev(&self.found);
                proof {
                    if old(self).panes.selected < n {
                        law_prev_file_is_the_one_before(
                            self.found@.edits,
                            old(self).panes.selected as int,
                        );
                    }
                }
            },
            Action::ScrollDown => {
                self.panes.scroll_down(1);
            },
            Action::ScrollUp => {
                self.panes.scroll_up(1);
            },
            Action::PageDown => {
                self.panes.scroll_down(bottom_h);
            },
            Action::PageUp => {
                self.panes.scroll_up(bottom_h);
            },
            Action::ScrollHome => {
                self.panes.scroll_home();
            },
            Action::ScrollEnd => {
                self.panes.scroll_end(bottom_h);
            },
        }
    }

    fn revert(&mut self)
        requires
            old(self).wf(),
        ensures
            final(self).wf(),
            final(self)@ == performed(old(self)@, Action::Revert, 0, 0),
    {
        proof {
            lemma_wf(self.pat);
            lemma_wf(self.rep);
        }
        let changed = self.pat.text != self.snap_pat || self.rep.text != self.snap_rep;
        self.pat = InputField::new(self.snap_pat.as_str());
        self.rep = InputField::new(self.snap_rep.as_str());
        if changed {
            self.pending = Pending::Due;
        }
        self.in_edit = false;
    }

    fn type_key(&mut self, key: Key, now: u64)
        requires
            old(self).wf(),
        ensures
            final(self).wf(),
            final(self)@ == performed(old(self)@, Action::Type(key), 0, now),
    {
        let edited = if self.active_field == 0 {
            handle_input_key(&mut self.pat, key)
        } else {
            handle_input_key(&mut self.rep, key)
        };
        if edited {
            self.pending = Pending::Since(now);
        }
    }

    /// Hands a key to the session. `bottom_h` is the height of the lower pane, and `now` the
    /// time in milliseconds. Says how the user leaves, if they do.
    pub fn handle_key(&mut self, key: Key, bottom_h: usize, now: u64) -> (r: Option<End>)
        requires
            old(self).wf(),
        ensures
            final(self).wf(),
            final(self)@ == performed(
                old(self)@,
                action_of(old(self)@.in_edit, key),
                bottom_h as int,
                now,
            ),
            r == end_of_action(action_of(old(self)@.in_edit, key)),
    {
        let action = if self.in_edit {
            edit_key(key)
        } else {
            replace_key(key)
        };
        self.perform(action, bottom_h, now);
        match action {
            Action::Leave(end) => Some(end),
            _ => None,
        }
    }

    /// Ends the session. `rest` holds the files of a search that was still under way.
    pub fn finish(&mut self, end: End, rest: Vec<FileEdit>) -> (r: Outcome)
        requires
            old(self).wf(),
            all_wf(rest@),
        ensures
            final(self)@.found.edits == edits_at_end(old(self)@.found.edits, end, rest@),
            r@ == outcome_of(
                end,
                final(self)@.found.edits,
                applied_at_end(final(self)@.found.edits, old(self)@.found.applied, end),
            ),
    {
        self.found.finish(end, rest)
    }
}

} // verus!
