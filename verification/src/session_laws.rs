//! What holds of a session whatever keys are pressed.
use vstd::prelude::*;

use crate::edit::FileEdit;
use crate::found::{
    accepts, entries_of, law_entries_are_the_matches, nothing_found, offset, received, FoundView,
};
use crate::keys::{edits_text, typed, Key, KeyCode};
use crate::outcome::End;
use crate::panes::{
    fresh_panes, law_next_file_is_the_next, law_prev_file_is_the_one_before, min, prev_file,
};
use crate::session::{
    action_of, due, edit_action, end_of_action, forgotten, performed, started, text_of, Action,
    Pending, SessionView, QUIET_MS,
};

verus! {

/// No key changes what was found. Nothing but accepting the selected match adds to what is
/// accepted, and nothing takes from it.
pub proof fn law_only_enter_accepts(v: SessionView, key: Key, bottom_h: int, now: u64)
    ensures
        ({
            let after = performed(v, action_of(v.in_edit, key), bottom_h, now);
            let enter = !v.in_edit && key.code == KeyCode::Enter && !key.shift;
            &&& after.found.edits == v.found.edits
            &&& after.found.noops == v.found.noops
            &&& after.found.applied == if enter && entries_of(v.found.edits).len() > 0 {
                v.found.applied.insert(v.panes.selected as usize)
            } else {
                v.found.applied
            }
        }),
{
}

/// Enter accepts the selected match and goes on to the next one; at the last match it stays.
pub proof fn law_enter_accepts_and_advances(v: SessionView, key: Key, bottom_h: int, now: u64)
    requires
        !v.in_edit,
        key.code == KeyCode::Enter,
        !key.shift,
        0 <= v.panes.selected < entries_of(v.found.edits).len() <= usize::MAX,
    ensures
        ({
            let after = performed(v, action_of(v.in_edit, key), bottom_h, now);
            &&& accepts(after.found.applied, v.panes.selected)
            &&& after.panes.selected == min(
                v.panes.selected + 1,
                entries_of(v.found.edits).len() - 1,
            )
            &&& forall|i: int|
                i != v.panes.selected ==> (#[trigger] accepts(after.found.applied, i) <==> accepts(
                    v.found.applied,
                    i,
                ))
        }),
{
}

/// Ctrl+C leaves without writing, whatever the user is about.
pub proof fn law_ctrl_c_aborts(in_edit: bool, key: Key)
    requires
        key.code == KeyCode::Char('c'),
        key.ctrl,
    ensures
        action_of(in_edit, key) == Action::Leave(End::Abort),
{
}

/// Everything is written only if the user presses Enter with Shift while accepting matches.
pub proof fn law_only_shift_enter_writes_all(in_edit: bool, key: Key)
    ensures
        action_of(in_edit, key) == Action::Leave(End::WriteAll) <==> !in_edit && key.code
            == KeyCode::Enter && key.shift,
{
}

/// A session after a row of keys.
pub open spec fn pressed(v: SessionView, keys: Seq<Key>, bottom_h: int, now: u64) -> SessionView
    decreases keys.len(),
{
    if keys.len() == 0 {
        v
    } else {
        let before = pressed(v, keys.drop_last(), bottom_h, now);
        performed(before, action_of(before.in_edit, keys.last()), bottom_h, now)
    }
}

/// A key that does not end the editing of pattern and replacement.
pub open spec fn stays_in_editor(key: Key) -> bool {
    match edit_action(key) {
        Action::LeaveEdit => false,
        Action::Revert => false,
        Action::Leave(_) => false,
        _ => true,
    }
}

proof fn lemma_editor_keeps_snapshot(v: SessionView, keys: Seq<Key>, bottom_h: int, now: u64)
    requires
        v.in_edit,
        forall|i: int| 0 <= i < keys.len() ==> stays_in_editor(#[trigger] keys[i]),
    ensures
        ({
            let after = pressed(v, keys, bottom_h, now);
            after.in_edit && after.snap_pat == v.snap_pat && after.snap_rep == v.snap_rep
                && after.found == v.found
        }),
    decreases keys.len(),
{
    if keys.len() > 0 {
        let rest = keys.drop_last();
        assert forall|i: int| 0 <= i < rest.len() implies stays_in_editor(#[trigger] rest[i]) by {
            assert(stays_in_editor(keys[i]));
        }
        lemma_editor_keeps_snapshot(v, rest, bottom_h, now);
        assert(stays_in_editor(keys[keys.len() - 1]));
    }
}

/// Escape takes back an edit: whatever was typed since the user began to edit, pattern and
/// replacement are what they were, and they are searched for anew if they were not.
pub proof fn law_escape_takes_back_an_edit(
    v: SessionView,
    keys: Seq<Key>,
    escape: Key,
    bottom_h: int,
    now: u64,
)
    requires
        !v.in_edit,
        escape.code == KeyCode::Esc,
        forall|i: int| 0 <= i < keys.len() ==> stays_in_editor(#[trigger] keys[i]),
    ensures
        ({
            let editing = performed(v, Action::StartEdit, bottom_h, now);
            let edited = pressed(editing, keys, bottom_h, now);
            let after = performed(edited, action_of(edited.in_edit, escape), bottom_h, now);
            &&& !after.in_edit
            &&& text_of(after.pat) == text_of(v.pat)
            &&& text_of(after.rep) == text_of(v.rep)
            &&& after.found == v.found
            &&& text_of(edited.pat) != text_of(v.pat) || text_of(edited.rep) != text_of(v.rep)
                ==> after.pending == Pending::Due
        }),
{
    let editing = performed(v, Action::StartEdit, bottom_h, now);
    lemma_editor_keeps_snapshot(editing, keys, bottom_h, now);
    let edited = pressed(editing, keys, bottom_h, now);
    let after = performed(edited, action_of(edited.in_edit, escape), bottom_h, now);
    assert(text_of(after.pat) == text_of(v.pat));
    assert(text_of(after.rep) == text_of(v.rep));
}

/// A search starts when the user has stopped typing for a while, and no earlier.
pub proof fn law_search_waits_for_a_pause(
    v: SessionView,
    key: Key,
    bottom_h: int,
    typed_at: u64,
    now: u64,
)
    requires
        v.in_edit,
        edit_action(key) == Action::Type(key),
        edits_text(key),
    ensures
        due(performed(v, action_of(v.in_edit, key), bottom_h, typed_at).pending, now) <==> now
            >= typed_at + QUIET_MS,
{
}

/// The user comes back to a field by switching twice.
pub proof fn law_switching_twice_changes_nothing(v: SessionView, bottom_h: int, now: u64)
    ensures
        performed(
            performed(v, Action::SwitchField, bottom_h, now),
            Action::SwitchField,
            bottom_h,
            now,
        ) == v,
{
}

/// A new search takes back everything that was accepted of the old one.
pub proof fn law_new_search_starts_afresh(v: SessionView, now: u64)
    ensures
        forgotten(v).found.applied == Set::<usize>::empty(),
        forgotten(v).found.edits.len() == 0,
        forgotten(v).panes == fresh_panes(),
        !due(forgotten(v).pending, now),
{
}

// The keys, one by one.

/// What a session is after a key.
pub open spec fn after_key(v: SessionView, key: Key, bottom_h: int, now: u64) -> SessionView {
    performed(v, action_of(v.in_edit, key), bottom_h, now)
}

/// How the user leaves with a key, if they do.
pub open spec fn end_by(v: SessionView, key: Key) -> Option<End> {
    end_of_action(action_of(v.in_edit, key))
}

/// A character with Ctrl held down, while matches are accepted or texts are edited.
pub open spec fn ctrl_key(key: Key, ch: char) -> bool {
    key.code == KeyCode::Char(ch) && key.ctrl
}

/// A character with Alt held down and without Ctrl.
pub open spec fn alt_key(key: Key, ch: char) -> bool {
    key.code == KeyCode::Char(ch) && key.alt && !key.ctrl
}

/// Nothing but the selection is another one, and where it is, the lower pane is made anew.
pub open spec fn only_selection_moved(v: SessionView, after: SessionView) -> bool {
    &&& after.panes.top_scroll == v.panes.top_scroll
    &&& after.panes.rows == v.panes.rows
    &&& after.panes.bottom_scroll == v.panes.bottom_scroll
    &&& after.panes.selected != v.panes.selected ==> after.panes.shown is None
    &&& after == (SessionView { panes: after.panes, ..v })
}

/// Nothing but the scrolling of the lower pane is another one.
pub open spec fn only_scrolled(v: SessionView, after: SessionView) -> bool {
    &&& after.panes.selected == v.panes.selected
    &&& after.panes.top_scroll == v.panes.top_scroll
    &&& after.panes.rows == v.panes.rows
    &&& after.panes.shown == v.panes.shown
    &&& after == (SessionView { panes: after.panes, ..v })
}

/// The arrow keys go to the match above and to the match below, whether or not the user is
/// editing; at an end of the list the selection stays.
pub proof fn law_arrows_move_the_selection(v: SessionView, key: Key, bottom_h: int, now: u64)
    ensures
        key.code == KeyCode::Up ==> {
            let after = after_key(v, key, bottom_h, now);
            &&& v.panes.selected > 0 ==> after.panes.selected == v.panes.selected - 1
            &&& v.panes.selected <= 0 ==> after.panes.selected == v.panes.selected
            &&& only_selection_moved(v, after)
            &&& end_by(v, key) is None
        },
        key.code == KeyCode::Down ==> {
            let after = after_key(v, key, bottom_h, now);
            let n = entries_of(v.found.edits).len();
            &&& v.panes.selected + 1 < n ==> after.panes.selected == v.panes.selected + 1
            &&& v.panes.selected + 1 >= n ==> after.panes.selected == v.panes.selected
            &&& only_selection_moved(v, after)
            &&& end_by(v, key) is None
        },
{
}

/// Alt+< goes to the first match and Alt+> to the last.
pub proof fn law_angle_keys_go_to_the_ends(v: SessionView, key: Key, bottom_h: int, now: u64)
    requires
        !v.in_edit,
        key.alt,
    ensures
        key.code == KeyCode::Char('<') ==> {
            let after = after_key(v, key, bottom_h, now);
            after.panes.selected == 0 && only_selection_moved(v, after) && end_by(v, key) is None
        },
        key.code == KeyCode::Char('>') ==> {
            let after = after_key(v, key, bottom_h, now);
            let n = entries_of(v.found.edits).len();
            &&& n > 0 ==> after.panes.selected == n - 1
            &&& n == 0 ==> after == v
            &&& only_selection_moved(v, after)
            &&& end_by(v, key) is None
        },
{
}

/// Alt+} goes to the next match that is in another file, where there is one, and else stays.
pub proof fn law_closing_brace_goes_to_the_next_file(
    v: SessionView,
    key: Key,
    bottom_h: int,
    now: u64,
)
    requires
        !v.in_edit,
        key.code == KeyCode::Char('}'),
        key.alt,
        0 <= v.panes.selected < entries_of(v.found.edits).len(),
    ensures
        ({
            let entries = entries_of(v.found.edits);
            let after = after_key(v, key, bottom_h, now);
            let from = v.panes.selected;
            let to = after.panes.selected;
            &&& only_selection_moved(v, after)
            &&& end_by(v, key) is None
            &&& from <= to < entries.len()
            &&& forall|j: int|
                from <= j < to ==> (#[trigger] entries[j]).0 == entries[from].0
            &&& to > from ==> entries[to].0 != entries[from].0
            &&& to == from ==> forall|j: int|
                from <= j < entries.len() ==> (#[trigger] entries[j]).0 == entries[from].0
        }),
{
    law_next_file_is_the_next(v.found.edits, v.panes.selected);
}

/// Alt+{ goes to the first match of the nearest file before this one that has matches, where
/// there is such a file, and else stays.
pub proof fn law_opening_brace_goes_to_the_file_before(
    v: SessionView,
    key: Key,
    bottom_h: int,
    now: u64,
)
    requires
        !v.in_edit,
        key.code == KeyCode::Char('{'),
        key.alt,
        0 <= v.panes.selected < entries_of(v.found.edits).len(),
    ensures
        ({
            let entries = entries_of(v.found.edits);
            let after = after_key(v, key, bottom_h, now);
            let from = v.panes.selected;
            let to = after.panes.selected;
            &&& only_selection_moved(v, after)
            &&& end_by(v, key) is None
            &&& 0 <= to <= from
            &&& to < from ==> {
                &&& entries[to].0 != entries[from].0
                &&& to > 0 ==> entries[to - 1].0 != entries[to].0
                &&& forall|j: int|
                    to <= j <= from ==> (#[trigger] entries[j]).0 == entries[to].0 || entries[j].0
                        == entries[from].0
            }
            &&& to == from ==> forall|j: int|
                0 <= j <= from ==> (#[trigger] entries[j]).0 == entries[from].0
        }),
{
    let edits = v.found.edits;
    law_prev_file_is_the_one_before(edits, v.panes.selected);
    match prev_file(edits, v.panes.selected) {
        Some(to) => {
            law_entries_are_the_matches(edits, 0, 0, to);
            if to > 0 {
                law_entries_are_the_matches(edits, 0, 0, to - 1);
                let (x, y, z) = entries_of(edits)[to - 1];
                let (p, q, r) = entries_of(edits)[to];
                if x == p {
                    assert(to - 1 == offset(edits, x) + z);
                    assert(to == offset(edits, p) + r);
                }
            }
        },
        None => {},
    }
}

/// The keys that scroll the lower pane by a row or by a page, to its start or to its end, do
/// just that. It never goes above the first row.
pub proof fn law_scroll_keys_scroll_the_lower_pane(
    v: SessionView,
    key: Key,
    bottom_h: int,
    now: u64,
)
    requires
        0 <= v.panes.bottom_scroll <= usize::MAX,
        0 <= bottom_h <= usize::MAX,
    ensures
        ({
            let at = v.panes.bottom_scroll;
            let after = after_key(v, key, bottom_h, now);
            let to = after.panes.bottom_scroll;
            let row_down = ctrl_key(key, 'n') || !v.in_edit && key.code == KeyCode::Char('j');
            let row_up = ctrl_key(key, 'p') || !v.in_edit && key.code == KeyCode::Char('k');
            let page_down = ctrl_key(key, 'v') || !v.in_edit && (key.code == KeyCode::PageDown
                || key.code == KeyCode::Char(' ') || key.code == KeyCode::Char('f'));
            let page_up = alt_key(key, 'v') || !v.in_edit && (key.code == KeyCode::PageUp
                || key.code == KeyCode::Char('b'));
            let home = !v.in_edit && key.code == KeyCode::Char('g');
            let end = !v.in_edit && key.code == KeyCode::Char('G');
            &&& row_down || row_up || page_down || page_up || home || end ==> only_scrolled(
                v,
                after,
            ) && end_by(v, key) is None
            &&& row_down ==> to == at + 1 || at == usize::MAX && to == at
            &&& row_up ==> to == at - 1 || at == 0 && to == 0
            &&& page_down ==> to == at + bottom_h || at + bottom_h > usize::MAX && to
                == usize::MAX
            &&& page_up ==> to == at - bottom_h || at < bottom_h && to == 0
            &&& home ==> to == 0
            &&& end ==> to == v.panes.rows.len() - bottom_h || v.panes.rows.len() < bottom_h && to
                == 0
        }),
{
}

/// The user leaves with `q` or, unless they are editing, Escape, and keeps what was accepted;
/// with Ctrl+C they leave without it, with Shift+Enter with everything, and with no other key.
pub proof fn law_keys_that_leave(v: SessionView, key: Key)
    ensures
        end_by(v, key) == Some(End::Quit) <==> (if v.in_edit {
            key.code == KeyCode::Char('q') && !key.ctrl
        } else {
            key.code == KeyCode::Char('q') || key.code == KeyCode::Esc
        }),
        end_by(v, key) == Some(End::Abort) <==> ctrl_key(key, 'c'),
        end_by(v, key) == Some(End::WriteAll) <==> !v.in_edit && key.code == KeyCode::Enter
            && key.shift,
{
}

/// A key with which the user leaves changes nothing.
pub proof fn law_leaving_changes_nothing(v: SessionView, key: Key, bottom_h: int, now: u64)
    requires
        end_by(v, key) is Some,
    ensures
        after_key(v, key, bottom_h, now) == v,
{
}

/// `e` lets the user edit pattern and replacement, remembers both as they are, and changes nothing
/// else.
pub proof fn law_e_begins_to_edit(v: SessionView, key: Key, bottom_h: int, now: u64)
    requires
        !v.in_edit,
        key.code == KeyCode::Char('e'),
    ensures
        ({
            let after = after_key(v, key, bottom_h, now);
            &&& after.in_edit
            &&& after.snap_pat == v.pat.before + v.pat.after
            &&& after.snap_rep == v.rep.before + v.rep.after
            &&& after == (SessionView {
                in_edit: true,
                snap_pat: after.snap_pat,
                snap_rep: after.snap_rep,
                ..v
            })
            &&& end_by(v, key) is None
        }),
{
}

/// Enter ends the editing and keeps what was typed.
pub proof fn law_enter_ends_the_editing(v: SessionView, key: Key, bottom_h: int, now: u64)
    requires
        v.in_edit,
        key.code == KeyCode::Enter,
    ensures
        after_key(v, key, bottom_h, now) == (SessionView { in_edit: false, ..v }),
        end_by(v, key) is None,
{
}

/// Escape ends the editing with the remembered texts, the place at the end of each, and calls
/// for a search where one of them was another.
pub proof fn law_escape_restores_the_texts(v: SessionView, key: Key, bottom_h: int, now: u64)
    requires
        v.in_edit,
        key.code == KeyCode::Esc,
    ensures
        ({
            let after = after_key(v, key, bottom_h, now);
            let changed = v.pat.before + v.pat.after != v.snap_pat || v.rep.before + v.rep.after
                != v.snap_rep;
            &&& after.pat.before == v.snap_pat && after.pat.after.len() == 0
            &&& after.rep.before == v.snap_rep && after.rep.after.len() == 0
            &&& after.pending == if changed {
                Pending::Due
            } else {
                v.pending
            }
            &&& !after.in_edit
            &&& after == (SessionView {
                pat: after.pat,
                rep: after.rep,
                pending: after.pending,
                in_edit: false,
                ..v
            })
            &&& end_by(v, key) is None
        }),
{
}

/// Tab goes from the one text to the other, and nothing else.
pub proof fn law_tab_switches_the_field(v: SessionView, key: Key, bottom_h: int, now: u64)
    requires
        v.in_edit,
        key.code == KeyCode::Tab || key.code == KeyCode::BackTab,
        v.active_field == 0 || v.active_field == 1,
    ensures
        ({
            let after = after_key(v, key, bottom_h, now);
            &&& after.active_field != v.active_field
            &&& after.active_field == 0 || after.active_field == 1
            &&& after == (SessionView { active_field: after.active_field, ..v })
            &&& end_by(v, key) is None
        }),
{
}

/// Every other key goes to the text that the user is in: the pattern or the replacement. Where it
/// is one that edits, the time counts anew until a search starts.
pub proof fn law_other_keys_go_to_the_field(v: SessionView, key: Key, bottom_h: int, now: u64)
    requires
        v.in_edit,
        match key.code {
            KeyCode::Char(ch) => {
                &&& ch == 'q' ==> key.ctrl
                &&& ch == 'c' || ch == 'n' || ch == 'p' ==> !key.ctrl
                &&& ch == 'v' ==> !key.ctrl && !key.alt
            },
            KeyCode::Enter => false,
            KeyCode::Esc => false,
            KeyCode::Tab => false,
            KeyCode::BackTab => false,
            KeyCode::Up => false,
            KeyCode::Down => false,
            _ => true,
        },
    ensures
        ({
            let after = after_key(v, key, bottom_h, now);
            &&& v.active_field == 0 ==> after.pat == typed(v.pat, key) && after.rep == v.rep
            &&& v.active_field != 0 ==> after.rep == typed(v.rep, key) && after.pat == v.pat
            &&& edits_text(key) ==> after.pending == Pending::Since(now)
            &&& !edits_text(key) ==> after.pending == v.pending
            &&& after == (SessionView {
                pat: after.pat,
                rep: after.rep,
                pending: after.pending,
                ..v
            })
            &&& end_by(v, key) is None
        }),
{
}

/// While matches are accepted, a key that has no meaning does nothing.
pub proof fn law_keys_without_meaning_do_nothing(
    v: SessionView,
    key: Key,
    bottom_h: int,
    now: u64,
)
    requires
        !v.in_edit,
        match key.code {
            KeyCode::Char(ch) => {
                &&& ch != 'q' && ch != 'e' && ch != 'j' && ch != 'k' && ch != ' ' && ch != 'f'
                    && ch != 'b' && ch != 'g' && ch != 'G'
                &&& ch == 'c' || ch == 'n' || ch == 'p' ==> !key.ctrl
                &&& ch == 'v' ==> !key.ctrl && !key.alt
                &&& ch == '}' || ch == '{' || ch == '<' || ch == '>' ==> !key.alt
            },
            KeyCode::Enter => false,
            KeyCode::Esc => false,
            KeyCode::Up => false,
            KeyCode::Down => false,
            KeyCode::PageUp => false,
            KeyCode::PageDown => false,
            _ => true,
        },
    ensures
        after_key(v, key, bottom_h, now) == v,
        end_by(v, key) is None,
{
}

/// Enter in an empty list does nothing, and where a match is accepted, nothing changes but the
/// selection and what is accepted.
pub proof fn law_enter_changes_nothing_else(v: SessionView, key: Key, bottom_h: int, now: u64)
    requires
        !v.in_edit,
        key.code == KeyCode::Enter,
        !key.shift,
    ensures
        ({
            let after = after_key(v, key, bottom_h, now);
            &&& entries_of(v.found.edits).len() == 0 ==> after == v
            &&& only_selection_moved((SessionView { found: after.found, ..v }), after)
            &&& end_by(v, key) is None
        }),
{
}

// The course of a session.

/// A session starts with the texts that it is given, the place at the end of each, in the pattern,
/// and with nothing selected but the first match.
pub proof fn law_session_starts_with_its_texts(
    pat: Seq<char>,
    rep: Seq<char>,
    in_edit: bool,
    found: FoundView,
    pending: Pending,
)
    ensures
        ({
            let v = started(pat, rep, in_edit, found, pending);
            &&& v.pat.before == pat && v.pat.after.len() == 0
            &&& v.rep.before == rep && v.rep.after.len() == 0
            &&& v.active_field == 0
            &&& v.in_edit == in_edit
            &&& v.snap_pat == pat && v.snap_rep == rep
            &&& v.found == found
            &&& v.search_done
            &&& v.pending == pending
            &&& v.error is None
            &&& v.panes.selected == 0 && v.panes.top_scroll == 0 && v.panes.bottom_scroll == 0
            &&& v.panes.shown is None && v.panes.rows.len() == 0
        }),
{
}

/// A search starts at once where it is due, 200 milliseconds after the last change to the text
/// where the user types, and not at all where nothing calls for it.
pub proof fn law_search_is_due_after_the_pause(at: u64, now: u64)
    ensures
        due(Pending::Due, now),
        !due(Pending::Idle, now),
        due(Pending::Since(at), now) <==> now >= at + 200,
{
}

/// A new search forgets what was found, what was accepted and what was wrong, and goes back to the
/// first match; pattern, replacement and what the user is about stay.
pub proof fn law_new_search_keeps_the_texts(v: SessionView)
    ensures
        ({
            let w = forgotten(v);
            &&& w.pat == v.pat && w.rep == v.rep
            &&& w.active_field == v.active_field
            &&& w.in_edit == v.in_edit
            &&& w.snap_pat == v.snap_pat && w.snap_rep == v.snap_rep
            &&& w.search_done == v.search_done
            &&& w.found.edits.len() == 0 && w.found.noops == 0
            &&& w.found.applied == Set::<usize>::empty()
            &&& w.pending == Pending::Idle
            &&& w.error is None
            &&& w.panes.selected == 0 && w.panes.top_scroll == 0 && w.panes.bottom_scroll == 0
            &&& w.panes.shown is None && w.panes.rows.len() == 0
        }),
{
}

/// A file that comes in goes to the end of the list where it has changes, and its matches that
/// change nothing are counted in any case; what was accepted stays accepted.
pub proof fn law_files_that_come_in_are_added(f: FoundView, edit: FileEdit)
    ensures
        ({
            let g = received(f, edit);
            &&& edit.changes@.len() > 0 ==> g.edits == f.edits.push(edit)
            &&& edit.changes@.len() == 0 ==> g.edits == f.edits
            &&& g.noops == f.noops + edit.noop_count
            &&& g.applied == f.applied
        }),
{
}

/// Nothing found is no file, no count and nothing accepted.
pub proof fn law_nothing_found_is_empty()
    ensures
        nothing_found().edits.len() == 0,
        nothing_found().noops == 0,
        nothing_found().applied == Set::<usize>::empty(),
{
}

/// In an empty list, the keys that go from match to match do nothing.
pub proof fn law_empty_list_has_nowhere_to_go(v: SessionView, key: Key, bottom_h: int, now: u64)
    requires
        !v.in_edit,
        entries_of(v.found.edits).len() == 0,
        v.panes.selected == 0,
        key.alt,
        key.code == KeyCode::Char('}') || key.code == KeyCode::Char('{') || key.code
            == KeyCode::Char('>'),
    ensures
        after_key(v, key, bottom_h, now) == v,
        end_by(v, key) is None,
{
}

} // verus!
