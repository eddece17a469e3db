//! Keys, and what they do to a line of input and at a prompt.
use vstd::prelude::*;

use crate::input_field::{
    at_end, at_start, backspaced, deleted, inserted, is_space, law_moves_keep_the_text,
    law_trimmed_takes_one_run, moved_left, moved_right, trimmed, word_killed, FieldView, InputField,
};

verus! {

/// Which key.
#[derive(Clone, Copy, Debug, PartialEq, Eq, Structural)]
pub enum KeyCode {
    Char(char),
    Enter,
    Esc,
    Tab,
    BackTab,
    Up,
    Down,
    Left,
    Right,
    Home,
    End,
    PageUp,
    PageDown,
    Backspace,
    Delete,
    /// Any other key, or something else that happened at the terminal.
    Other,
}

/// A key, with the modifiers held down.
#[derive(Clone, Copy, Debug, PartialEq, Eq, Structural)]
pub struct Key {
    pub code: KeyCode,
    pub ctrl: bool,
    pub alt: bool,
    pub shift: bool,
}

/// A line of input after a key.
pub open spec fn typed(v: FieldView, key: Key) -> FieldView {
    match key.code {
        KeyCode::Char(ch) => if key.ctrl {
            if ch == 'a' {
                at_start(v)
            } else if ch == 'e' {
                at_end(v)
            } else if ch == 'f' {
                moved_right(v)
            } else if ch == 'b' {
                moved_left(v)
            } else if ch == 'h' {
                backspaced(v)
            } else if ch == 'd' {
                deleted(v)
            } else if ch == 'k' {
                FieldView { before: v.before, after: seq![] }
            } else if ch == 'u' {
                FieldView { before: seq![], after: v.after }
            } else if ch == 'w' {
                word_killed(v)
            } else {
                v
            }
        } else if key.alt {
            if ch == 'd' {
                word_killed(v)
            } else {
                v
            }
        } else {
            inserted(v, ch)
        },
        KeyCode::Backspace => backspaced(v),
        KeyCode::Delete => deleted(v),
        KeyCode::Left => moved_left(v),
        KeyCode::Right => moved_right(v),
        KeyCode::Home => at_start(v),
        KeyCode::End => at_end(v),
        _ => v,
    }
}

/// The keys that are there to change the text of a line of input, whether or not there is
/// something to change.
pub open spec fn edits_text(key: Key) -> bool {
    match key.code {
        KeyCode::Char(ch) => if key.ctrl {
            ch == 'h' || ch == 'd' || ch == 'k' || ch == 'u' || ch == 'w'
        } else if key.alt {
            ch == 'd'
        } else {
            true
        },
        KeyCode::Backspace => true,
        KeyCode::Delete => true,
        _ => false,
    }
}

/// A key that is not there to change the text does not change it.
pub proof fn law_other_keys_keep_the_text(v: FieldView, key: Key)
    requires
        !edits_text(key),
    ensures
        typed(v, key).before + typed(v, key).after == v.before + v.after,
{
    law_moves_keep_the_text(v);
}

/// A plain character is typed where the place is, and the rest stays.
pub proof fn law_plain_characters_are_typed(v: FieldView, key: Key)
    requires
        key.code is Char,
        !key.ctrl,
        !key.alt,
    ensures
        edits_text(key),
        typed(v, key) == (FieldView { before: v.before.push(key.code->0), after: v.after }),
{
}

/// A key with Ctrl and a character.
pub open spec fn is_ctrl(key: Key, ch: char) -> bool {
    key.code == KeyCode::Char(ch) && key.ctrl
}

/// A key with Alt and a character, without Ctrl.
pub open spec fn is_alt(key: Key, ch: char) -> bool {
    key.code == KeyCode::Char(ch) && key.alt && !key.ctrl
}

/// Backspace and Ctrl+H take the character before the place, where there is one, and nothing
/// else.
pub proof fn law_backspace_takes_the_character_before(v: FieldView, key: Key)
    requires
        key.code == KeyCode::Backspace || is_ctrl(key, 'h'),
    ensures
        v.before.len() > 0 ==> typed(v, key).before.push(v.before.last()) == v.before,
        v.before.len() == 0 ==> typed(v, key).before.len() == 0,
        typed(v, key).after == v.after,
{
    if v.before.len() > 0 {
        assert(v.before.drop_last().push(v.before.last()) == v.before);
    }
}

/// Delete and Ctrl+D take the character after the place, where there is one, and nothing else.
pub proof fn law_delete_takes_the_character_after(v: FieldView, key: Key)
    requires
        key.code == KeyCode::Delete || is_ctrl(key, 'd'),
    ensures
        typed(v, key).before == v.before,
        v.after.len() > 0 ==> seq![v.after[0]] + typed(v, key).after == v.after,
        v.after.len() == 0 ==> typed(v, key).after.len() == 0,
{
    if v.after.len() > 0 {
        assert(seq![v.after[0]] + v.after.drop_first() == v.after);
    }
}

/// Left and Ctrl+B go back over one character, Right and Ctrl+F go on over one, and at an end of
/// the text they stay; the text stays the same.
pub proof fn law_arrows_move_over_one_character(v: FieldView, key: Key)
    ensures
        key.code == KeyCode::Left || is_ctrl(key, 'b') ==> {
            &&& typed(v, key).before + typed(v, key).after == v.before + v.after
            &&& typed(v, key).before.len() == if v.before.len() > 0 {
                v.before.len() - 1
            } else {
                0
            }
        },
        key.code == KeyCode::Right || is_ctrl(key, 'f') ==> {
            &&& typed(v, key).before + typed(v, key).after == v.before + v.after
            &&& typed(v, key).after.len() == if v.after.len() > 0 {
                v.after.len() - 1
            } else {
                0
            }
        },
{
    law_moves_keep_the_text(v);
}

/// Home and Ctrl+A go to the start of the text, End and Ctrl+E to its end.
pub proof fn law_home_and_end_go_to_the_ends(v: FieldView, key: Key)
    ensures
        key.code == KeyCode::Home || is_ctrl(key, 'a') ==> typed(v, key).before.len() == 0
            && typed(v, key).after == v.before + v.after,
        key.code == KeyCode::End || is_ctrl(key, 'e') ==> typed(v, key).after.len() == 0
            && typed(v, key).before == v.before + v.after,
{
}

/// Ctrl+K takes everything after the place, Ctrl+U everything before it.
pub proof fn law_kill_keys_take_one_side(v: FieldView, key: Key)
    ensures
        is_ctrl(key, 'k') ==> typed(v, key).before == v.before && typed(v, key).after.len() == 0,
        is_ctrl(key, 'u') ==> typed(v, key).after == v.after && typed(v, key).before.len() == 0,
{
}

/// Ctrl+W and Alt+D take the word that ends at the place, if one does, and the white space before
/// it: what is left ends in no white space, and between it and the place stood white space
/// and then a whole word.
pub proof fn law_word_key_takes_a_word_and_its_space(v: FieldView, key: Key) -> (word: int)
    requires
        is_ctrl(key, 'w') || is_alt(key, 'd'),
    ensures
        ({
            let left = typed(v, key).before.len() as int;
            &&& typed(v, key).after == v.after
            &&& left <= word <= v.before.len()
            &&& typed(v, key).before == v.before.take(left)
            &&& forall|i: int| left <= i < word ==> is_space(#[trigger] v.before[i])
            &&& forall|i: int| word <= i < v.before.len() ==> !is_space(#[trigger] v.before[i])
            &&& left > 0 ==> !is_space(v.before[left - 1])
            &&& word > 0 ==> is_space(v.before[word - 1])
        }),
{
    let kept = trimmed(v.before, false);
    law_trimmed_takes_one_run(v.before, false);
    law_trimmed_takes_one_run(kept, true);
    let left = trimmed(kept, true);
    assert(kept.take(left.len() as int) == v.before.take(left.len() as int));
    assert forall|i: int| left.len() <= i < kept.len() implies is_space(#[trigger] v.before[i]) by {
        assert(is_space(kept[i]));
    }
    kept.len() as int
}

/// No other key with Ctrl or Alt, and no other key at all but a plain character, does anything to
/// a line of input.
pub proof fn law_other_keys_do_nothing(v: FieldView, key: Key)
    requires
        match key.code {
            KeyCode::Char(ch) => {
                ||| key.ctrl && ch != 'a' && ch != 'e' && ch != 'f' && ch != 'b' && ch != 'h' && ch
                    != 'd' && ch != 'k' && ch != 'u' && ch != 'w'
                ||| !key.ctrl && key.alt && ch != 'd'
            },
            KeyCode::Backspace => false,
            KeyCode::Delete => false,
            KeyCode::Left => false,
            KeyCode::Right => false,
            KeyCode::Home => false,
            KeyCode::End => false,
            _ => true,
        },
    ensures
        typed(v, key) == v,
        !edits_text(key),
{
}

/// The keys that type or take something are those that edit the text; those that move are not.
pub proof fn law_keys_that_type_or_take_edit_the_text(key: Key)
    ensures
        key.code == KeyCode::Backspace || key.code == KeyCode::Delete ==> edits_text(key),
        is_ctrl(key, 'h') || is_ctrl(key, 'd') || is_ctrl(key, 'k') || is_ctrl(key, 'u')
            || is_ctrl(key, 'w') || is_alt(key, 'd') ==> edits_text(key),
        key.code is Char && !key.ctrl && !key.alt ==> edits_text(key),
        key.code == KeyCode::Left || key.code == KeyCode::Right || key.code == KeyCode::Home
            || key.code == KeyCode::End ==> !edits_text(key),
        is_ctrl(key, 'a') || is_ctrl(key, 'e') || is_ctrl(key, 'f') || is_ctrl(key, 'b')
            ==> !edits_text(key),
{
}

/// Hands a key to a line of input. Says whether the text may be another one now.
pub fn handle_input_key(field: &mut InputField, key: Key) -> (r: bool)
    requires
        old(field).wf(),
    ensures
        final(field).wf(),
        final(field)@ == typed(old(field)@, key),
        r == edits_text(key),
        !r ==> final(field).text == old(field).text,
{
    match key.code {
        KeyCode::Char(ch) => if key.ctrl {
            control_key(field, ch)
        } else if key.alt {
            if ch == 'd' {
                field.kill_word_backward();
                true
            } else {
                false
            }
        } else {
            field.insert(ch);
            true
        },
        KeyCode::Backspace => {
            field.backspace();
            true
        },
        KeyCode::Delete => {
            field.delete_forward();
            true
        },
        KeyCode::Left => {
            field.move_left();
            false
        },
        KeyCode::Right => {
            field.move_right();
            false
        },
        KeyCode::Home => {
            field.move_to_start();
            false
        },
        KeyCode::End => {
            field.move_to_end();
            false
        },
        _ => false,
    }
}

fn control_key(field: &mut InputField, ch: char) -> (r: bool)
    requires
        old(field).wf(),
    ensures
        final(field).wf(),
        final(field)@ == typed(
            old(field)@,
            (Key { code: KeyCode::Char(ch), ctrl: true, alt: false, shift: false }),
        ),
        r == edits_text(
            (Key { code: KeyCode::Char(ch), ctrl: true, alt: false, shift: false }),
        ),
        !r ==> final(field).text == old(field).text,
{
    if ch == 'a' {
        field.move_to_start();
        false
    } else if ch == 'e' {
        field.move_to_end();
        false
    } else if ch == 'f' {
        field.move_right();
        false
    } else if ch == 'b' {
        field.move_left();
        false
    } else if ch == 'h' {
        field.backspace();
        true
    } else if ch == 'd' {
        field.delete_forward();
        true
    } else if ch == 'k' {
        field.kill_to_end();
        true
    } else if ch == 'u' {
        field.kill_to_start();
        true
    } else if ch == 'w' {
        field.kill_word_backward();
        true
    } else {
        false
    }
}

// The prompt under a preview.

/// What the user chose at the prompt.
#[derive(Clone, Copy, Debug, PartialEq, Eq, Structural)]
pub enum PromptChoice {
    ReplaceAll,
    Edit,
    Quit,
}

/// What a key does at the prompt.
#[derive(Clone, Copy, Debug, PartialEq, Eq, Structural)]
pub enum PromptStep {
    /// The prompt is answered.
    Chosen(PromptChoice),
    /// The terminal's bell rings, and the prompt stays.
    Bell,
    /// The prompt stays.
    Wait,
}

/// What a key does at the prompt. To edit is to open the full-screen view, so there is no such
/// answer where that view is not wanted.
pub open spec fn prompt_answer(key: Key, no_pager: bool) -> PromptStep {
    match key.code {
        KeyCode::Enter => if key.shift {
            PromptStep::Chosen(PromptChoice::ReplaceAll)
        } else {
            PromptStep::Bell
        },
        KeyCode::Esc => PromptStep::Chosen(PromptChoice::Quit),
        KeyCode::Char(ch) => if ch == 'e' && !no_pager {
            PromptStep::Chosen(PromptChoice::Edit)
        } else if ch == 'q' || ch == 'c' && key.ctrl {
            PromptStep::Chosen(PromptChoice::Quit)
        } else {
            PromptStep::Wait
        },
        _ => PromptStep::Wait,
    }
}

/// Nothing but Enter with Shift says that everything is to be replaced.
pub proof fn law_only_shift_enter_replaces(key: Key, no_pager: bool)
    ensures
        prompt_answer(key, no_pager) == PromptStep::Chosen(PromptChoice::ReplaceAll) <==> key.code
            == KeyCode::Enter && key.shift,
{
}

/// The prompt is left with `q`, Escape or Ctrl+C, goes on in the full-screen view with `e` where
/// that view is wanted, rings for a plain Enter, and waits for any other key.
pub proof fn law_prompt_answers_each_key(key: Key, no_pager: bool)
    ensures
        ({
            let quits = key.code == KeyCode::Esc || key.code == KeyCode::Char('q') || key.code
                == KeyCode::Char('c') && key.ctrl;
            let edits = key.code == KeyCode::Char('e') && !no_pager;
            &&& quits <==> prompt_answer(key, no_pager) == PromptStep::Chosen(PromptChoice::Quit)
            &&& edits <==> prompt_answer(key, no_pager) == PromptStep::Chosen(PromptChoice::Edit)
            &&& key.code == KeyCode::Enter && !key.shift <==> prompt_answer(key, no_pager)
                == PromptStep::Bell
            &&& !quits && !edits && key.code != KeyCode::Enter ==> prompt_answer(key, no_pager)
                == PromptStep::Wait
        }),
{
}

/// Answers the prompt with a key.
pub fn prompt_key(key: Key, no_pager: bool) -> (r: PromptStep)
    ensures
        r == prompt_answer(key, no_pager),
{
    match key.code {
        KeyCode::Enter => if key.shift {
            PromptStep::Chosen(PromptChoice::ReplaceAll)
        } else {
            PromptStep::Bell
        },
        KeyCode::Esc => PromptStep::Chosen(PromptChoice::Quit),
        KeyCode::Char(ch) => if ch == 'e' && !no_pager {
            PromptStep::Chosen(PromptChoice::Edit)
        } else if ch == 'q' || ch == 'c' && key.ctrl {
            PromptStep::Chosen(PromptChoice::Quit)
        } else {
            PromptStep::Wait
        },
        _ => PromptStep::Wait,
    }
}

} // verus!
