use sey::input_field::InputField;
use sey::keys::{handle_input_key, prompt_key, Key, KeyCode, PromptChoice, PromptStep};

fn field(before: &str, after: &str) -> InputField {
    let mut f = InputField::new(before);
    f.text.push_str(after);
    f
}

fn halves(f: &InputField) -> (String, String) {
    let (before, after) = f.halves();
    (before.to_string(), after.to_string())
}

fn is(f: &InputField, before: &str, after: &str) -> bool {
    halves(f) == (before.to_string(), after.to_string())
        && f.cursor == before.len()
        && f.text == format!("{before}{after}")
}

fn key(code: KeyCode) -> Key {
    Key { code, ctrl: false, alt: false, shift: false }
}

fn ctrl(ch: char) -> Key {
    Key { code: KeyCode::Char(ch), ctrl: true, alt: false, shift: false }
}

fn alt(ch: char) -> Key {
    Key { code: KeyCode::Char(ch), ctrl: false, alt: true, shift: false }
}

#[test]
fn new_field_has_its_cursor_at_the_end() {
    let f = InputField::new("añb");
    assert_eq!(f.cursor, 4);
    assert!(is(&f, "añb", ""));
}

#[test]
fn characters_are_typed_at_the_cursor() {
    let mut f = field("a", "b");
    f.insert('€');
    assert!(is(&f, "a€", "b"));
    f.insert('x');
    assert!(is(&f, "a€x", "b"));
}

#[test]
fn backspace_takes_back_what_was_typed() {
    let mut f = field("a€", "b");
    f.insert('ß');
    f.backspace();
    assert!(is(&f, "a€", "b"));
    f.backspace();
    assert!(is(&f, "a", "b"));
    f.backspace();
    f.backspace();
    assert!(is(&f, "", "b"));
}

#[test]
fn delete_takes_what_follows() {
    let mut f = field("a", "€b");
    f.delete_forward();
    assert!(is(&f, "a", "b"));
    f.delete_forward();
    f.delete_forward();
    assert!(is(&f, "a", ""));
}

#[test]
fn cursor_moves_over_characters() {
    let mut f = field("a€", "b");
    f.move_left();
    assert!(is(&f, "a", "€b"));
    f.move_right();
    assert!(is(&f, "a€", "b"));
    f.move_to_start();
    assert!(is(&f, "", "a€b"));
    f.move_left();
    assert!(is(&f, "", "a€b"));
    f.move_to_end();
    assert!(is(&f, "a€b", ""));
    f.move_right();
    assert!(is(&f, "a€b", ""));
}

#[test]
fn boundaries_are_those_of_characters() {
    let f = field("a€", "éb");
    assert_eq!(f.cursor, 4);
    assert_eq!(f.prev_boundary(), 1);
    assert_eq!(f.next_boundary(), 6);
    let f = field("", "");
    assert_eq!(f.prev_boundary(), 0);
    assert_eq!(f.next_boundary(), 0);
}

#[test]
fn everything_on_one_side_can_be_killed() {
    let mut f = field("abc", "def");
    f.kill_to_end();
    assert!(is(&f, "abc", ""));
    let mut f = field("abc", "def");
    f.kill_to_start();
    assert!(is(&f, "", "def"));
}

#[test]
fn word_before_the_cursor_is_killed_with_its_space() {
    let mut f = field("one  two", "x");
    f.kill_word_backward();
    assert!(is(&f, "one", "x"));
    f.kill_word_backward();
    assert!(is(&f, "", "x"));
    let mut f = field("one ", "x");
    f.kill_word_backward();
    assert!(is(&f, "one", "x"));
    let mut f = field("one\u{a0}\u{3000}zwei", "");
    f.kill_word_backward();
    assert!(is(&f, "one", ""));
}

#[test]
fn every_white_space_character_is_killed() {
    let mut spaces: Vec<u32> = (0x9..=0xd).chain(0x2000..=0x200a).collect();
    spaces.extend([0x20, 0x85, 0xa0, 0x1680, 0x2028, 0x2029, 0x202f, 0x205f, 0x3000]);
    for code in 0..0x11_0000 {
        if let Some(c) = char::from_u32(code) {
            assert_eq!(c.is_whitespace(), spaces.contains(&code));
        }
    }
    for code in spaces {
        let mut f = InputField::new("one");
        f.insert(char::from_u32(code).unwrap());
        f.insert('x');
        f.kill_word_backward();
        assert!(is(&f, "one", ""));
    }
    let mut f = field("one\u{200b}x", "");
    f.kill_word_backward();
    assert!(is(&f, "", ""));
}

#[test]
fn plain_keys_type() {
    let mut f = field("", "");
    assert!(handle_input_key(&mut f, key(KeyCode::Char('h'))));
    let shifted = Key { code: KeyCode::Char('I'), ctrl: false, alt: false, shift: true };
    assert!(handle_input_key(&mut f, shifted));
    assert!(is(&f, "hI", ""));
    assert!(handle_input_key(&mut f, key(KeyCode::Backspace)));
    assert!(is(&f, "h", ""));
    assert!(!handle_input_key(&mut f, key(KeyCode::Left)));
    assert!(is(&f, "", "h"));
    assert!(handle_input_key(&mut f, key(KeyCode::Delete)));
    assert!(is(&f, "", ""));
}

#[test]
fn keys_that_move_say_that_nothing_changed() {
    let mut f = field("ab", "cd");
    assert!(!handle_input_key(&mut f, key(KeyCode::Home)));
    assert!(is(&f, "", "abcd"));
    assert!(!handle_input_key(&mut f, key(KeyCode::Right)));
    assert!(is(&f, "a", "bcd"));
    assert!(!handle_input_key(&mut f, key(KeyCode::End)));
    assert!(is(&f, "abcd", ""));
    assert!(!handle_input_key(&mut f, key(KeyCode::PageUp)));
    assert!(!handle_input_key(&mut f, key(KeyCode::Other)));
    assert!(is(&f, "abcd", ""));
}

#[test]
fn control_keys_edit_as_in_a_shell() {
    let mut f = field("one two", " three");
    assert!(!handle_input_key(&mut f, ctrl('a')));
    assert!(is(&f, "", "one two three"));
    assert!(!handle_input_key(&mut f, ctrl('f')));
    assert!(is(&f, "o", "ne two three"));
    assert!(!handle_input_key(&mut f, ctrl('b')));
    assert!(is(&f, "", "one two three"));
    assert!(handle_input_key(&mut f, ctrl('d')));
    assert!(is(&f, "", "ne two three"));
    assert!(!handle_input_key(&mut f, ctrl('e')));
    assert!(handle_input_key(&mut f, ctrl('h')));
    assert!(is(&f, "ne two thre", ""));
    assert!(handle_input_key(&mut f, ctrl('w')));
    assert!(is(&f, "ne two", ""));
    assert!(!handle_input_key(&mut f, ctrl('b')));
    assert!(handle_input_key(&mut f, ctrl('k')));
    assert!(is(&f, "ne tw", ""));
    assert!(handle_input_key(&mut f, ctrl('u')));
    assert!(is(&f, "", ""));
    assert!(!handle_input_key(&mut f, ctrl('z')));
    assert!(is(&f, "", ""));
}

#[test]
fn alt_d_kills_a_word_and_other_alt_keys_do_nothing() {
    let mut f = field("one two", "");
    assert!(!handle_input_key(&mut f, alt('x')));
    assert!(is(&f, "one two", ""));
    assert!(handle_input_key(&mut f, alt('d')));
    assert!(is(&f, "one", ""));
}

#[test]
fn prompt_takes_shift_enter_for_everything() {
    let shift_enter = Key { code: KeyCode::Enter, ctrl: false, alt: false, shift: true };
    assert_eq!(prompt_key(shift_enter, false), PromptStep::Chosen(PromptChoice::ReplaceAll));
    assert_eq!(prompt_key(key(KeyCode::Enter), false), PromptStep::Bell);
    assert_eq!(prompt_key(key(KeyCode::Char('y')), false), PromptStep::Wait);
}

#[test]
fn prompt_can_be_left() {
    assert_eq!(prompt_key(key(KeyCode::Char('e')), false), PromptStep::Chosen(PromptChoice::Edit));
    assert_eq!(prompt_key(key(KeyCode::Char('q')), false), PromptStep::Chosen(PromptChoice::Quit));
    assert_eq!(prompt_key(key(KeyCode::Esc), false), PromptStep::Chosen(PromptChoice::Quit));
    assert_eq!(prompt_key(ctrl('c'), false), PromptStep::Chosen(PromptChoice::Quit));
    assert_eq!(prompt_key(key(KeyCode::Char('c')), false), PromptStep::Wait);
    assert_eq!(prompt_key(key(KeyCode::Tab), false), PromptStep::Wait);
}

#[test]
fn prompt_without_the_view_does_not_offer_to_edit() {
    let shift_enter = Key { code: KeyCode::Enter, ctrl: false, alt: false, shift: true };
    assert_eq!(prompt_key(key(KeyCode::Char('e')), true), PromptStep::Wait);
    assert_eq!(prompt_key(shift_enter, true), PromptStep::Chosen(PromptChoice::ReplaceAll));
    assert_eq!(prompt_key(key(KeyCode::Enter), true), PromptStep::Bell);
    assert_eq!(prompt_key(key(KeyCode::Char('q')), true), PromptStep::Chosen(PromptChoice::Quit));
    assert_eq!(prompt_key(ctrl('c'), true), PromptStep::Chosen(PromptChoice::Quit));
}
