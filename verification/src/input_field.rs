//! A line of text that the user edits.
use vstd::prelude::*;
use vstd::utf8::*;

use crate::text::{
    byte_len, byte_slice, lemma_encode_concat, lemma_prefix_boundary, lemma_slice_ends,
    lemma_split_boundary, on_boundary, slice_str, str_len,
};

verus! {

/// The character has the Unicode property `White_Space`.
pub open spec fn is_space(c: char) -> bool {
    '\u{9}' <= c <= '\u{d}' || c == ' ' || c == '\u{85}' || c == '\u{a0}' || c == '\u{1680}'
        || '\u{2000}' <= c <= '\u{200a}' || c == '\u{2028}' || c == '\u{2029}' || c == '\u{202f}'
        || c == '\u{205f}' || c == '\u{3000}'
}

/// Calls `char::is_whitespace`: whether the character has the Unicode property `White_Space`.
pub assume_specification[ char::is_whitespace ](c: char) -> (r: bool)
    ensures
        r == is_space(c),
;

/// Calls `char::len_utf8`: the number of bytes that the character takes up in UTF-8.
pub assume_specification[ char::len_utf8 ](c: char) -> (r: usize)
    ensures
        r == byte_len(seq![c]),
;

/// Text with a place in it where the user types.
pub struct InputField {
    pub text: String,
    /// Byte offset of that place.
    pub cursor: usize,
}

/// Text with a place in it: what stands before the place, and what stands after it.
#[verifier::ext_equal]
pub struct FieldView {
    pub before: Seq<char>,
    pub after: Seq<char>,
}

impl View for InputField {
    type V = FieldView;

    open spec fn view(&self) -> FieldView {
        FieldView {
            before: byte_slice(self.text@, 0, self.cursor as int),
            after: byte_slice(self.text@, self.cursor as int, byte_len(self.text@) as int),
        }
    }
}

// What the keys do to the text.

/// A character was typed.
pub open spec fn inserted(v: FieldView, c: char) -> FieldView {
    FieldView { before: v.before.push(c), after: v.after }
}

/// The character before the place is gone.
pub open spec fn backspaced(v: FieldView) -> FieldView {
    if v.before.len() > 0 {
        FieldView { before: v.before.drop_last(), after: v.after }
    } else {
        v
    }
}

/// The character after the place is gone.
pub open spec fn deleted(v: FieldView) -> FieldView {
    if v.after.len() > 0 {
        FieldView { before: v.before, after: v.after.drop_first() }
    } else {
        v
    }
}

/// The place has moved over one character to the left.
pub open spec fn moved_left(v: FieldView) -> FieldView {
    if v.before.len() > 0 {
        FieldView { before: v.before.drop_last(), after: seq![v.before.last()] + v.after }
    } else {
        v
    }
}

/// The place has moved over one character to the right.
pub open spec fn moved_right(v: FieldView) -> FieldView {
    if v.after.len() > 0 {
        FieldView { before: v.before.push(v.after[0]), after: v.after.drop_first() }
    } else {
        v
    }
}

/// The place is at the start.
pub open spec fn at_start(v: FieldView) -> FieldView {
    FieldView { before: seq![], after: v.before + v.after }
}

/// The place is at the end.
pub open spec fn at_end(v: FieldView) -> FieldView {
    FieldView { before: v.before + v.after, after: seq![] }
}

/// `s` without the white space at its end, or without what is not white space there.
pub open spec fn trimmed(s: Seq<char>, space: bool) -> Seq<char>
    decreases s.len(),
{
    if s.len() > 0 && is_space(s.last()) == space {
        trimmed(s.drop_last(), space)
    } else {
        s
    }
}

/// The word before the place is gone, and the white space before that word.
pub open spec fn word_killed(v: FieldView) -> FieldView {
    FieldView { before: trimmed(trimmed(v.before, false), true), after: v.after }
}

/// `s` ends in what was taken from it, which is white space throughout, or not at all; what is
/// left of it does not end like that.
pub proof fn law_trimmed_takes_one_run(s: Seq<char>, space: bool)
    ensures
        ({
            let t = trimmed(s, space);
            &&& t.len() <= s.len()
            &&& t == s.take(t.len() as int)
            &&& forall|i: int| t.len() <= i < s.len() ==> is_space(#[trigger] s[i]) == space
            &&& t.len() > 0 ==> is_space(t.last()) != space
        }),
    decreases s.len(),
{
    let t = trimmed(s, space);
    if s.len() > 0 && is_space(s.last()) == space {
        law_trimmed_takes_one_run(s.drop_last(), space);
        assert(s.drop_last().take(t.len() as int) == s.take(t.len() as int));
        assert forall|i: int| t.len() <= i < s.len() implies is_space(#[trigger] s[i]) == space by {
            if i < s.len() - 1 {
                assert(is_space(s.drop_last()[i]) == space);
            }
        }
    } else {
        assert(s.take(s.len() as int) == s);
    }
}

/// Taking back a character that was just typed leaves everything as it was.
pub proof fn law_backspace_undoes_insert(v: FieldView, c: char)
    ensures
        backspaced(inserted(v, c)) == v,
{
    assert(v.before.push(c).drop_last() == v.before);
}

/// To move over a character and delete it is to take it back.
pub proof fn law_left_and_delete_is_backspace(v: FieldView)
    requires
        v.before.len() > 0,
    ensures
        deleted(moved_left(v)) == backspaced(v),
{
    assert((seq![v.before.last()] + v.after).drop_first() == v.after);
}

/// A step to one side and one back lead to where they started.
pub proof fn law_left_and_right_undo_each_other(v: FieldView)
    ensures
        v.before.len() > 0 ==> moved_right(moved_left(v)) == v,
        v.after.len() > 0 ==> moved_left(moved_right(v)) == v,
{
    if v.before.len() > 0 {
        assert(v.before.drop_last().push(v.before.last()) == v.before);
        assert((seq![v.before.last()] + v.after).drop_first() == v.after);
    }
    if v.after.len() > 0 {
        assert(v.before.push(v.after[0]).drop_last() == v.before);
        assert(seq![v.after[0]] + v.after.drop_first() == v.after);
    }
}

/// Moving about never changes the text.
pub proof fn law_moves_keep_the_text(v: FieldView)
    ensures
        moved_left(v).before + moved_left(v).after == v.before + v.after,
        moved_right(v).before + moved_right(v).after == v.before + v.after,
        at_start(v).before + at_start(v).after == v.before + v.after,
        at_end(v).before + at_end(v).after == v.before + v.after,
{
    if v.before.len() > 0 {
        assert(moved_left(v).before + moved_left(v).after == v.before + v.after);
    }
    if v.after.len() > 0 {
        assert(moved_right(v).before + moved_right(v).after == v.before + v.after);
    }
    assert(at_start(v).before + at_start(v).after == v.before + v.after);
    assert(at_end(v).before + at_end(v).after == v.before + v.after);
}

/// The length of `s` without the white space at its end, or without what is not white space
/// there.
fn trimmed_len(s: &str, space: bool) -> (r: usize)
    ensures
        r == byte_len(trimmed(s@, space)),
        on_boundary(s@, r as int),
        byte_slice(s@, 0, r as int) == trimmed(s@, space),
{
    let whole = str_len(s);
    let mut at: usize = 0;
    let mut end: usize = 0;
    proof {
        assert(s@.take(0) == Seq::<char>::empty());
        assert(encode_utf8(s@.take(0)).len() == 0);
    }
    for c in it: s.chars()
        invariant
            it.seq() == s@,
            whole == byte_len(s@),
            at == byte_len(s@.take(it.index())),
            end == byte_len(trimmed(s@.take(it.index()), space)),
    {
        let ghost n = it.index();
        proof {
            assert(s@.take(n + 1) == s@.take(n) + seq![c]);
            lemma_encode_concat(s@.take(n), seq![c]);
            assert(s@ == s@.take(n + 1) + s@.skip(n + 1));
            lemma_encode_concat(s@.take(n + 1), s@.skip(n + 1));
            assert(s@.take(n + 1).drop_last() == s@.take(n));
        }
        at = at + c.len_utf8();
        if c.is_whitespace() != space {
            end = at;
        }
    }
    proof {
        let t = trimmed(s@, space);
        assert(s@.take(s@.len() as int) == s@);
        law_trimmed_takes_one_run(s@, space);
        assert(s@ == t + s@.skip(t.len() as int));
        lemma_prefix_boundary(t, s@.skip(t.len() as int));
    }
    end
}

impl InputField {
    /// The place lies between two characters, or at an end.
    pub open spec fn wf(&self) -> bool {
        on_boundary(self.text@, self.cursor as int)
    }

    /// Text with the place at its end.
    pub fn new(s: &str) -> (r: InputField)
        ensures
            r.wf(),
            r.text@ == s@,
            r@ == (FieldView { before: s@, after: seq![] }),
    {
        let r = InputField { text: s.to_owned(), cursor: str_len(s) };
        proof {
            lemma_field(r, s@, seq![]);
        }
        r
    }

    /// Types a character.
    pub fn insert(&mut self, ch: char)
        requires
            old(self).wf(),
        ensures
            final(self).wf(),
            final(self)@ == inserted(old(self)@, ch),
    {
        let (before, after) = self.halves();
        let mut text = before.to_owned();
        text.push(ch);
        let cursor = str_len(text.as_str());
        text.append(after);
        self.text = text;
        self.cursor = cursor;
        proof {
            lemma_field(*self, old(self)@.before.push(ch), old(self)@.after);
        }
    }

    /// Takes back the character before the place.
    pub fn backspace(&mut self)
        requires
            old(self).wf(),
        ensures
            final(self).wf(),
            final(self)@ == backspaced(old(self)@),
    {
        proof {
            lemma_wf(*self);
            lemma_slice_ends(self.text@);
        }
        if self.cursor > 0 {
            let prev = self.prev_boundary();
            let (_before, after) = self.halves();
            let mut text = slice_str(self.text.as_str(), 0, prev).to_owned();
            text.append(after);
            self.text = text;
            self.cursor = prev;
            proof {
                lemma_field(*self, old(self)@.before.drop_last(), old(self)@.after);
            }
        }
    }

    /// Deletes the character after the place.
    pub fn delete_forward(&mut self)
        requires
            old(self).wf(),
        ensures
            final(self).wf(),
            final(self)@ == deleted(old(self)@),
    {
        proof {
            lemma_wf(*self);
            lemma_slice_ends(self.text@);
        }
        let len = str_len(self.text.as_str());
        if self.cursor < len {
            let next = self.next_boundary();
            let (before, _after) = self.halves();
            let mut text = before.to_owned();
            text.append(slice_str(self.text.as_str(), next, len));
            self.text = text;
            proof {
                lemma_field(*self, old(self)@.before, old(self)@.after.drop_first());
            }
        }
    }

    /// Moves the place over one character to the left.
    pub fn move_left(&mut self)
        requires
            old(self).wf(),
        ensures
            final(self).wf(),
            final(self).text == old(self).text,
            final(self)@ == moved_left(old(self)@),
    {
        proof {
            lemma_wf(*self);
        }
        if self.cursor > 0 {
            self.cursor = self.prev_boundary();
            proof {
                let v = old(self)@;
                law_moves_keep_the_text(v);
                lemma_field(*self, moved_left(v).before, moved_left(v).after);
            }
        }
    }

    /// Moves the place over one character to the right.
    pub fn move_right(&mut self)
        requires
            old(self).wf(),
        ensures
            final(self).wf(),
            final(self).text == old(self).text,
            final(self)@ == moved_right(old(self)@),
    {
        proof {
            lemma_wf(*self);
        }
        if self.cursor < str_len(self.text.as_str()) {
            self.cursor = self.next_boundary();
            proof {
                let v = old(self)@;
                law_moves_keep_the_text(v);
                lemma_encode_concat(v.before, seq![v.after[0]]);
                assert(v.before.push(v.after[0]) == v.before + seq![v.after[0]]);
                lemma_field(*self, moved_right(v).before, moved_right(v).after);
            }
        }
    }

    /// Moves the place to the start.
    pub fn move_to_start(&mut self)
        requires
            old(self).wf(),
        ensures
            final(self).wf(),
            final(self).text == old(self).text,
            final(self)@ == at_start(old(self)@),
    {
        self.cursor = 0;
        proof {
            lemma_wf(*old(self));
            law_moves_keep_the_text(old(self)@);
            assert(byte_len(Seq::<char>::empty()) == 0);
            lemma_field(*self, at_start(old(self)@).before, at_start(old(self)@).after);
        }
    }

    /// Moves the place to the end.
    pub fn move_to_end(&mut self)
        requires
            old(self).wf(),
        ensures
            final(self).wf(),
            final(self).text == old(self).text,
            final(self)@ == at_end(old(self)@),
    {
        self.cursor = str_len(self.text.as_str());
        proof {
            lemma_wf(*old(self));
            law_moves_keep_the_text(old(self)@);
            lemma_field(*self, at_end(old(self)@).before, at_end(old(self)@).after);
        }
    }

    /// Deletes everything after the place.
    pub fn kill_to_end(&mut self)
        requires
            old(self).wf(),
        ensures
            final(self).wf(),
            final(self)@ == (FieldView { before: old(self)@.before, after: seq![] }),
    {
        let (before, _after) = self.halves();
        self.text = before.to_owned();
        proof {
            lemma_wf(*old(self));
            lemma_field(*self, old(self)@.before, seq![]);
        }
    }

    /// Deletes everything before the place.
    pub fn kill_to_start(&mut self)
        requires
            old(self).wf(),
        ensures
            final(self).wf(),
            final(self)@ == (FieldView { before: seq![], after: old(self)@.after }),
    {
        let (_before, after) = self.halves();
        self.text = after.to_owned();
        self.cursor = 0;
        proof {
            assert(byte_len(Seq::<char>::empty()) == 0);
            lemma_field(*self, seq![], old(self)@.after);
        }
    }

    /// Deletes the word before the place, and the white space before that word.
    pub fn kill_word_backward(&mut self)
        requires
            old(self).wf(),
        ensures
            final(self).wf(),
            final(self)@ == word_killed(old(self)@),
    {
        let (before, after) = self.halves();
        let end = trimmed_len(before, false);
        proof {
            lemma_slice_ends(before@);
        }
        let rest = slice_str(before, 0, end);
        let start = trimmed_len(rest, true);
        proof {
            lemma_slice_ends(rest@);
        }
        let mut text = slice_str(rest, 0, start).to_owned();
        text.append(after);
        self.text = text;
        self.cursor = start;
        proof {
            lemma_field(*self, word_killed(old(self)@).before, old(self)@.after);
        }
    }

    /// Where the character before the place starts.
    pub fn prev_boundary(&self) -> (r: usize)
        requires
            self.wf(),
        ensures
            r == byte_len(backspaced(self@).before),
            on_boundary(self.text@, r as int),
            byte_slice(self.text@, 0, r as int) == backspaced(self@).before,
    {
        let (before, _after) = self.halves();
        proof {
            lemma_wf(*self);
            lemma_slice_ends(self.text@);
        }
        let n = before.unicode_len();
        if n == 0 {
            proof {
                assert(before@ == Seq::<char>::empty());
                assert(byte_len(Seq::<char>::empty()) == 0);
            }
            return 0;
        }
        let last = before.get_char(n - 1);
        proof {
            let v = self@;
            assert(v.before == v.before.drop_last() + seq![last]);
            lemma_encode_concat(v.before.drop_last(), seq![last]);
            let after = seq![last] + v.after;
            assert(self.text@ == v.before.drop_last() + after);
            lemma_prefix_boundary(v.before.drop_last(), after);
        }
        self.cursor - last.len_utf8()
    }

    /// Where the character after the place ends.
    pub fn next_boundary(&self) -> (r: usize)
        requires
            self.wf(),
        ensures
            r == byte_len(self@.before) + byte_len(self@.after) - byte_len(deleted(self@).after),
            self@.after.len() > 0 ==> r == self.cursor + byte_len(seq![self@.after[0]]),
            on_boundary(self.text@, r as int),
            byte_slice(self.text@, r as int, byte_len(self.text@) as int) == deleted(self@).after,
    {
        let (_before, after) = self.halves();
        let len = str_len(self.text.as_str());
        proof {
            lemma_wf(*self);
        }
        if after.is_empty() {
            return self.cursor;
        }
        let next = after.get_char(0);
        proof {
            let v = self@;
            assert(v.after == seq![next] + v.after.drop_first());
            lemma_encode_concat(seq![next], v.after.drop_first());
            let before = v.before + seq![next];
            lemma_encode_concat(v.before, seq![next]);
            assert(self.text@ == before + v.after.drop_first());
            lemma_prefix_boundary(before, v.after.drop_first());
        }
        self.cursor + next.len_utf8()
    }

    /// What stands before the place, and what stands after it.
    pub fn halves(&self) -> (r: (&str, &str))
        requires
            self.wf(),
        ensures
            r.0@ == self@.before,
            r.1@ == self@.after,
            self.text@ == r.0@ + r.1@,
            self.cursor == byte_len(r.0@),
    {
        proof {
            lemma_wf(*self);
            lemma_slice_ends(self.text@);
        }
        let text = self.text.as_str();
        (slice_str(text, 0, self.cursor), slice_str(text, self.cursor, str_len(text)))
    }
}

/// Text with a place in it, from its parts.
proof fn lemma_field(field: InputField, before: Seq<char>, after: Seq<char>)
    requires
        field.text@ == before + after,
        field.cursor == byte_len(before),
    ensures
        field.wf(),
        field@ == (FieldView { before, after }),
{
    lemma_prefix_boundary(before, after);
}

/// The parts of a text with a place in it.
pub proof fn lemma_wf(field: InputField)
    requires
        field.wf(),
    ensures
        field.text@ == field@.before + field@.after,
        field.cursor == byte_len(field@.before),
        byte_len(field.text@) == byte_len(field@.before) + byte_len(field@.after),
        field.cursor == 0 <==> field@.before.len() == 0,
        field.cursor == byte_len(field.text@) <==> field@.after.len() == 0,
{
    lemma_split_boundary(field.text@, field.cursor as int);
    lemma_empty(field@.before);
    lemma_empty(field@.after);
}

/// Only the empty text takes up no bytes.
proof fn lemma_empty(s: Seq<char>)
    ensures
        byte_len(s) == 0 <==> s.len() == 0,
{
    if s.len() > 0 {
        char_is_scalar(s[0]);
    }
}

} // verus!
