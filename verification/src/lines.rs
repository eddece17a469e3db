//! Lines of text, and numbers written out.
use vstd::prelude::*;
use vstd::utf8::*;

use crate::text::{byte_len, lemma_encode_concat, lemma_encode_injective, lemma_prefix_boundary};

verus! {

/// Calls `String::push`: the character goes to the end.
pub assume_specification[ String::push ](s: &mut String, c: char)
    ensures
        final(s)@ == old(s)@.push(c),
;

/// The texts that a list of strings holds.
pub open spec fn string_views(list: Seq<String>) -> Seq<Seq<char>> {
    Seq::new(list.len(), |i: int| list[i]@)
}

/// The parts, one after the other.
pub open spec fn join(parts: Seq<Seq<char>>) -> Seq<char>
    decreases parts.len(),
{
    if parts.len() == 0 {
        seq![]
    } else {
        join(parts.drop_last()) + parts.last()
    }
}

/// Joining a list that grew by one part.
pub proof fn lemma_join_push(parts: Seq<Seq<char>>, last: Seq<char>)
    ensures
        join(parts.push(last)) == join(parts) + last,
{
    assert(parts.push(last).drop_last() == parts);
}

/// A part is no longer than the whole.
pub proof fn lemma_part_len(parts: Seq<Seq<char>>, i: int)
    requires
        0 <= i < parts.len(),
    ensures
        byte_len(parts[i]) <= byte_len(join(parts)),
    decreases parts.len(),
{
    lemma_encode_concat(join(parts.drop_last()), parts.last());
    if i < parts.len() - 1 {
        lemma_part_len(parts.drop_last(), i);
    }
}

// Lines.

/// The lines of a text, each with the newline that ends it.
pub open spec fn lines_of(t: Seq<char>) -> Seq<Seq<char>>
    decreases t.len(),
{
    if t.len() == 0 {
        seq![]
    } else {
        let before = lines_of(t.drop_last());
        if before.len() == 0 || before.last().last() == '\n' {
            before.push(seq![t.last()])
        } else {
            before.drop_last().push(before.last().push(t.last()))
        }
    }
}

/// A line: not empty, and with a newline nowhere but at its end.
pub open spec fn is_line(line: Seq<char>) -> bool {
    &&& line.len() > 0
    &&& forall|i: int| 0 <= i < line.len() - 1 ==> line[i] != '\n'
}

/// A list of lines as a text falls into them: each is a line, and all but the last end in a
/// newline.
pub open spec fn are_lines(lines: Seq<Seq<char>>) -> bool {
    &&& forall|i: int| 0 <= i < lines.len() ==> #[trigger] is_line(lines[i])
    &&& forall|i: int| 0 <= i < lines.len() - 1 ==> (#[trigger] lines[i]).last() == '\n'
}

/// A text is exactly its lines, one after the other, and every line of it is one.
pub proof fn law_lines_partition_text(t: Seq<char>)
    ensures
        join(lines_of(t)) == t,
        are_lines(lines_of(t)),
    decreases t.len(),
{
    if t.len() > 0 {
        let before = lines_of(t.drop_last());
        let now = lines_of(t);
        law_lines_partition_text(t.drop_last());
        if before.len() == 0 || before.last().last() == '\n' {
            lemma_join_push(before, seq![t.last()]);
            assert(join(now) == t);
            assert forall|i: int| 0 <= i < now.len() implies #[trigger] is_line(now[i]) by {
                if i < before.len() {
                    assert(is_line(before[i]));
                }
            }
        } else {
            lemma_join_push(before.drop_last(), before.last().push(t.last()));
            assert(join(before) == join(before.drop_last()) + before.last());
            assert(join(before.drop_last()) + before.last().push(t.last()) == join(before).push(
                t.last(),
            ));
            assert(join(now) == t);
            assert forall|i: int| 0 <= i < now.len() implies #[trigger] is_line(now[i]) by {
                assert(is_line(before[i]));
                if i == now.len() - 1 {
                    assert(now[i] == before.last().push(t.last()));
                }
            }
        }
    }
}

/// There is only one way for a text to fall into lines.
pub proof fn law_lines_unique(lines: Seq<Seq<char>>)
    requires
        are_lines(lines),
    ensures
        lines_of(join(lines)) == lines,
    decreases join(lines).len(),
{
    if lines.len() == 0 {
        assert(lines == Seq::<Seq<char>>::empty());
    } else {
        let n = lines.len() - 1;
        let last = lines.last();
        assert(is_line(lines[n]));
        let t = join(lines);
        assert(t.last() == last.last());
        if last.len() == 1 {
            let rest = lines.drop_last();
            assert forall|i: int| 0 <= i < rest.len() implies #[trigger] is_line(rest[i]) by {
                assert(is_line(lines[i]));
            }
            assert(t.drop_last() == join(rest));
            law_lines_unique(rest);
            if rest.len() > 0 {
                assert(lines[n - 1].last() == '\n');
            }
            assert(last == seq![t.last()]);
            assert(rest.push(last) == lines);
        } else {
            let cut = lines.drop_last().push(last.drop_last());
            assert forall|i: int| 0 <= i < cut.len() implies #[trigger] is_line(cut[i]) by {
                assert(is_line(lines[i]));
            }
            assert forall|i: int| 0 <= i < cut.len() - 1 implies (#[trigger] cut[i]).last() == '\n'
            by {
                assert(lines[i].last() == '\n');
            }
            lemma_join_push(lines.drop_last(), last.drop_last());
            assert(t.drop_last() == join(cut));
            law_lines_unique(cut);
            assert(cut.last() == last.drop_last());
            assert(last[last.len() - 2] != '\n');
            assert(cut.drop_last() == lines.drop_last());
            assert(last.drop_last().push(t.last()) == last);
            assert(lines.drop_last().push(last) == lines);
        }
    }
}

/// The lines of `text`, each with the newline that ends it.
pub fn split_lines(text: &str) -> (r: Vec<String>)
    ensures
        string_views(r@) == lines_of(text@),
{
    let mut lines: Vec<String> = Vec::new();
    let mut current = String::new();
    proof {
        assert(text@.take(0) == Seq::<char>::empty());
        assert(string_views(lines@) == lines_of(text@.take(0)));
    }
    for c in it: text.chars()
        invariant
            it.seq() == text@,
            forall|i: int| 0 <= i < lines@.len() ==> (#[trigger] lines@[i])@.last() == '\n',
            current@.len() > 0 ==> current@.last() != '\n',
            lines_of(text@.take(it.index())) == if current@.len() == 0 {
                string_views(lines@)
            } else {
                string_views(lines@).push(current@)
            },
    {
        let ghost before = string_views(lines@);
        let ghost held = current@;
        let ghost n = it.index();
        proof {
            assert(text@.take(n + 1).drop_last() == text@.take(n));
            assert(text@.take(n + 1).last() == c);
        }
        current.push(c);
        proof {
            if held.len() == 0 {
                if before.len() > 0 {
                    assert(before.last() == lines@[lines@.len() - 1]@);
                }
                assert(current@ == seq![c]);
            } else {
                assert(before.push(held).drop_last() == before);
            }
            assert(lines_of(text@.take(n + 1)) == before.push(current@));
        }
        if c == '\n' {
            lines.push(current);
            current = String::new();
            proof {
                assert(string_views(lines@) == before.push(held.push(c)));
            }
        }
    }
    proof {
        assert(text@.take(text@.len() as int) == text@);
    }
    if !current.as_str().is_empty() {
        let ghost before = string_views(lines@);
        let ghost held = current@;
        lines.push(current);
        proof {
            assert(string_views(lines@) == before.push(held));
        }
    }
    lines
}

/// A raw line without the newline that ends it.
pub open spec fn body_of(raw: Seq<char>) -> Seq<char> {
    if raw.len() > 0 && raw.last() == '\n' {
        raw.drop_last()
    } else {
        raw
    }
}

/// The newline that ends a raw line, if there is one.
pub open spec fn newline_of(raw: Seq<char>) -> Seq<char> {
    if raw.len() > 0 && raw.last() == '\n' {
        seq!['\n']
    } else {
        seq![]
    }
}

proof fn lemma_last_byte(c: char)
    ensures
        encode_scalar(c as u32).len() > 0,
        c == '\n' ==> encode_scalar(c as u32) == seq![10u8],
        c != '\n' ==> encode_scalar(c as u32).last() != 10u8,
{
    let v = c as u32;
    char_is_scalar(c);
    if has_width_1_encoding(v) {
        assert((v & 0x7F) as u8 == v) by (bit_vector)
            requires
                0 <= v <= 0x7F,
        ;
    } else {
        assert(0x80u8 | ((v & 0x3F) as u8) != 10u8) by (bit_vector);
    }
}

proof fn lemma_encode_last(s: Seq<char>)
    requires
        s.len() > 0,
    ensures
        encode_utf8(s) == encode_utf8(s.drop_last()) + encode_scalar(s.last() as u32),
{
    let one = seq![s.last()];
    assert(s == s.drop_last() + one);
    lemma_encode_concat(s.drop_last(), one);
    assert(one.drop_first() == Seq::<char>::empty());
    assert(encode_utf8(one.drop_first()) == Seq::<u8>::empty());
    assert(encode_utf8(one) == encode_scalar(s.last() as u32));
}

/// A line apart from the newline that ends it, and that newline.
pub fn split_nl(s: &str) -> (r: (&str, &str))
    ensures
        r.0@ == body_of(s@),
        r.1@ == newline_of(s@),
        r.0@ + r.1@ == s@,
{
    let bytes = s.as_bytes();
    let n = bytes.len();
    proof {
        if s@.len() > 0 {
            lemma_encode_last(s@);
            lemma_last_byte(s@.last());
        }
        reveal_strlit("\n");
        reveal_strlit("");
        assert("\n"@ == seq!['\n']);
        assert(""@ == Seq::<char>::empty());
        assert(s@ + Seq::<char>::empty() == s@);
    }
    if n > 0 && bytes[n - 1] == 10 {
        proof {
            assert(s@.last() == '\n');
            assert(s@.drop_last() + seq!['\n'] == s@);
            lemma_prefix_boundary(s@.drop_last(), seq!['\n']);
        }
        let (body, _newline) = s.split_at(n - 1);
        proof {
            let e = encode_utf8(s@);
            assert(e.subrange(0, n - 1) == encode_utf8(s@.drop_last()));
            lemma_encode_injective(body@, s@.drop_last());
        }
        (body, "\n")
    } else {
        (s, "")
    }
}

// Numbers.

/// One decimal digit.
pub open spec fn digit(d: nat) -> char {
    (48 + d) as char
}

/// A number in decimal.
pub open spec fn decimal(n: nat) -> Seq<char>
    decreases n,
{
    if n < 10 {
        seq![digit(n)]
    } else {
        decimal(n / 10).push(digit(n % 10))
    }
}

/// Writes a number in decimal to the end of `out`.
pub fn push_decimal(out: &mut String, n: usize)
    ensures
        final(out)@ == old(out)@ + decimal(n as nat),
    decreases n,
{
    if n >= 10 {
        push_decimal(out, n / 10);
    }
    let d: u8 = (n % 10) as u8;
    out.push((48u8 + d) as char);
    proof {
        if n < 10 {
            assert(decimal(n as nat) == seq![digit(n as nat)]);
        }
    }
}

/// `s`, filled up with spaces on the left to `width` characters.
pub open spec fn padded(s: Seq<char>, width: nat) -> Seq<char> {
    if s.len() < width {
        Seq::new((width - s.len()) as nat, |i: int| ' ') + s
    } else {
        s
    }
}

/// Writes a number in decimal, filled up on the left to `width` characters, to the end of `out`.
pub fn push_padded(out: &mut String, n: usize, width: usize)
    ensures
        final(out)@ == old(out)@ + padded(decimal(n as nat), width as nat),
{
    let ghost start = out@;
    let mut number = String::new();
    push_decimal(&mut number, n);
    let len = number.as_str().unicode_len();
    let mut k: usize = len;
    while k < width
        invariant
            len <= k,
            len < width ==> k <= width,
            len >= width ==> k == len,
            out@ == start + Seq::new((k - len) as nat, |i: int| ' '),
        decreases width - k,
    {
        let ghost spaces = Seq::new((k - len) as nat, |i: int| ' ');
        out.push(' ');
        k = k + 1;
        proof {
            assert(spaces.push(' ') == Seq::new((k - len) as nat, |i: int| ' '));
        }
    }
    out.append(number.as_str());
    proof {
        let d = decimal(n as nat);
        assert(number@ == d);
        if len >= width {
            assert(Seq::new(0, |i: int| ' ') + d == d);
            assert(start + Seq::new(0, |i: int| ' ') == start);
            assert(out@ == start + d);
        } else {
            assert(out@ == start + (Seq::new((width - len) as nat, |i: int| ' ') + d));
        }
    }
}

// What holds of lines and numbers.

/// Parts that are joined stand one after the other, and nothing between them.
pub proof fn law_join_puts_parts_one_after_the_other(
    a: Seq<Seq<char>>,
    b: Seq<Seq<char>>,
    one: Seq<char>,
)
    ensures
        join(a + b) == join(a) + join(b),
        join(seq![one]) == one,
        join(Seq::<Seq<char>>::empty()) == Seq::<char>::empty(),
    decreases b.len(),
{
    assert(seq![one].drop_last() == Seq::<Seq<char>>::empty());
    assert(Seq::<char>::empty() + one == one);
    assert(join(Seq::<Seq<char>>::empty()) == Seq::<char>::empty());
    if b.len() == 0 {
        assert(a + b == a);
        assert(join(a) + join(b) == join(a));
    } else {
        law_join_puts_parts_one_after_the_other(a, b.drop_last(), one);
        assert((a + b).drop_last() == a + b.drop_last());
        assert(join(a) + join(b.drop_last()) + b.last() == join(a) + join(b));
    }
}

/// The lines of a text are the text, each of them ends at its first newline, and only the last
/// may be without one.
pub proof fn law_each_line_ends_at_its_newline(t: Seq<char>)
    ensures
        join(lines_of(t)) == t,
        forall|i: int| 0 <= i < lines_of(t).len() ==> (#[trigger] lines_of(t)[i]).len() > 0,
        forall|i: int, j: int|
            0 <= i < lines_of(t).len() && 0 <= j < lines_of(t)[i].len() - 1
                ==> #[trigger] lines_of(t)[i][j] != '\n',
        forall|i: int|
            0 <= i < lines_of(t).len() - 1 ==> (#[trigger] lines_of(t)[i])[lines_of(t)[i].len() - 1]
                == '\n',
{
    law_lines_partition_text(t);
    assert forall|i: int| 0 <= i < lines_of(t).len() implies (#[trigger] lines_of(t)[i]).len()
        > 0 by {
        assert(is_line(lines_of(t)[i]));
    }
    assert forall|i: int, j: int|
        0 <= i < lines_of(t).len() && 0 <= j < lines_of(t)[i].len() - 1 implies
        #[trigger] lines_of(t)[i][j] != '\n' by {
        assert(is_line(lines_of(t)[i]));
    }
}

/// A line is what stands before its newline, and the newline that ends it, if one does.
pub proof fn law_line_is_its_body_and_its_newline(raw: Seq<char>)
    ensures
        body_of(raw) + newline_of(raw) == raw,
        raw.len() > 0 && raw[raw.len() - 1] == '\n' ==> newline_of(raw).len() == 1,
        raw.len() == 0 || raw[raw.len() - 1] != '\n' ==> newline_of(raw).len() == 0,
{
    assert(body_of(raw) + newline_of(raw) == raw);
}

/// The number that digits stand for.
pub open spec fn value(digits: Seq<char>) -> int
    decreases digits.len(),
{
    if digits.len() == 0 {
        0
    } else {
        10 * value(digits.drop_last()) + (digits.last() as int - '0' as int)
    }
}

/// A number in decimal stands for that number, is made of digits, and has no zero in front.
pub proof fn law_decimal_stands_for_the_number(n: nat)
    ensures
        value(decimal(n)) == n,
        decimal(n).len() > 0,
        forall|i: int| 0 <= i < decimal(n).len() ==> '0' <= #[trigger] decimal(n)[i] <= '9',
        decimal(n)[0] == '0' ==> n == 0 && decimal(n).len() == 1,
    decreases n,
{
    if n < 10 {
        assert(decimal(n).drop_last() == Seq::<char>::empty());
        assert(value(decimal(n).drop_last()) == 0);
        assert(decimal(n).last() as int == 48 + n);
    } else {
        law_decimal_stands_for_the_number(n / 10);
        assert(decimal(n).drop_last() == decimal(n / 10));
        assert(decimal(n).last() as int == 48 + n % 10);
        assert forall|i: int| 0 <= i < decimal(n).len() implies '0' <= #[trigger] decimal(n)[i]
            <= '9' by {
            if i < decimal(n / 10).len() {
                assert(decimal(n)[i] == decimal(n / 10)[i]);
            }
        }
        assert(decimal(n)[0] == decimal(n / 10)[0]);
    }
}

/// What is filled up to a width has that width, or is what it was where it is wider, and ends in
/// what it was; all before that are spaces.
pub proof fn law_padding_is_spaces_on_the_left(s: Seq<char>, width: nat)
    ensures
        padded(s, width).len() == if s.len() < width {
            width
        } else {
            s.len()
        },
        padded(s, width).skip(padded(s, width).len() - s.len()) == s,
        forall|i: int|
            0 <= i < padded(s, width).len() - s.len() ==> #[trigger] padded(s, width)[i] == ' ',
{
    assert(padded(s, width).skip(padded(s, width).len() - s.len()) == s);
}

} // verus!
