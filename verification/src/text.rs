//! Text and the bytes that it takes up.
use vstd::prelude::*;
use vstd::utf8::*;

verus! {

/// The number of bytes that `s` takes up in UTF-8.
pub open spec fn byte_len(s: Seq<char>) -> nat {
    encode_utf8(s).len()
}

/// Byte offset `i` of `s` lies between two characters, or at an end.
pub open spec fn on_boundary(s: Seq<char>, i: int) -> bool {
    is_char_boundary(encode_utf8(s), i)
}

/// The part of `s` between the byte offsets `from` and `to`.
pub open spec fn byte_slice(s: Seq<char>, from: int, to: int) -> Seq<char> {
    decode_utf8(encode_utf8(s).subrange(from, to))
}

/// Encoding distributes over concatenation.
pub proof fn lemma_encode_concat(a: Seq<char>, b: Seq<char>)
    ensures
        encode_utf8(a + b) == encode_utf8(a) + encode_utf8(b),
    decreases a.len(),
{
    if a.len() == 0 {
        assert(a + b == b);
        assert(encode_utf8(a) + encode_utf8(b) == encode_utf8(b));
    } else {
        assert((a + b).drop_first() == a.drop_first() + b);
        lemma_encode_concat(a.drop_first(), b);
        assert((a + b)[0] == a[0]);
        assert(encode_utf8(a + b) == encode_utf8(a) + encode_utf8(b));
    }
}

/// Two texts with the same encoding are the same text.
pub proof fn lemma_encode_injective(a: Seq<char>, b: Seq<char>)
    requires
        encode_utf8(a) == encode_utf8(b),
    ensures
        a == b,
{
    encode_utf8_decode_utf8(a);
    encode_utf8_decode_utf8(b);
}

/// A prefix ends on a boundary of the whole.
pub proof fn lemma_prefix_boundary(a: Seq<char>, b: Seq<char>)
    ensures
        on_boundary(a + b, byte_len(a) as int),
        byte_len(a + b) == byte_len(a) + byte_len(b),
        byte_slice(a + b, 0, byte_len(a) as int) == a,
        byte_slice(a + b, byte_len(a) as int, byte_len(a + b) as int) == b,
{
    let x = encode_utf8(a);
    let y = encode_utf8(b);
    lemma_encode_concat(a, b);
    encode_utf8_valid_utf8(a);
    encode_utf8_valid_utf8(b);
    encode_utf8_valid_utf8(a + b);
    assert((x + y).subrange(0, x.len() as int) == x);
    assert((x + y).subrange(x.len() as int, (x + y).len() as int) == y);
    encode_utf8_decode_utf8(a);
    encode_utf8_decode_utf8(b);
    lemma_concat_boundary(x, y);
}

proof fn lemma_concat_boundary(x: Seq<u8>, y: Seq<u8>)
    requires
        valid_utf8(x),
        valid_utf8(y),
    ensures
        valid_utf8(x + y),
        is_char_boundary(x + y, x.len() as int),
{
    valid_utf8_concat(x, y);
    if y.len() == 0 {
        assert(x + y == x);
        is_char_boundary_start_end_of_seq(x);
    } else {
        is_char_boundary_start_end_of_seq(y);
        is_char_boundary_iff_not_is_continuation_byte(y, 0);
        assert((x + y)[x.len() as int] == y[0]);
        is_char_boundary_iff_not_is_continuation_byte(x + y, x.len() as int);
    }
}

/// Splitting text at a boundary gives two texts that join up to it.
pub proof fn lemma_split_boundary(s: Seq<char>, i: int)
    requires
        on_boundary(s, i),
    ensures
        0 <= i <= byte_len(s),
        byte_slice(s, 0, i) + byte_slice(s, i, byte_len(s) as int) == s,
        byte_len(byte_slice(s, 0, i)) == i,
        byte_len(byte_slice(s, i, byte_len(s) as int)) == byte_len(s) - i,
{
    let e = encode_utf8(s);
    encode_utf8_valid_utf8(s);
    lemma_boundary_range(e, i);
    valid_utf8_split(e, i);
    decode_utf8_split(e, i);
    encode_utf8_decode_utf8(s);
    decode_utf8_encode_utf8(e.subrange(0, i));
    decode_utf8_encode_utf8(e.subrange(i, e.len() as int));
}

proof fn lemma_boundary_range(e: Seq<u8>, i: int)
    requires
        valid_utf8(e),
        is_char_boundary(e, i),
    ensures
        0 <= i <= e.len(),
{
}

/// A slice between two boundaries encodes to the bytes between them.
pub proof fn lemma_slice(s: Seq<char>, from: int, to: int)
    requires
        from <= to,
        on_boundary(s, from),
        on_boundary(s, to),
    ensures
        0 <= from <= to <= byte_len(s),
        encode_utf8(byte_slice(s, from, to)) == encode_utf8(s).subrange(from, to),
        byte_len(byte_slice(s, from, to)) == to - from,
        is_char_boundary(encode_utf8(s).subrange(0, to), from),
        valid_utf8(encode_utf8(s).subrange(0, to)),
{
    let e = encode_utf8(s);
    encode_utf8_valid_utf8(s);
    lemma_boundary_range(e, from);
    lemma_boundary_range(e, to);
    valid_utf8_split(e, to);
    let p = e.subrange(0, to);
    if from == to {
        is_char_boundary_start_end_of_seq(p);
    } else {
        is_char_boundary_iff_not_is_continuation_byte(e, from);
        assert(p[from] == e[from]);
        is_char_boundary_iff_not_is_continuation_byte(p, from);
    }
    valid_utf8_split(p, from);
    assert(p.subrange(from, p.len() as int) == e.subrange(from, to));
    decode_utf8_encode_utf8(e.subrange(from, to));
}

/// Neighbouring slices join up.
pub proof fn lemma_slices_join(s: Seq<char>, a: int, b: int, c: int)
    requires
        a <= b <= c,
        on_boundary(s, a),
        on_boundary(s, b),
        on_boundary(s, c),
    ensures
        byte_slice(s, a, b) + byte_slice(s, b, c) == byte_slice(s, a, c),
{
    let e = encode_utf8(s);
    lemma_slice(s, a, b);
    lemma_slice(s, b, c);
    lemma_slice(s, a, c);
    lemma_encode_concat(byte_slice(s, a, b), byte_slice(s, b, c));
    assert(e.subrange(a, b) + e.subrange(b, c) == e.subrange(a, c));
    lemma_encode_injective(byte_slice(s, a, b) + byte_slice(s, b, c), byte_slice(s, a, c));
}

/// The whole of a text as a slice, and the empty slice.
pub proof fn lemma_slice_ends(s: Seq<char>)
    ensures
        on_boundary(s, 0),
        on_boundary(s, byte_len(s) as int),
        byte_slice(s, 0, byte_len(s) as int) == s,
{
    let e = encode_utf8(s);
    encode_utf8_valid_utf8(s);
    is_char_boundary_start_end_of_seq(e);
    assert(e.subrange(0, e.len() as int) == e);
    encode_utf8_decode_utf8(s);
}

/// Text takes up bytes, unless it is empty.
proof fn lemma_text_has_bytes(s: Seq<char>)
    ensures
        byte_len(s) > 0 <==> s.len() > 0,
{
    if s.len() > 0 {
        assert(encode_utf8(s) == encode_scalar(s[0] as u32) + encode_utf8(s.drop_first()));
    }
}

/// The part of a text between two characters, in bytes.
pub proof fn lemma_part_in_bytes(s: Seq<char>, a: int, b: int)
    requires
        0 <= a <= b <= s.len(),
    ensures
        on_boundary(s, byte_len(s.take(a)) as int),
        byte_len(s.take(a)) <= byte_len(s.take(b)) <= byte_len(s),
        byte_len(s.take(a)) == byte_len(s.take(b)) <==> a == b,
        byte_slice(s, byte_len(s.take(a)) as int, byte_len(s.take(b)) as int) == s.subrange(a, b),
{
    let part = s.subrange(a, b);
    assert(s.take(a) + s.skip(a) == s);
    assert(s.take(b) + s.skip(b) == s);
    assert(s.take(a) + part == s.take(b));
    lemma_prefix_boundary(s.take(a), s.skip(a));
    lemma_prefix_boundary(s.take(b), s.skip(b));
    lemma_encode_concat(s.take(a), part);
    lemma_encode_concat(s.take(b), s.skip(b));
    lemma_text_has_bytes(part);
    let from = byte_len(s.take(a)) as int;
    let to = byte_len(s.take(b)) as int;
    assert(encode_utf8(s).subrange(from, to) == encode_utf8(part));
    encode_utf8_decode_utf8(part);
}

/// The part of `s` between two byte offsets.
pub fn slice_str<'a>(s: &'a str, from: usize, to: usize) -> (r: &'a str)
    requires
        from <= to,
        on_boundary(s@, from as int),
        on_boundary(s@, to as int),
    ensures
        r@ == byte_slice(s@, from as int, to as int),
{
    proof {
        lemma_slice(s@, from as int, to as int);
    }
    let (head, _rest) = s.split_at(to);
    let (_skipped, part) = head.split_at(from);
    proof {
        let e = encode_utf8(s@);
        assert(e.subrange(0, to as int).subrange(from as int, to as int) == e.subrange(
            from as int,
            to as int,
        ));
        lemma_encode_injective(part@, byte_slice(s@, from as int, to as int));
    }
    part
}

/// The length of `s` in bytes.
pub fn str_len(s: &str) -> (r: usize)
    ensures
        r == byte_len(s@),
{
    s.as_bytes().len()
}

} // verus!
