//! A line as a list of segments: the matches in it, and the text between them.
use regex::Regex;
use vstd::prelude::*;

use crate::engine::{
    captures_source, captures_span, captures_span_of, captures_spans, escaped, expand,
    find_captures, find_spans, occurrences, regex_expansion, regex_source, regex_spans, span_views,
    stands_for, valid_spans,
};
use crate::lines::{join, lemma_join_push, string_views};
use crate::text::{
    byte_len, byte_slice, lemma_slice, lemma_slice_ends, lemma_slices_join, on_boundary, slice_str,
    str_len,
};

verus! {

/// The segments as text and flag.
pub open spec fn seg_views(segments: Seq<(String, bool)>) -> Seq<(Seq<char>, bool)> {
    Seq::new(segments.len(), |i: int| (segments[i].0@, segments[i].1))
}

/// The texts of the segments.
pub open spec fn seg_texts(segments: Seq<(Seq<char>, bool)>) -> Seq<Seq<char>> {
    Seq::new(segments.len(), |i: int| segments[i].0)
}

/// The text that the segments make up together.
pub open spec fn seg_text(segments: Seq<(Seq<char>, bool)>) -> Seq<char> {
    join(seg_texts(segments))
}

/// The texts of the highlighted segments, in order.
pub open spec fn highlighted(segments: Seq<(Seq<char>, bool)>) -> Seq<Seq<char>>
    decreases segments.len(),
{
    if segments.len() == 0 {
        seq![]
    } else if segments.last().1 {
        highlighted(segments.drop_last()).push(segments.last().0)
    } else {
        highlighted(segments.drop_last())
    }
}

/// Where the first `k` matches end.
pub open spec fn end_of(spans: Seq<(int, int)>, k: int) -> int {
    if k == 0 {
        0
    } else {
        spans[k - 1].1
    }
}

/// The segments up to the end of the first `k` matches, with `texts` in place of the matches.
pub open spec fn woven(
    body: Seq<char>,
    spans: Seq<(int, int)>,
    texts: Seq<Seq<char>>,
    k: nat,
) -> Seq<(Seq<char>, bool)>
    decreases k,
{
    if k == 0 {
        seq![]
    } else {
        let before = woven(body, spans, texts, (k - 1) as nat);
        let last = end_of(spans, k - 1);
        let start = spans[k - 1].0;
        let gap = if start > last {
            before.push((byte_slice(body, last, start), false))
        } else {
            before
        };
        gap.push((texts[k - 1], true))
    }
}

/// A line with `texts` in place of its matches: each of them highlighted, and what stands
/// between, before and after the matches as it was. There are no empty segments between
/// matches.
pub open spec fn segments(
    body: Seq<char>,
    spans: Seq<(int, int)>,
    texts: Seq<Seq<char>>,
) -> Seq<(Seq<char>, bool)> {
    let all = woven(body, spans, texts, spans.len());
    let last = end_of(spans, spans.len() as int);
    if last < byte_len(body) {
        all.push((byte_slice(body, last, byte_len(body) as int), false))
    } else {
        all
    }
}

/// The texts that were matched.
pub open spec fn matched_texts(body: Seq<char>, spans: Seq<(int, int)>) -> Seq<Seq<char>> {
    Seq::new(spans.len(), |i: int| byte_slice(body, spans[i].0, spans[i].1))
}

/// The texts that take the place of the matches: the replacement as it stands, or with its
/// references to groups resolved.
pub open spec fn replacement_texts(
    source: (Seq<char>, bool),
    body: Seq<char>,
    replacement: Seq<char>,
    fixed: bool,
) -> Seq<Seq<char>> {
    Seq::new(
        regex_spans(source, body).len(),
        |i: int|
            if fixed {
                replacement
            } else {
                regex_expansion((source, body, i), replacement)
            },
    )
}

proof fn lemma_seg_text_push(segs: Seq<(Seq<char>, bool)>, last: (Seq<char>, bool))
    ensures
        seg_text(segs.push(last)) == seg_text(segs) + last.0,
{
    assert(seg_texts(segs.push(last)) == seg_texts(segs).push(last.0));
    lemma_join_push(seg_texts(segs), last.0);
}

proof fn lemma_highlighted_push(segs: Seq<(Seq<char>, bool)>, last: (Seq<char>, bool))
    ensures
        highlighted(segs.push(last)) == if last.1 {
            highlighted(segs).push(last.0)
        } else {
            highlighted(segs)
        },
{
    assert(segs.push(last).drop_last() == segs);
}

/// One more segment adds its text to the highlighted ones, or nothing.
pub proof fn lemma_highlighted_take(segs: Seq<(Seq<char>, bool)>, i: int)
    requires
        0 <= i < segs.len(),
    ensures
        highlighted(segs.take(i + 1)) == if segs[i].1 {
            highlighted(segs.take(i)).push(segs[i].0)
        } else {
            highlighted(segs.take(i))
        },
        highlighted(segs.take(i + 1)).len() <= highlighted(segs).len(),
    decreases segs.len() - i,
{
    assert(segs.take(i + 1) == segs.take(i).push(segs[i]));
    lemma_highlighted_push(segs.take(i), segs[i]);
    if i + 1 < segs.len() {
        lemma_highlighted_take(segs, i + 1);
    } else {
        assert(segs.take(i + 1) == segs);
    }
}

/// Where a match ends is a boundary, and so is the start of the text.
pub proof fn lemma_end_boundary(body: Seq<char>, spans: Seq<(int, int)>, k: int)
    requires
        valid_spans(body, spans),
        0 <= k <= spans.len(),
    ensures
        on_boundary(body, end_of(spans, k)),
        0 <= end_of(spans, k) <= byte_len(body),
        k < spans.len() ==> end_of(spans, k) <= spans[k].0,
{
    lemma_slice_ends(body);
    if k > 0 {
        assert(on_boundary(body, spans[k - 1].1));
        if k < spans.len() {
            assert(spans[k - 1].1 <= spans[k].0);
        }
    }
}

/// With the matches left in place, the segments up to a match make up the line up to its end.
pub proof fn lemma_woven_original(body: Seq<char>, spans: Seq<(int, int)>, k: nat)
    requires
        valid_spans(body, spans),
        k <= spans.len(),
    ensures
        seg_text(woven(body, spans, matched_texts(body, spans), k)) == byte_slice(
            body,
            0,
            end_of(spans, k as int),
        ),
    decreases k,
{
    let texts = matched_texts(body, spans);
    lemma_end_boundary(body, spans, k as int);
    lemma_slice_ends(body);
    if k == 0 {
        lemma_slice(body, 0, 0);
        assert(seg_texts(woven(body, spans, texts, 0)) == Seq::<Seq<char>>::empty());
        assert(byte_slice(body, 0, 0) == Seq::<char>::empty()) by {
            let e = vstd::utf8::encode_utf8(body).subrange(0, 0);
            assert(e == Seq::<u8>::empty());
        }
    } else {
        let j = (k - 1) as nat;
        lemma_woven_original(body, spans, j);
        lemma_end_boundary(body, spans, j as int);
        let before = woven(body, spans, texts, j);
        let last = end_of(spans, j as int);
        let start = spans[k - 1].0;
        let end = spans[k - 1].1;
        assert(on_boundary(body, start) && on_boundary(body, end));
        lemma_slices_join(body, 0, last, start);
        lemma_slices_join(body, 0, start, end);
        let gap = if start > last {
            before.push((byte_slice(body, last, start), false))
        } else {
            before
        };
        if start > last {
            lemma_seg_text_push(before, (byte_slice(body, last, start), false));
        }
        assert(seg_text(gap) == byte_slice(body, 0, start));
        lemma_seg_text_push(gap, (texts[k - 1], true));
    }
}

/// With the matches left in place, the segments of a line make up the line.
pub proof fn law_original_segments_are_the_line(body: Seq<char>, spans: Seq<(int, int)>)
    requires
        valid_spans(body, spans),
    ensures
        seg_text(segments(body, spans, matched_texts(body, spans))) == body,
{
    let n = spans.len();
    let texts = matched_texts(body, spans);
    let all = woven(body, spans, texts, n);
    let last = end_of(spans, n as int);
    let len = byte_len(body) as int;
    lemma_woven_original(body, spans, n);
    lemma_end_boundary(body, spans, n as int);
    lemma_slice_ends(body);
    if last < len {
        lemma_slices_join(body, 0, last, len);
        lemma_seg_text_push(all, (byte_slice(body, last, len), false));
    }
}

proof fn lemma_woven_highlighted(
    body: Seq<char>,
    spans: Seq<(int, int)>,
    texts: Seq<Seq<char>>,
    k: nat,
)
    requires
        k <= texts.len(),
    ensures
        highlighted(woven(body, spans, texts, k)) == texts.take(k as int),
    decreases k,
{
    if k == 0 {
        assert(texts.take(0) == Seq::<Seq<char>>::empty());
    } else {
        let j = (k - 1) as nat;
        lemma_woven_highlighted(body, spans, texts, j);
        let before = woven(body, spans, texts, j);
        let last = end_of(spans, j as int);
        let start = spans[k - 1].0;
        if start > last {
            let gap = before.push((byte_slice(body, last, start), false));
            lemma_highlighted_push(before, (byte_slice(body, last, start), false));
            lemma_highlighted_push(gap, (texts[k - 1], true));
        } else {
            lemma_highlighted_push(before, (texts[k - 1], true));
        }
        assert(texts.take(k as int) == texts.take(j as int).push(texts[k - 1]));
    }
}

/// The highlighted segments are exactly the texts put in place of the matches: as many as there
/// are matches, and in their order.
pub proof fn law_highlights_are_the_matches(
    body: Seq<char>,
    spans: Seq<(int, int)>,
    texts: Seq<Seq<char>>,
)
    requires
        texts.len() == spans.len(),
    ensures
        highlighted(segments(body, spans, texts)) == texts,
{
    let n = spans.len();
    lemma_woven_highlighted(body, spans, texts, n);
    assert(texts.take(n as int) == texts);
    let all = woven(body, spans, texts, n);
    let last = end_of(spans, n as int);
    if last < byte_len(body) {
        lemma_highlighted_push(all, (byte_slice(body, last, byte_len(body) as int), false));
    }
}

/// Two lists of segments that differ in nothing but the text of highlighted segments.
pub open spec fn same_but_highlights(
    a: Seq<(Seq<char>, bool)>,
    b: Seq<(Seq<char>, bool)>,
) -> bool {
    &&& a.len() == b.len()
    &&& forall|i: int|
        #![trigger a[i]]
        #![trigger b[i]]
        0 <= i < a.len() ==> a[i].1 == b[i].1 && (!a[i].1 ==> a[i].0 == b[i].0)
}

proof fn lemma_woven_same(
    body: Seq<char>,
    spans: Seq<(int, int)>,
    a: Seq<Seq<char>>,
    b: Seq<Seq<char>>,
    k: nat,
)
    ensures
        same_but_highlights(woven(body, spans, a, k), woven(body, spans, b, k)),
    decreases k,
{
    if k > 0 {
        lemma_woven_same(body, spans, a, b, (k - 1) as nat);
    }
}

/// A replacement touches the matches only: all other text of a line stays, in its place.
pub proof fn law_replacement_keeps_the_rest(
    body: Seq<char>,
    spans: Seq<(int, int)>,
    a: Seq<Seq<char>>,
    b: Seq<Seq<char>>,
)
    ensures
        same_but_highlights(segments(body, spans, a), segments(body, spans, b)),
{
    lemma_woven_same(body, spans, a, b, spans.len());
}

/// The same segments once more.
pub fn copy_segments(segments: &Vec<(String, bool)>) -> (r: Vec<(String, bool)>)
    ensures
        seg_views(r@) == seg_views(segments@),
{
    let mut out: Vec<(String, bool)> = Vec::new();
    let mut i: usize = 0;
    while i < segments.len()
        invariant
            i <= segments@.len(),
            out@.len() == i,
            forall|j: int|
                #![trigger out@[j]]
                0 <= j < i ==> out@[j].0@ == segments@[j].0@ && out@[j].1 == segments@[j].1,
        decreases segments@.len() - i,
    {
        out.push((segments[i].0.clone(), segments[i].1));
        i = i + 1;
    }
    proof {
        assert(seg_views(out@) == seg_views(segments@));
    }
    out
}

/// A line with `texts` in place of its matches.
pub fn weave_segments(body: &str, spans: &Vec<(usize, usize)>, texts: &Vec<String>) -> (r: Vec<
    (String, bool),
>)
    requires
        valid_spans(body@, span_views(spans@)),
        texts@.len() == spans@.len(),
    ensures
        seg_views(r@) == segments(body@, span_views(spans@), string_views(texts@)),
{
    let ghost sv = span_views(spans@);
    let ghost tv = string_views(texts@);
    let mut out: Vec<(String, bool)> = Vec::new();
    let mut last: usize = 0;
    let mut i: usize = 0;
    proof {
        assert(seg_views(out@) == woven(body@, sv, tv, 0));
    }
    while i < spans.len()
        invariant
            sv == span_views(spans@),
            tv == string_views(texts@),
            valid_spans(body@, sv),
            texts@.len() == spans@.len(),
            i <= spans@.len(),
            last == end_of(sv, i as int),
            seg_views(out@) == woven(body@, sv, tv, i as nat),
        decreases spans@.len() - i,
    {
        let (start, end) = spans[i];
        proof {
            lemma_end_boundary(body@, sv, i as int);
            assert(sv[i as int] == (start as int, end as int));
        }
        let ghost before = seg_views(out@);
        if start > last {
            let piece = slice_str(body, last, start).to_owned();
            let ghost pv = piece@;
            out.push((piece, false));
            proof {
                assert(seg_views(out@) == before.push((pv, false)));
            }
        }
        let ghost gap = seg_views(out@);
        let text = texts[i].clone();
        out.push((text, true));
        proof {
            assert(text@ == tv[i as int]);
            assert(seg_views(out@) == gap.push((tv[i as int], true)));
        }
        last = end;
        i = i + 1;
    }
    let len = str_len(body);
    proof {
        lemma_end_boundary(body@, sv, i as int);
        lemma_slice_ends(body@);
    }
    if last < len {
        let ghost before = seg_views(out@);
        let piece = slice_str(body, last, len).to_owned();
        let ghost pv = piece@;
        out.push((piece, false));
        proof {
            assert(seg_views(out@) == before.push((pv, false)));
        }
    }
    out
}

/// The texts that stand at the given places of a line.
pub fn slice_spans(body: &str, spans: &Vec<(usize, usize)>) -> (r: Vec<String>)
    requires
        valid_spans(body@, span_views(spans@)),
    ensures
        string_views(r@) == matched_texts(body@, span_views(spans@)),
{
    let ghost sv = span_views(spans@);
    let mut out: Vec<String> = Vec::new();
    let mut i: usize = 0;
    while i < spans.len()
        invariant
            sv == span_views(spans@),
            valid_spans(body@, sv),
            i <= spans@.len(),
            out@.len() == i,
            forall|j: int| 0 <= j < i ==> (#[trigger] out@[j])@ == matched_texts(body@, sv)[j],
        decreases spans@.len() - i,
    {
        let (start, end) = spans[i];
        proof {
            assert(sv[i as int] == (start as int, end as int));
        }
        out.push(slice_str(body, start, end).to_owned());
        i = i + 1;
    }
    proof {
        assert(string_views(out@) == matched_texts(body@, sv));
    }
    out
}

/// The segments of a line as it is, its matches highlighted.
pub fn segment_original(body: &str, re: &Regex) -> (r: Vec<(String, bool)>)
    ensures
        seg_views(r@) == segments(
            body@,
            regex_spans(regex_source(*re), body@),
            matched_texts(body@, regex_spans(regex_source(*re), body@)),
        ),
        seg_text(seg_views(r@)) == body@,
        highlighted(seg_views(r@)) == matched_texts(body@, regex_spans(regex_source(*re), body@)),
        forall|literal: Seq<char>, i: int|
            #![trigger escaped(literal), highlighted(seg_views(r@))[i]]
            stands_for(regex_source(*re), literal) && 0 <= i < highlighted(seg_views(r@)).len()
                ==> highlighted(seg_views(r@))[i] == literal,
        valid_spans(body@, regex_spans(regex_source(*re), body@)),
        forall|literal: Seq<char>| #[trigger]
            escaped(literal) == regex_source(*re).0 && !regex_source(*re).1 ==> regex_spans(
                regex_source(*re),
                body@,
            ) == occurrences(literal, body@, 0),
{
    let spans = find_spans(re, body);
    let texts = slice_spans(body, &spans);
    proof {
        assert(string_views(texts@).len() == span_views(spans@).len());
        law_original_segments_are_the_line(body@, span_views(spans@));
        law_highlights_are_the_matches(body@, span_views(spans@), string_views(texts@));
        assert forall|literal: Seq<char>, i: int|
            #![trigger escaped(literal), string_views(texts@)[i]]
            stands_for(regex_source(*re), literal) && 0 <= i < texts@.len() implies string_views(
            texts@,
        )[i] == literal by {
            let span = spans@[i];
        }
    }
    weave_segments(body, &spans, &texts)
}

/// The segments of a line with its matches replaced, the replacements highlighted, and the
/// number of matches.
pub fn segment_replacement(body: &str, re: &Regex, repl: &str, fixed: bool) -> (r: (
    Vec<(String, bool)>,
    usize,
))
    ensures
        seg_views(r.0@) == segments(
            body@,
            regex_spans(regex_source(*re), body@),
            replacement_texts(regex_source(*re), body@, repl@, fixed),
        ),
        r.1 == regex_spans(regex_source(*re), body@).len(),
        highlighted(seg_views(r.0@)) == replacement_texts(regex_source(*re), body@, repl@, fixed),
        !fixed ==> forall|i: int|
            0 <= i < r.1 ==> #[trigger] highlighted(seg_views(r.0@))[i] == regex_expansion(
                (regex_source(*re), body@, i),
                repl@,
            ),
        fixed ==> forall|i: int|
            0 <= i < r.1 ==> #[trigger] highlighted(seg_views(r.0@))[i] == repl@,
        valid_spans(body@, regex_spans(regex_source(*re), body@)),
        forall|literal: Seq<char>| #[trigger]
            escaped(literal) == regex_source(*re).0 && !regex_source(*re).1 ==> regex_spans(
                regex_source(*re),
                body@,
            ) == occurrences(literal, body@, 0),
{
    let found = find_captures(re, body);
    let ghost source = regex_source(*re);
    let ghost want = replacement_texts(source, body@, repl@, fixed);
    let mut spans: Vec<(usize, usize)> = Vec::new();
    let mut texts: Vec<String> = Vec::new();
    let mut i: usize = 0;
    proof {
        assert(captures_spans(found@).len() == found@.len());
    }
    while i < found.len()
        invariant
            source == regex_source(*re),
            want == replacement_texts(source, body@, repl@, fixed),
            want.len() == found@.len(),
            i <= found@.len(),
            spans@.len() == i,
            texts@.len() == i,
            forall|j: int|
                #![trigger found@[j]]
                0 <= j < found@.len() ==> captures_source(found@[j]) == (source, body@, j),
            forall|j: int|
                #![trigger spans@[j]]
                0 <= j < i ==> (spans@[j].0 as int, spans@[j].1 as int) == captures_span_of(
                    found@[j],
                ),
            forall|j: int| 0 <= j < i ==> (#[trigger] texts@[j])@ == want[j],
        decreases found@.len() - i,
    {
        let span = captures_span(&found[i]);
        let mut text = String::new();
        if fixed {
            text.append(repl);
        } else {
            expand(&found[i], repl, &mut text);
        }
        proof {
            assert(text@ == want[i as int]);
        }
        spans.push(span);
        texts.push(text);
        i = i + 1;
    }
    proof {
        assert(span_views(spans@) == captures_spans(found@));
        assert(string_views(texts@) == want);
        law_highlights_are_the_matches(body@, span_views(spans@), want);
    }
    (weave_segments(body, &spans, &texts), i)
}

/// Segments make up their texts one after the other, and the highlighted ones among them are
/// those that are marked, in their order.
pub proof fn law_segments_are_read_from_left_to_right(
    a: Seq<(Seq<char>, bool)>,
    b: Seq<(Seq<char>, bool)>,
    one: (Seq<char>, bool),
)
    ensures
        seg_text(a + b) == seg_text(a) + seg_text(b),
        seg_text(seq![one]) == one.0,
        highlighted(a + b) == highlighted(a) + highlighted(b),
        highlighted(seq![one]) == if one.1 {
            seq![one.0]
        } else {
            seq![]
        },
    decreases b.len(),
{
    let none = Seq::<(Seq<char>, bool)>::empty();
    assert(seg_texts(none) == Seq::<Seq<char>>::empty());
    lemma_seg_text_push(none, one);
    lemma_highlighted_push(none, one);
    assert(seq![one] == none.push(one));
    assert(Seq::<char>::empty() + one.0 == one.0);
    assert(Seq::<Seq<char>>::empty().push(one.0) == seq![one.0]);
    if b.len() == 0 {
        assert(a + b == a);
        assert(b == none);
        assert(seg_text(a) + seg_text(b) == seg_text(a));
        assert(highlighted(a) + highlighted(b) == highlighted(a));
    } else {
        let rest = b.drop_last();
        law_segments_are_read_from_left_to_right(a, rest, one);
        lemma_seg_text_push(a + rest, b.last());
        lemma_seg_text_push(rest, b.last());
        lemma_highlighted_push(a + rest, b.last());
        lemma_highlighted_push(rest, b.last());
        assert(a + b == (a + rest).push(b.last()));
        assert(b == rest.push(b.last()));
        assert(highlighted(a + b) == highlighted(a) + highlighted(b));
    }
}

/// Two lines that differ in nothing but highlighted text have as many segments, marked alike, and
/// the same text in those that are not marked.
pub proof fn law_unmarked_segments_are_the_same(
    a: Seq<(Seq<char>, bool)>,
    b: Seq<(Seq<char>, bool)>,
)
    requires
        same_but_highlights(a, b),
    ensures
        a.len() == b.len(),
        forall|i: int|
            0 <= i < a.len() ==> (#[trigger] a[i]).1 == b[i].1 && (!a[i].1 ==> a[i].0 == b[i].0),
{
}

} // verus!
