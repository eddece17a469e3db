//! What accepting some of the matches makes of a file.
use vstd::prelude::*;

use crate::edit::{
    accepted_line, accepted_text, change_at, changes_upto, differs, matches_before, picked,
    sum_matches, ChangeView, FileEdit, SourcePath,
};
use crate::engine::{regex_spans, valid_spans};
use crate::lines::{body_of, join, newline_of};
use crate::process::{found_in, is_edit_of};
use crate::search_laws::{
    filled, law_changes_are_the_lines_that_differ, law_segments_fill_the_line, lemma_changes,
    matches_where, put_in, replaced, spans_fit,
};
use crate::segments::{
    highlighted, matched_texts, replacement_texts, seg_text, seg_texts, segments, woven,
};
use crate::text::{byte_len, byte_slice, lemma_slice_ends};

verus! {

/// A line with those of its matches replaced that are accepted, and the others as they were. Its
/// first match has the number `first`.
pub open spec fn partly_replaced(
    source: (Seq<char>, bool),
    body: Seq<char>,
    replacement: Seq<char>,
    fixed: bool,
    accepted: Set<int>,
    first: int,
) -> Seq<char> {
    let spans = regex_spans(source, body);
    filled(
        body,
        spans,
        Seq::new(
            spans.len(),
            |k: int|
                if accepted.contains(first + k) {
                    put_in(source, body, replacement, fixed, k)
                } else {
                    byte_slice(body, spans[k].0, spans[k].1)
                },
        ),
    )
}

/// A line of a text after the matches with these numbers are replaced, counted through the lines
/// that a replacement of all matches would change.
pub open spec fn line_after(
    source: (Seq<char>, bool),
    lines: Seq<Seq<char>>,
    replacement: Seq<char>,
    fixed: bool,
    accepted: Set<int>,
    i: int,
) -> Seq<char> {
    let body = body_of(lines[i]);
    if replaced(source, body, replacement, fixed) == body {
        lines[i]
    } else {
        let first = matches_where(source, lines, replacement, fixed, false, i as nat);
        partly_replaced(source, body, replacement, fixed, accepted, first) + newline_of(lines[i])
    }
}

/// The texts of which those with an accepted number are new.
spec fn mixed(old: Seq<Seq<char>>, new: Seq<Seq<char>>, accepted: Set<int>, first: int) -> Seq<
    Seq<char>,
> {
    Seq::new(
        old.len(),
        |k: int|
            if accepted.contains(first + k) {
                new[k]
            } else {
                old[k]
            },
    )
}

proof fn lemma_picked_push(
    a: Seq<(Seq<char>, bool)>,
    b: Seq<(Seq<char>, bool)>,
    x: (Seq<char>, bool),
    y: (Seq<char>, bool),
    accepted: Set<int>,
    first: int,
)
    requires
        a.len() == b.len(),
    ensures
        picked(a.push(x), b.push(y), accepted, first) == picked(a, b, accepted, first).push(
            if y.1 && !accepted.contains(first + highlighted(b).len()) {
                x.0
            } else {
                y.0
            },
        ),
{
    let p = picked(a.push(x), b.push(y), accepted, first);
    let q = picked(a, b, accepted, first);
    assert forall|i: int| 0 <= i < b.len() implies p[i] == #[trigger] q[i] by {
        assert(b.push(y).take(i) == b.take(i));
    }
    assert(b.push(y).take(b.len() as int) == b);
    assert(p == q.push(
        if y.1 && !accepted.contains(first + highlighted(b).len()) {
            x.0
        } else {
            y.0
        },
    ));
}

proof fn lemma_woven_picked(
    body: Seq<char>,
    spans: Seq<(int, int)>,
    old: Seq<Seq<char>>,
    new: Seq<Seq<char>>,
    accepted: Set<int>,
    first: int,
    k: nat,
)
    requires
        k <= spans.len(),
        old.len() == spans.len(),
        new.len() == spans.len(),
    ensures
        ({
            let a = woven(body, spans, old, k);
            let b = woven(body, spans, new, k);
            let c = woven(body, spans, mixed(old, new, accepted, first), k);
            &&& a.len() == b.len() == c.len()
            &&& highlighted(b).len() == k
            &&& picked(a, b, accepted, first) == seg_texts(c)
        }),
    decreases k,
{
    let mix = mixed(old, new, accepted, first);
    if k == 0 {
        assert(picked(seq![], seq![], accepted, first) == seg_texts(woven(body, spans, mix, 0)));
    } else {
        let j = (k - 1) as nat;
        lemma_woven_picked(body, spans, old, new, accepted, first, j);
        let a = woven(body, spans, old, j);
        let b = woven(body, spans, new, j);
        let c = woven(body, spans, mix, j);
        let last = if j == 0 {
            0
        } else {
            spans[j - 1].1
        };
        let start = spans[k - 1].0;
        let piece = (byte_slice(body, last, start), false);
        if start > last {
            lemma_picked_push(a, b, piece, piece, accepted, first);
            assert(b.push(piece).drop_last() == b);
            lemma_picked_push(
                a.push(piece),
                b.push(piece),
                (old[j as int], true),
                (new[j as int], true),
                accepted,
                first,
            );
            assert(b.push(piece).push((new[j as int], true)).drop_last() == b.push(piece));
            assert(seg_texts(c.push(piece).push((mix[j as int], true))) == seg_texts(c).push(
                piece.0,
            ).push(mix[j as int]));
        } else {
            lemma_picked_push(
                a,
                b,
                (old[j as int], true),
                (new[j as int], true),
                accepted,
                first,
            );
            assert(b.push((new[j as int], true)).drop_last() == b);
            assert(seg_texts(c.push((mix[j as int], true))) == seg_texts(c).push(mix[j as int]));
        }
    }
}

proof fn lemma_segments_picked(
    body: Seq<char>,
    spans: Seq<(int, int)>,
    old: Seq<Seq<char>>,
    new: Seq<Seq<char>>,
    accepted: Set<int>,
    first: int,
)
    requires
        old.len() == spans.len(),
        new.len() == spans.len(),
    ensures
        join(picked(segments(body, spans, old), segments(body, spans, new), accepted, first))
            == seg_text(segments(body, spans, mixed(old, new, accepted, first))),
{
    let n = spans.len();
    let mix = mixed(old, new, accepted, first);
    lemma_woven_picked(body, spans, old, new, accepted, first, n);
    let a = woven(body, spans, old, n);
    let b = woven(body, spans, new, n);
    let c = woven(body, spans, mix, n);
    let last = if n == 0 {
        0
    } else {
        spans[n - 1].1
    };
    let rest = (byte_slice(body, last, byte_len(body) as int), false);
    lemma_picked_push(a, b, rest, rest, accepted, first);
    assert(seg_texts(c.push(rest)) == seg_texts(c).push(rest.0));
}

/// The changes before that of a line are those found up to that line.
proof fn lemma_changes_before(
    source: (Seq<char>, bool),
    lines: Seq<Seq<char>>,
    replacement: Seq<char>,
    fixed: bool,
    i: nat,
    k: nat,
)
    requires
        i <= k <= lines.len(),
    ensures
        ({
            let found = found_in(source, lines, replacement, fixed);
            let part = changes_upto(lines, found, i);
            let all = changes_upto(lines, found, k);
            &&& part.len() <= all.len()
            &&& all.take(part.len() as int) == part
            &&& i < k && differs(lines[i as int], found[i as int]) ==> part.len() < all.len()
                && all[part.len() as int].line_idx == i
        }),
    decreases k,
{
    let found = found_in(source, lines, replacement, fixed);
    let part = changes_upto(lines, found, i);
    let all = changes_upto(lines, found, k);
    if i == k {
        assert(all.take(part.len() as int) == part);
    } else {
        lemma_changes_before(source, lines, replacement, fixed, i, (k - 1) as nat);
        let less = changes_upto(lines, found, (k - 1) as nat);
        assert(all.take(part.len() as int) == less.take(part.len() as int));
    }
}

proof fn lemma_change_at(changes: Seq<ChangeView>, line: int, k: nat)
    requires
        k <= changes.len(),
    ensures
        change_at(changes, line, k) matches Some(c) ==> 0 <= c < k && changes[c].line_idx == line,
        change_at(changes, line, k) is None ==> forall|c: int|
            0 <= c < k ==> (#[trigger] changes[c]).line_idx != line,
    decreases k,
{
    if k > 0 {
        lemma_change_at(changes, line, (k - 1) as nat);
    }
}

/// With some matches accepted, a file of a search is the searched text in which exactly these
/// matches have given way to what the replacement comes to for them, and everything else is as
/// it was.
pub proof fn law_accepted_text_has_the_accepted_matches_replaced(
    edit: FileEdit,
    path: SourcePath,
    source: (Seq<char>, bool),
    lines: Seq<Seq<char>>,
    replacement: Seq<char>,
    fixed: bool,
    accepted: Set<int>,
)
    requires
        is_edit_of(Some(edit), path, lines, found_in(source, lines, replacement, fixed)),
        spans_fit(source, lines),
    ensures
        accepted_text(edit.line_views(), edit.change_views(), accepted) == join(
            Seq::new(
                lines.len(),
                |i: int| line_after(source, lines, replacement, fixed, accepted, i),
            ),
        ),
{
    let found = found_in(source, lines, replacement, fixed);
    let changes = edit.change_views();
    law_changes_are_the_lines_that_differ(edit, path, source, lines, replacement, fixed);
    assert forall|i: int| 0 <= i < lines.len() implies accepted_line(lines, changes, accepted, i)
        == #[trigger] line_after(source, lines, replacement, fixed, accepted, i) by {
        let body = body_of(lines[i]);
        let spans = regex_spans(source, body);
        lemma_change_at(changes, i, changes.len());
        assert(valid_spans(body_of(lines[i]), regex_spans(source, body_of(lines[i]))));
        if replaced(source, body, replacement, fixed) == body {
            if change_at(changes, i, changes.len()) is Some {
                let c = change_at(changes, i, changes.len())->0;
                assert(edit.changes@[c]@ == changes[c]);
            }
        } else {
            let c0 = choose|c: int|
                0 <= c < edit.changes@.len() && (#[trigger] edit.changes@[c]).line_idx == i;
            assert(changes[c0].line_idx == i);
            let c = change_at(changes, i, changes.len())->0;
            lemma_is_found(source, lines, replacement, fixed, i);
            lemma_changes_before(source, lines, replacement, fixed, i as nat, lines.len());
            let part = changes_upto(lines, found, i as nat);
            let d = part.len() as int;
            assert(changes[d].line_idx == i);
            if c != d {
                assert(edit.changes@[c].line_idx == edit.changes@[d].line_idx);
            }
            assert(matches_before(changes, c) == sum_matches(part));
            lemma_sum_is_count(source, lines, replacement, fixed, i as nat);
            let first = matches_before(changes, c);
            let old = matched_texts(body, spans);
            let new = replacement_texts(source, body, replacement, fixed);
            lemma_change_is_found(source, lines, replacement, fixed, lines.len(), c);
            lemma_segments_picked(body, spans, old, new, accepted, first);
            law_segments_fill_the_line(body, spans, mixed(old, new, accepted, first));
            assert(mixed(old, new, accepted, first) == Seq::new(
                spans.len(),
                |k: int|
                    if accepted.contains(first + k) {
                        put_in(source, body, replacement, fixed, k)
                    } else {
                        byte_slice(body, spans[k].0, spans[k].1)
                    },
            ));
        }
    }
    assert(Seq::new(lines.len(), |i: int| accepted_line(lines, changes, accepted, i)) == Seq::new(
        lines.len(),
        |i: int| line_after(source, lines, replacement, fixed, accepted, i),
    ));
}

proof fn lemma_is_found(
    source: (Seq<char>, bool),
    lines: Seq<Seq<char>>,
    replacement: Seq<char>,
    fixed: bool,
    i: int,
)
    requires
        0 <= i < lines.len(),
        spans_fit(source, lines),
        replaced(source, body_of(lines[i]), replacement, fixed) != body_of(lines[i]),
    ensures
        differs(lines[i], found_in(source, lines, replacement, fixed)[i]),
{
    let body = body_of(lines[i]);
    let spans = regex_spans(source, body);
    let new = replacement_texts(source, body, replacement, fixed);
    assert(valid_spans(body_of(lines[i]), regex_spans(source, body_of(lines[i]))));
    assert(new == Seq::new(spans.len(), |k: int| put_in(source, body, replacement, fixed, k)));
    law_segments_fill_the_line(body, spans, new);
    lemma_slice_ends(body);
    if spans.len() == 0 {
        assert(replaced(source, body, replacement, fixed) == body);
    }
}

proof fn lemma_sum_is_count(
    source: (Seq<char>, bool),
    lines: Seq<Seq<char>>,
    replacement: Seq<char>,
    fixed: bool,
    k: nat,
)
    requires
        k <= lines.len(),
        spans_fit(source, lines),
    ensures
        sum_matches(changes_upto(lines, found_in(source, lines, replacement, fixed), k))
            == matches_where(source, lines, replacement, fixed, false, k),
{
    lemma_changes(source, lines, replacement, fixed, k);
}

proof fn lemma_change_is_found(
    source: (Seq<char>, bool),
    lines: Seq<Seq<char>>,
    replacement: Seq<char>,
    fixed: bool,
    k: nat,
    c: int,
)
    requires
        k <= lines.len(),
        spans_fit(source, lines),
        0 <= c < changes_upto(lines, found_in(source, lines, replacement, fixed), k).len(),
    ensures
        ({
            let change = changes_upto(lines, found_in(source, lines, replacement, fixed), k)[c];
            let body = body_of(lines[change.line_idx]);
            let spans = regex_spans(source, body);
            &&& change.orig == segments(body, spans, matched_texts(body, spans))
            &&& change.new == segments(
                body,
                spans,
                replacement_texts(source, body, replacement, fixed),
            )
        }),
{
    lemma_changes(source, lines, replacement, fixed, k);
}

} // verus!
