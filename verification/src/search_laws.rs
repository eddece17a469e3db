//! What a search is for: which lines it changes, and what they turn into.
use vstd::prelude::*;

use crate::edit::{
    changes_upto, differs, line_match, matched_upto, new_lines, noops_upto, sum_matches, FileEdit,
    LineMatchView, SourcePath,
};
use crate::engine::{regex_expansion, regex_spans, valid_spans};
use crate::lines::{body_of, join, lemma_join_push, newline_of};
use crate::process::{found_in, is_edit_of, law_result_iff_some_line_matches};
use crate::segments::{
    highlighted, law_highlights_are_the_matches, law_original_segments_are_the_line, matched_texts,
    replacement_texts, seg_text, seg_texts, segments, woven,
};
use crate::text::{byte_len, byte_slice, lemma_slice_ends};

verus! {

/// What stands between two matches of a line, before the first or after the last.
pub open spec fn gap(body: Seq<char>, spans: Seq<(int, int)>, k: int) -> Seq<char> {
    let from = if k == 0 {
        0
    } else {
        spans[k - 1].1
    };
    let to = if k < spans.len() {
        spans[k].0
    } else {
        byte_len(body) as int
    };
    byte_slice(body, from, to)
}

/// A line up to the end of its first `k` matches, with `texts` in place of the matches.
pub open spec fn filled_upto(
    body: Seq<char>,
    spans: Seq<(int, int)>,
    texts: Seq<Seq<char>>,
    k: nat,
) -> Seq<char>
    decreases k,
{
    if k == 0 {
        seq![]
    } else {
        filled_upto(body, spans, texts, (k - 1) as nat) + gap(body, spans, k - 1) + texts[k - 1]
    }
}

/// A line with `texts` in place of its matches, and all else as it was.
pub open spec fn filled(
    body: Seq<char>,
    spans: Seq<(int, int)>,
    texts: Seq<Seq<char>>,
) -> Seq<char> {
    filled_upto(body, spans, texts, spans.len()) + gap(body, spans, spans.len() as int)
}

/// What takes the place of the `k`-th match of a line: the replacement as it stands, or with its
/// references resolved to the groups of that match.
pub open spec fn put_in(
    source: (Seq<char>, bool),
    body: Seq<char>,
    replacement: Seq<char>,
    fixed: bool,
    k: int,
) -> Seq<char> {
    if fixed {
        replacement
    } else {
        regex_expansion((source, body, k), replacement)
    }
}

/// A line with every match replaced.
pub open spec fn replaced(
    source: (Seq<char>, bool),
    body: Seq<char>,
    replacement: Seq<char>,
    fixed: bool,
) -> Seq<char> {
    let spans = regex_spans(source, body);
    filled(
        body,
        spans,
        Seq::new(spans.len(), |k: int| put_in(source, body, replacement, fixed, k)),
    )
}

/// The matches in each of the lines are such as the engine gives them.
pub open spec fn spans_fit(source: (Seq<char>, bool), lines: Seq<Seq<char>>) -> bool {
    forall|i: int|
        #![trigger lines[i]]
        0 <= i < lines.len() ==> valid_spans(
            body_of(lines[i]),
            regex_spans(source, body_of(lines[i])),
        )
}

/// The matches in those of the first `k` lines that are what they were with their matches
/// replaced, or in those that are not.
pub open spec fn matches_where(
    source: (Seq<char>, bool),
    lines: Seq<Seq<char>>,
    replacement: Seq<char>,
    fixed: bool,
    same: bool,
    k: nat,
) -> int
    decreases k,
{
    if k == 0 {
        0
    } else {
        let body = body_of(lines[k - 1]);
        matches_where(source, lines, replacement, fixed, same, (k - 1) as nat) + if same == (
        replaced(source, body, replacement, fixed) == body) {
            regex_spans(source, body).len() as int
        } else {
            0
        }
    }
}

proof fn lemma_no_text(body: Seq<char>, at: int)
    ensures
        0 <= at <= byte_len(body) ==> byte_slice(body, at, at) == Seq::<char>::empty(),
{
    if 0 <= at <= byte_len(body) {
        let e = vstd::utf8::encode_utf8(body).subrange(at, at);
        assert(e == Seq::<u8>::empty());
    }
}

proof fn lemma_seg_push(segs: Seq<(Seq<char>, bool)>, last: (Seq<char>, bool))
    ensures
        seg_text(segs.push(last)) == seg_text(segs) + last.0,
{
    assert(seg_texts(segs.push(last)) == seg_texts(segs).push(last.0));
    lemma_join_push(seg_texts(segs), last.0);
}

proof fn lemma_woven_filled(
    body: Seq<char>,
    spans: Seq<(int, int)>,
    texts: Seq<Seq<char>>,
    k: nat,
)
    requires
        valid_spans(body, spans),
        k <= spans.len(),
        texts.len() == spans.len(),
    ensures
        seg_text(woven(body, spans, texts, k)) == filled_upto(body, spans, texts, k),
    decreases k,
{
    if k == 0 {
        assert(seg_texts(woven(body, spans, texts, 0)) == Seq::<Seq<char>>::empty());
    } else {
        let j = (k - 1) as nat;
        lemma_woven_filled(body, spans, texts, j);
        let before = woven(body, spans, texts, j);
        let last = if j == 0 {
            0
        } else {
            spans[j - 1].1
        };
        let start = spans[k - 1].0;
        let piece = (byte_slice(body, last, start), false);
        if j > 0 {
            assert(spans[j - 1].1 <= spans[k - 1].0);
        }
        if start > last {
            lemma_seg_push(before, piece);
            lemma_seg_push(before.push(piece), (texts[k - 1], true));
        } else {
            lemma_no_text(body, start);
            assert(filled_upto(body, spans, texts, j) + Seq::<char>::empty() == filled_upto(
                body,
                spans,
                texts,
                j,
            ));
            lemma_seg_push(before, (texts[k - 1], true));
        }
    }
}

/// The segments of a line with texts in place of its matches make up the line in which each
/// match has given way to its text, and what stands before, between and after them has stayed.
pub proof fn law_segments_fill_the_line(
    body: Seq<char>,
    spans: Seq<(int, int)>,
    texts: Seq<Seq<char>>,
)
    requires
        valid_spans(body, spans),
        texts.len() == spans.len(),
    ensures
        seg_text(segments(body, spans, texts)) == filled(body, spans, texts),
{
    let n = spans.len();
    lemma_woven_filled(body, spans, texts, n);
    let all = woven(body, spans, texts, n);
    let last = if n == 0 {
        0
    } else {
        spans[n - 1].1
    };
    let rest = byte_slice(body, last, byte_len(body) as int);
    if last < byte_len(body) {
        lemma_seg_push(all, (rest, false));
    } else {
        lemma_no_text(body, last);
        assert(filled_upto(body, spans, texts, n) + Seq::<char>::empty() == filled_upto(
            body,
            spans,
            texts,
            n,
        ));
    }
}

/// Each match of a line is expanded from its own groups: where the replacement is not plain
/// text, the `i`-th highlighted part of the new line is what the replacement comes to for the
/// `i`-th match.
pub proof fn law_each_match_is_expanded_from_its_own_groups(
    source: (Seq<char>, bool),
    body: Seq<char>,
    replacement: Seq<char>,
)
    ensures
        ({
            let spans = regex_spans(source, body);
            let new = segments(body, spans, replacement_texts(source, body, replacement, false));
            &&& highlighted(new).len() == spans.len()
            &&& forall|i: int|
                0 <= i < spans.len() ==> #[trigger] highlighted(new)[i] == regex_expansion(
                    (source, body, i),
                    replacement,
                )
        }),
{
    let spans = regex_spans(source, body);
    law_highlights_are_the_matches(
        body,
        spans,
        replacement_texts(source, body, replacement, false),
    );
}

/// The highlighted parts of a line as it is are what stands at the places of its matches.
pub proof fn law_highlights_of_the_line_are_what_was_matched(
    body: Seq<char>,
    spans: Seq<(int, int)>,
)
    ensures
        ({
            let orig = segments(body, spans, matched_texts(body, spans));
            &&& highlighted(orig).len() == spans.len()
            &&& forall|i: int|
                0 <= i < spans.len() ==> #[trigger] highlighted(orig)[i] == byte_slice(
                    body,
                    spans[i].0,
                    spans[i].1,
                )
        }),
{
    law_highlights_are_the_matches(body, spans, matched_texts(body, spans));
}

proof fn lemma_replaced(
    source: (Seq<char>, bool),
    body: Seq<char>,
    replacement: Seq<char>,
    fixed: bool,
)
    requires
        valid_spans(body, regex_spans(source, body)),
    ensures
        seg_text(
            segments(
                body,
                regex_spans(source, body),
                replacement_texts(source, body, replacement, fixed),
            ),
        ) == replaced(source, body, replacement, fixed),
        regex_spans(source, body).len() == 0 ==> replaced(source, body, replacement, fixed)
            == body,
{
    let spans = regex_spans(source, body);
    let texts = replacement_texts(source, body, replacement, fixed);
    assert(texts == Seq::new(
        spans.len(),
        |k: int| put_in(source, body, replacement, fixed, k),
    ));
    law_segments_fill_the_line(body, spans, texts);
    lemma_slice_ends(body);
}

proof fn lemma_line_found(
    source: (Seq<char>, bool),
    lines: Seq<Seq<char>>,
    replacement: Seq<char>,
    fixed: bool,
    i: int,
)
    requires
        0 <= i < lines.len(),
        spans_fit(source, lines),
    ensures
        ({
            let found = found_in(source, lines, replacement, fixed);
            let body = body_of(lines[i]);
            let new = replaced(source, body, replacement, fixed);
            &&& differs(lines[i], found[i]) <==> new != body
            &&& new_lines(lines, found)[i] == new + newline_of(lines[i])
            &&& found[i] is Some <==> regex_spans(source, body).len() > 0
            &&& found[i] matches Some(m) ==> {
                &&& seg_text(m.new) == new
                &&& m.count == regex_spans(source, body).len()
            }
        }),
{
    let body = body_of(lines[i]);
    assert(valid_spans(body_of(lines[i]), regex_spans(source, body_of(lines[i]))));
    lemma_replaced(source, body, replacement, fixed);
    assert(body + newline_of(lines[i]) == lines[i]);
}

/// What a search makes of a text: line by line, every match is replaced and all other text
/// stays, also where nothing is left of a line but its newline.
pub proof fn law_new_text_has_every_match_replaced(
    edit: FileEdit,
    path: SourcePath,
    source: (Seq<char>, bool),
    lines: Seq<Seq<char>>,
    replacement: Seq<char>,
    fixed: bool,
)
    requires
        is_edit_of(Some(edit), path, lines, found_in(source, lines, replacement, fixed)),
        spans_fit(source, lines),
    ensures
        edit.path == path,
        edit.line_views() == lines,
        edit.new_text@ == join(
            Seq::new(
                lines.len(),
                |i: int|
                    replaced(source, body_of(lines[i]), replacement, fixed) + newline_of(lines[i]),
            ),
        ),
{
    let found = found_in(source, lines, replacement, fixed);
    let want = Seq::new(
        lines.len(),
        |i: int| replaced(source, body_of(lines[i]), replacement, fixed) + newline_of(lines[i]),
    );
    assert forall|i: int| 0 <= i < lines.len() implies new_lines(lines, found)[i] == want[i] by {
        lemma_line_found(source, lines, replacement, fixed, i);
    }
    assert(new_lines(lines, found) == want);
}

/// What is found line by line: the changes and the counts of a search.
pub proof fn lemma_changes(
    source: (Seq<char>, bool),
    lines: Seq<Seq<char>>,
    replacement: Seq<char>,
    fixed: bool,
    k: nat,
)
    requires
        spans_fit(source, lines),
        k <= lines.len(),
    ensures
        ({
            let found = found_in(source, lines, replacement, fixed);
            let changes = changes_upto(lines, found, k);
            &&& forall|i: int|
                #![trigger lines[i]]
                0 <= i < k && replaced(source, body_of(lines[i]), replacement, fixed) != body_of(
                    lines[i],
                ) ==> exists|c: int|
                    0 <= c < changes.len() && (#[trigger] changes[c]).line_idx == i
            &&& forall|c: int| 0 <= c < changes.len() ==> 0 <= (#[trigger] changes[c]).line_idx < k
            &&& forall|c: int|
                0 <= c < changes.len() ==> {
                    let change = #[trigger] changes[c];
                    let body = body_of(lines[change.line_idx]);
                    let spans = regex_spans(source, body);
                    &&& replaced(source, body, replacement, fixed) != body
                    &&& seg_text(change.new) == replaced(source, body, replacement, fixed)
                    &&& change.orig == segments(body, spans, matched_texts(body, spans))
                    &&& change.new == segments(
                        body,
                        spans,
                        replacement_texts(source, body, replacement, fixed),
                    )
                    &&& change.match_count == spans.len()
                }
            &&& forall|c: int, d: int|
                #![trigger changes[c], changes[d]]
                0 <= c < d < changes.len() ==> changes[c].line_idx < changes[d].line_idx
            &&& noops_upto(lines, found, k) == matches_where(
                source,
                lines,
                replacement,
                fixed,
                true,
                k,
            )
            &&& sum_matches(changes) == matches_where(
                source,
                lines,
                replacement,
                fixed,
                false,
                k,
            )
        }),
    decreases k,
{
    if k > 0 {
        let j = (k - 1) as nat;
        let found = found_in(source, lines, replacement, fixed);
        lemma_changes(source, lines, replacement, fixed, j);
        lemma_line_found(source, lines, replacement, fixed, k - 1);
        let before = changes_upto(lines, found, j);
        let changes = changes_upto(lines, found, k);
        if differs(lines[k - 1], found[k - 1]) {
            assert(changes.drop_last() == before);
        }
        assert forall|i: int|
            #![trigger lines[i]]
            0 <= i < k && replaced(source, body_of(lines[i]), replacement, fixed) != body_of(
                lines[i],
            ) implies exists|c: int|
            0 <= c < changes.len() && (#[trigger] changes[c]).line_idx == i by {
            if i < j {
                let c = choose|c: int|
                    0 <= c < before.len() && (#[trigger] before[c]).line_idx == i;
                assert(changes[c].line_idx == i);
            } else {
                assert(changes[changes.len() - 1].line_idx == i);
            }
        }
    }
}

/// A line is among the changes if and only if it is another one with its matches replaced. Each
/// change shows its line as it is and as it will be, and counts its matches; the changes are in
/// the order of their lines.
pub proof fn law_changes_are_the_lines_that_differ(
    edit: FileEdit,
    path: SourcePath,
    source: (Seq<char>, bool),
    lines: Seq<Seq<char>>,
    replacement: Seq<char>,
    fixed: bool,
)
    requires
        is_edit_of(Some(edit), path, lines, found_in(source, lines, replacement, fixed)),
        spans_fit(source, lines),
    ensures
        forall|i: int|
            #![trigger lines[i]]
            0 <= i < lines.len() && replaced(source, body_of(lines[i]), replacement, fixed)
                != body_of(lines[i]) ==> exists|c: int|
                0 <= c < edit.changes@.len() && (#[trigger] edit.changes@[c]).line_idx == i,
        forall|c: int|
            0 <= c < edit.changes@.len() ==> {
                let change = (#[trigger] edit.changes@[c])@;
                let body = body_of(lines[change.line_idx]);
                let spans = regex_spans(source, body);
                &&& 0 <= change.line_idx < lines.len()
                &&& replaced(source, body, replacement, fixed) != body
                &&& seg_text(change.orig) == body
                &&& seg_text(change.new) == replaced(source, body, replacement, fixed)
                &&& change.match_count == spans.len()
                &&& highlighted(change.orig).len() == spans.len()
                &&& highlighted(change.new).len() == spans.len()
                &&& forall|k: int|
                    0 <= k < spans.len() ==> #[trigger] highlighted(change.orig)[k] == byte_slice(
                        body,
                        spans[k].0,
                        spans[k].1,
                    )
                &&& forall|k: int|
                    0 <= k < spans.len() ==> #[trigger] highlighted(change.new)[k] == put_in(
                        source,
                        body,
                        replacement,
                        fixed,
                        k,
                    )
            },
        forall|c: int, d: int|
            #![trigger edit.changes@[c], edit.changes@[d]]
            0 <= c < d < edit.changes@.len() ==> edit.changes@[c].line_idx
                < edit.changes@[d].line_idx,
{
    let changes = edit.change_views();
    lemma_changes(source, lines, replacement, fixed, lines.len());
    assert forall|i: int|
        #![trigger lines[i]]
        0 <= i < lines.len() && replaced(source, body_of(lines[i]), replacement, fixed) != body_of(
            lines[i],
        ) implies exists|c: int|
        0 <= c < edit.changes@.len() && (#[trigger] edit.changes@[c]).line_idx == i by {
        let c = choose|c: int| 0 <= c < changes.len() && (#[trigger] changes[c]).line_idx == i;
        assert(edit.changes@[c].line_idx == i);
    }
    assert forall|c: int| 0 <= c < edit.changes@.len() implies {
        let change = (#[trigger] edit.changes@[c])@;
        let body = body_of(lines[change.line_idx]);
        let spans = regex_spans(source, body);
        &&& 0 <= change.line_idx < lines.len()
        &&& replaced(source, body, replacement, fixed) != body
        &&& seg_text(change.orig) == body
        &&& seg_text(change.new) == replaced(source, body, replacement, fixed)
        &&& change.match_count == spans.len()
        &&& highlighted(change.orig).len() == spans.len()
        &&& highlighted(change.new).len() == spans.len()
        &&& forall|k: int|
            0 <= k < spans.len() ==> #[trigger] highlighted(change.orig)[k] == byte_slice(
                body,
                spans[k].0,
                spans[k].1,
            )
        &&& forall|k: int|
            0 <= k < spans.len() ==> #[trigger] highlighted(change.new)[k] == put_in(
                source,
                body,
                replacement,
                fixed,
                k,
            )
    } by {
        let change = changes[c];
        assert(edit.changes@[c]@ == change);
        let i = change.line_idx;
        assert(0 <= i < lines.len());
        let body = body_of(lines[i]);
        let spans = regex_spans(source, body);
        assert(valid_spans(body_of(lines[i]), regex_spans(source, body_of(lines[i]))));
        law_original_segments_are_the_line(body, spans);
        law_highlights_of_the_line_are_what_was_matched(body, spans);
        law_highlights_are_the_matches(
            body,
            spans,
            replacement_texts(source, body, replacement, fixed),
        );
    }
    assert forall|c: int, d: int|
        #![trigger edit.changes@[c], edit.changes@[d]]
        0 <= c < d < edit.changes@.len() implies edit.changes@[c].line_idx
        < edit.changes@[d].line_idx by {
        assert(changes[c].line_idx < changes[d].line_idx);
    }
}

/// A search comes to nothing if and only if the engine finds nothing in any line.
pub proof fn law_nothing_is_found_where_nothing_matches(
    r: Option<FileEdit>,
    path: SourcePath,
    source: (Seq<char>, bool),
    lines: Seq<Seq<char>>,
    replacement: Seq<char>,
    fixed: bool,
)
    requires
        is_edit_of(r, path, lines, found_in(source, lines, replacement, fixed)),
    ensures
        r is None <==> forall|i: int|
            0 <= i < lines.len() ==> regex_spans(source, body_of(#[trigger] lines[i])).len() == 0,
{
    law_result_iff_some_line_matches(r, path, source, lines, replacement, fixed);
}

/// The matches that change nothing are those in the lines that are what they were with their
/// matches replaced; those that change something are all the others.
pub proof fn law_matches_are_counted_by_what_they_change(
    edit: FileEdit,
    path: SourcePath,
    source: (Seq<char>, bool),
    lines: Seq<Seq<char>>,
    replacement: Seq<char>,
    fixed: bool,
)
    requires
        is_edit_of(Some(edit), path, lines, found_in(source, lines, replacement, fixed)),
        spans_fit(source, lines),
    ensures
        edit.noop_count == matches_where(source, lines, replacement, fixed, true, lines.len()),
        sum_matches(edit.change_views()) == matches_where(
            source,
            lines,
            replacement,
            fixed,
            false,
            lines.len(),
        ),
{
    lemma_changes(source, lines, replacement, fixed, lines.len());
}

proof fn lemma_matched(
    source: (Seq<char>, bool),
    lines: Seq<Seq<char>>,
    replacement: Seq<char>,
    fixed: bool,
    k: nat,
)
    requires
        k <= lines.len(),
    ensures
        ({
            let matched = matched_upto(found_in(source, lines, replacement, fixed), k);
            &&& forall|i: int|
                #![trigger lines[i]]
                0 <= i < k && regex_spans(source, body_of(lines[i])).len() > 0 ==> exists|m: int|
                    0 <= m < matched.len() && (#[trigger] matched[m]).line_idx == i
            &&& forall|m: int|
                0 <= m < matched.len() ==> {
                    let line = #[trigger] matched[m];
                    let body = body_of(lines[line.line_idx]);
                    let spans = regex_spans(source, body);
                    &&& 0 <= line.line_idx < k
                    &&& spans.len() > 0
                    &&& line.orig == segments(body, spans, matched_texts(body, spans))
                }
            &&& forall|m: int, n: int|
                #![trigger matched[m], matched[n]]
                0 <= m < n < matched.len() ==> matched[m].line_idx < matched[n].line_idx
        }),
    decreases k,
{
    if k > 0 {
        let j = (k - 1) as nat;
        let found = found_in(source, lines, replacement, fixed);
        lemma_matched(source, lines, replacement, fixed, j);
        let before = matched_upto(found, j);
        let matched = matched_upto(found, k);
        assert(found[k - 1] is Some <==> regex_spans(source, body_of(lines[k - 1])).len() > 0);
        assert forall|i: int|
            #![trigger lines[i]]
            0 <= i < k && regex_spans(source, body_of(lines[i])).len() > 0 implies exists|m: int|
            0 <= m < matched.len() && (#[trigger] matched[m]).line_idx == i by {
            if i < j {
                let m = choose|m: int|
                    0 <= m < before.len() && (#[trigger] before[m]).line_idx == i;
                assert(matched[m].line_idx == i);
            } else {
                assert(matched[matched.len() - 1].line_idx == i);
            }
        }
    }
}

/// The lines with matches are exactly those in which the engine finds any, in their order, each
/// with what was matched in it highlighted.
pub proof fn law_matched_lines_are_those_with_matches(
    edit: FileEdit,
    path: SourcePath,
    source: (Seq<char>, bool),
    lines: Seq<Seq<char>>,
    replacement: Seq<char>,
    fixed: bool,
)
    requires
        is_edit_of(Some(edit), path, lines, found_in(source, lines, replacement, fixed)),
        spans_fit(source, lines),
    ensures
        forall|i: int|
            #![trigger lines[i]]
            0 <= i < lines.len() && regex_spans(source, body_of(lines[i])).len() > 0
                ==> exists|m: int|
                0 <= m < edit.matched@.len() && (#[trigger] edit.matched@[m]).line_idx == i,
        forall|m: int|
            0 <= m < edit.matched@.len() ==> {
                let line = (#[trigger] edit.matched@[m])@;
                let body = body_of(lines[line.line_idx]);
                let spans = regex_spans(source, body);
                &&& 0 <= line.line_idx < lines.len()
                &&& spans.len() > 0
                &&& seg_text(line.orig) == body
                &&& highlighted(line.orig).len() == spans.len()
                &&& forall|k: int|
                    0 <= k < spans.len() ==> #[trigger] highlighted(line.orig)[k] == byte_slice(
                        body,
                        spans[k].0,
                        spans[k].1,
                    )
            },
        forall|m: int, n: int|
            #![trigger edit.matched@[m], edit.matched@[n]]
            0 <= m < n < edit.matched@.len() ==> edit.matched@[m].line_idx
                < edit.matched@[n].line_idx,
{
    let matched = edit.matched_views();
    lemma_matched(source, lines, replacement, fixed, lines.len());
    assert forall|i: int|
        #![trigger lines[i]]
        0 <= i < lines.len() && regex_spans(source, body_of(lines[i])).len() > 0 implies exists|
        m: int,
    |
        0 <= m < edit.matched@.len() && (#[trigger] edit.matched@[m]).line_idx == i by {
        let m = choose|m: int| 0 <= m < matched.len() && (#[trigger] matched[m]).line_idx == i;
        assert(edit.matched@[m].line_idx == i);
    }
    assert forall|m: int| 0 <= m < edit.matched@.len() implies {
        let line = (#[trigger] edit.matched@[m])@;
        let body = body_of(lines[line.line_idx]);
        let spans = regex_spans(source, body);
        &&& 0 <= line.line_idx < lines.len()
        &&& spans.len() > 0
        &&& seg_text(line.orig) == body
        &&& highlighted(line.orig).len() == spans.len()
        &&& forall|k: int|
            0 <= k < spans.len() ==> #[trigger] highlighted(line.orig)[k] == byte_slice(
                body,
                spans[k].0,
                spans[k].1,
            )
    } by {
        let line = matched[m];
        assert(edit.matched@[m]@ == line);
        let i = line.line_idx;
        assert(0 <= i < lines.len());
        let body = body_of(lines[i]);
        let spans = regex_spans(source, body);
        assert(valid_spans(body_of(lines[i]), regex_spans(source, body_of(lines[i]))));
        law_original_segments_are_the_line(body, spans);
        law_highlights_of_the_line_are_what_was_matched(body, spans);
    }
    assert forall|m: int, n: int|
        #![trigger edit.matched@[m], edit.matched@[n]]
        0 <= m < n < edit.matched@.len() implies edit.matched@[m].line_idx
        < edit.matched@[n].line_idx by {
        assert(matched[m].line_idx < matched[n].line_idx);
    }
}

// Whatever was found.

/// The lines as they are with what was found in them replaced.
pub open spec fn lines_with_findings(
    lines: Seq<Seq<char>>,
    found: Seq<Option<LineMatchView>>,
) -> Seq<Seq<char>> {
    Seq::new(
        lines.len(),
        |i: int|
            match found[i] {
                Some(m) => seg_text(m.new) + newline_of(lines[i]),
                None => lines[i],
            },
    )
}

/// The matches in those of the first `k` lines that are what they were with what was found in them
/// replaced.
pub open spec fn idle_findings(
    lines: Seq<Seq<char>>,
    found: Seq<Option<LineMatchView>>,
    k: nat,
) -> int
    decreases k,
{
    if k == 0 {
        0
    } else {
        idle_findings(lines, found, (k - 1) as nat) + match found[k - 1] {
            Some(m) => if seg_text(m.new) == body_of(lines[k - 1]) {
                m.count
            } else {
                0
            },
            None => 0,
        }
    }
}

proof fn lemma_findings(lines: Seq<Seq<char>>, found: Seq<Option<LineMatchView>>, k: nat)
    requires
        k <= lines.len() == found.len(),
    ensures
        noops_upto(lines, found, k) == idle_findings(lines, found, k),
        ({
            let changes = changes_upto(lines, found, k);
            &&& forall|i: int|
                #![trigger found[i]]
                0 <= i < k && found[i] is Some && seg_text(found[i]->0.new) != body_of(lines[i])
                    ==> exists|c: int|
                    0 <= c < changes.len() && (#[trigger] changes[c]).line_idx == i
            &&& forall|c: int|
                0 <= c < changes.len() ==> {
                    let change = #[trigger] changes[c];
                    let i = change.line_idx;
                    &&& 0 <= i < k
                    &&& found[i] matches Some(m) && seg_text(m.new) != body_of(lines[i])
                        && change.orig == m.orig && change.new == m.new && change.match_count
                        == m.count
                }
        }),
    decreases k,
{
    if k > 0 {
        let j = (k - 1) as nat;
        lemma_findings(lines, found, j);
        let before = changes_upto(lines, found, j);
        let changes = changes_upto(lines, found, k);
        assert forall|i: int|
            #![trigger found[i]]
            0 <= i < k && found[i] is Some && seg_text(found[i]->0.new) != body_of(
                lines[i],
            ) implies exists|c: int|
            0 <= c < changes.len() && (#[trigger] changes[c]).line_idx == i by {
            if i < j {
                let c = choose|c: int|
                    0 <= c < before.len() && (#[trigger] before[c]).line_idx == i;
                assert(changes[c].line_idx == i);
            } else {
                assert(changes[changes.len() - 1].line_idx == i);
            }
        }
    }
}

/// Whatever was found in the lines of a file: a line is changed if and only if it is another one
/// with what was found in it replaced, the new text is that of the lines so replaced, and the
/// matches in the other lines are counted as those that change nothing.
pub proof fn law_findings_that_differ_are_changes(
    edit: FileEdit,
    path: SourcePath,
    lines: Seq<Seq<char>>,
    found: Seq<Option<LineMatchView>>,
)
    requires
        is_edit_of(Some(edit), path, lines, found),
        lines.len() == found.len(),
    ensures
        edit.new_text@ == join(lines_with_findings(lines, found)),
        edit.noop_count == idle_findings(lines, found, lines.len()),
        forall|i: int|
            #![trigger found[i]]
            0 <= i < lines.len() && found[i] is Some && seg_text(found[i]->0.new) != body_of(
                lines[i],
            ) ==> exists|c: int|
                0 <= c < edit.changes@.len() && (#[trigger] edit.changes@[c]).line_idx == i,
        forall|c: int|
            0 <= c < edit.changes@.len() ==> {
                let change = (#[trigger] edit.changes@[c])@;
                let i = change.line_idx;
                &&& 0 <= i < lines.len()
                &&& found[i] matches Some(m) && seg_text(m.new) != body_of(lines[i])
                    && change.orig == m.orig && change.new == m.new && change.match_count
                    == m.count
            },
{
    let changes = edit.change_views();
    lemma_findings(lines, found, lines.len());
    assert forall|i: int| 0 <= i < lines.len() implies new_lines(lines, found)[i]
        == lines_with_findings(lines, found)[i] by {
        assert(body_of(lines[i]) + newline_of(lines[i]) == lines[i]);
    }
    assert(new_lines(lines, found) == lines_with_findings(lines, found));
    assert forall|i: int|
        #![trigger found[i]]
        0 <= i < lines.len() && found[i] is Some && seg_text(found[i]->0.new) != body_of(
            lines[i],
        ) implies exists|c: int|
        0 <= c < edit.changes@.len() && (#[trigger] edit.changes@[c]).line_idx == i by {
        let c = choose|c: int| 0 <= c < changes.len() && (#[trigger] changes[c]).line_idx == i;
        assert(edit.changes@[c].line_idx == i);
    }
    assert forall|c: int| 0 <= c < edit.changes@.len() implies {
        let change = (#[trigger] edit.changes@[c])@;
        let i = change.line_idx;
        &&& 0 <= i < lines.len()
        &&& found[i] matches Some(m) && seg_text(m.new) != body_of(lines[i]) && change.orig
            == m.orig && change.new == m.new && change.match_count == m.count
    } by {
        assert(edit.changes@[c]@ == changes[c]);
    }
}

/// A line has matches if and only if the engine finds some in it. Then as many are counted as it
/// finds, the line is shown as it is and with each match replaced, and what is highlighted is
/// what was matched and what takes its place.
pub proof fn law_line_matches_where_the_engine_finds_something(
    source: (Seq<char>, bool),
    body: Seq<char>,
    replacement: Seq<char>,
    fixed: bool,
)
    requires
        valid_spans(body, regex_spans(source, body)),
    ensures
        ({
            let spans = regex_spans(source, body);
            match line_match(source, body, replacement, fixed) {
                None => spans.len() == 0,
                Some(m) => {
                    &&& spans.len() > 0
                    &&& m.count == spans.len()
                    &&& seg_text(m.orig) == body
                    &&& seg_text(m.new) == replaced(source, body, replacement, fixed)
                    &&& highlighted(m.orig).len() == spans.len()
                    &&& highlighted(m.new).len() == spans.len()
                    &&& forall|k: int|
                        0 <= k < spans.len() ==> #[trigger] highlighted(m.orig)[k] == byte_slice(
                            body,
                            spans[k].0,
                            spans[k].1,
                        )
                    &&& forall|k: int|
                        0 <= k < spans.len() ==> #[trigger] highlighted(m.new)[k] == put_in(
                            source,
                            body,
                            replacement,
                            fixed,
                            k,
                        )
                },
            }
        }),
{
    let spans = regex_spans(source, body);
    lemma_replaced(source, body, replacement, fixed);
    law_original_segments_are_the_line(body, spans);
    law_highlights_of_the_line_are_what_was_matched(body, spans);
    law_highlights_are_the_matches(
        body,
        spans,
        replacement_texts(source, body, replacement, fixed),
    );
}

} // verus!
