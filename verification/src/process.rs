//! Searching the text of one file.
use regex::Regex;
use vstd::prelude::*;

use crate::edit::{
    accepted_line, accepted_text, change_at, change_views, changes_upto, fit_lines, matched_upto,
    matched_views, matches_before, picked, sum_matched, MatchedLine, MatchedView, count_of, differs,
    fits_line, in_line_order, line_match, match_views, matches_upto, new_lines, noops_upto,
    sum_matches, Change, ChangeView, FileEdit, LineMatch, LineMatchView, SourcePath,
};
use crate::engine::{
    escaped, is_match, law_text_is_found_where_it_occurs, occurrences, occurs_in, regex_source,
    regex_spans, stands_for, valid_spans,
};
use crate::lines::{
    are_lines, body_of, is_line, join, law_lines_partition_text, lemma_join_push, lines_of,
    newline_of, split_lines, split_nl, string_views,
};
use crate::search_laws::{law_new_text_has_every_match_replaced, replaced};
use crate::segments::{
    copy_segments, highlighted, law_highlights_are_the_matches, law_original_segments_are_the_line,
    law_replacement_keeps_the_rest, matched_texts, replacement_texts, seg_text, seg_texts,
    seg_views, segment_original, segment_replacement,
};
use crate::text::{byte_len, lemma_encode_concat};

verus! {

/// The text that a list of segments makes up.
pub fn concat_segments(segments: &Vec<(String, bool)>) -> (r: String)
    ensures
        r@ == seg_text(seg_views(segments@)),
{
    let ghost texts = seg_texts(seg_views(segments@));
    let mut out = String::new();
    let mut i: usize = 0;
    proof {
        assert(texts.take(0) == Seq::<Seq<char>>::empty());
    }
    while i < segments.len()
        invariant
            texts == seg_texts(seg_views(segments@)),
            i <= segments@.len(),
            out@ == join(texts.take(i as int)),
        decreases segments@.len() - i,
    {
        out.append(segments[i].0.as_str());
        proof {
            lemma_join_push(texts.take(i as int), texts[i as int]);
            assert(texts.take(i + 1) == texts.take(i as int).push(texts[i as int]));
        }
        i = i + 1;
    }
    proof {
        assert(texts.take(texts.len() as int) == texts);
    }
    out
}

/// What a search finds in a line.
pub fn match_line(body: &str, re: &Regex, repl: &str, fixed: bool) -> (r: Option<LineMatch>)
    ensures
        (match r {
            Some(m) => Some(m@),
            None => None,
        }) == line_match(regex_source(*re), body@, repl@, fixed),
        valid_spans(body@, regex_spans(regex_source(*re), body@)),
        forall|literal: Seq<char>| #[trigger]
            escaped(literal) == regex_source(*re).0 && !regex_source(*re).1 ==> (r is Some
                <==> occurs_in(literal, body@)),
        forall|literal: Seq<char>, i: int|
            #![trigger escaped(literal), highlighted(r->0@.orig)[i]]
            stands_for(regex_source(*re), literal) && r is Some && 0 <= i < highlighted(
                r->0@.orig,
            ).len() ==> highlighted(r->0@.orig)[i] == literal,
        forall|literal: Seq<char>| #[trigger]
            escaped(literal) == regex_source(*re).0 && !regex_source(*re).1 ==> regex_spans(
                regex_source(*re),
                body@,
            ) == occurrences(literal, body@, 0),
{
    if is_match(re, body) {
        let orig_segments = segment_original(body, re);
        let (new_segments, match_count) = segment_replacement(body, re, repl, fixed);
        Some(LineMatch { orig_segments, new_segments, match_count })
    } else {
        proof {
            let spans = regex_spans(regex_source(*re), body@);
            assert forall|literal: Seq<char>| #[trigger]
                escaped(literal) == regex_source(*re).0 && !regex_source(*re).1 implies spans
                == occurrences(literal, body@, 0) by {
                law_text_is_found_where_it_occurs(literal, body@);
                assert(spans =~= occurrences(literal, body@, 0));
            }
        }
        None
    }
}

/// What a search in these lines makes of a file: nothing if nothing was found, and else the
/// changed lines, the new text, and the number of matches that change nothing.
pub open spec fn is_edit_of(
    r: Option<FileEdit>,
    path: SourcePath,
    lines: Seq<Seq<char>>,
    found: Seq<Option<LineMatchView>>,
) -> bool {
    let changes = changes_upto(lines, found, lines.len());
    let noops = noops_upto(lines, found, lines.len());
    match r {
        None => changes.len() == 0 && noops == 0,
        Some(e) => {
            &&& changes.len() > 0 || noops > 0
            &&& e.path == path
            &&& e.line_views() == lines
            &&& e.matched_views() == matched_upto(found, lines.len())
            &&& e.change_views() == changes
            &&& e.new_text@ == join(new_lines(lines, found))
            &&& e.noop_count == noops
        },
    }
}

/// Counts do not go down from line to line.
proof fn lemma_counts(lines: Seq<Seq<char>>, found: Seq<Option<LineMatchView>>, k: nat, n: nat)
    requires
        k <= n <= found.len(),
        forall|i: int| 0 <= i < found.len() ==> count_of(#[trigger] found[i]) >= 0,
    ensures
        0 <= noops_upto(lines, found, k) <= matches_upto(found, k) <= matches_upto(found, n),
        noops_upto(lines, found, k) + sum_matches(changes_upto(lines, found, k)) == matches_upto(
            found,
            k,
        ),
    decreases n,
{
    if k < n {
        lemma_counts(lines, found, k, (n - 1) as nat);
        assert(count_of(found[n - 1]) >= 0);
    } else if n > 0 {
        let j = (n - 1) as nat;
        lemma_counts(lines, found, j, j);
        assert(count_of(found[n - 1]) >= 0);
        if differs(lines[n - 1], found[n - 1]) {
            let m = found[n - 1]->0;
            let before = changes_upto(lines, found, j);
            let c = ChangeView { line_idx: n - 1, orig: m.orig, new: m.new, match_count: m.count };
            assert(before.push(c).drop_last() == before);
        }
    }
}

/// The matches that are replaced and those whose replacement changes nothing are together all
/// the matches.
pub proof fn law_matches_are_replaced_or_not(
    edit: FileEdit,
    path: SourcePath,
    source: (Seq<char>, bool),
    lines: Seq<Seq<char>>,
    replacement: Seq<char>,
    fixed: bool,
)
    requires
        is_edit_of(Some(edit), path, lines, found_in(source, lines, replacement, fixed)),
    ensures
        sum_matches(edit.change_views()) + edit.noop_count == matches_upto(
            found_in(source, lines, replacement, fixed),
            lines.len(),
        ),
{
    let found = found_in(source, lines, replacement, fixed);
    assert forall|i: int| 0 <= i < found.len() implies count_of(#[trigger] found[i]) >= 0 by {}
    lemma_counts(lines, found, lines.len(), lines.len());
}

/// Puts together what was found in the lines of a file.
pub fn assemble_edit(
    path: SourcePath,
    lines: Vec<String>,
    matches: Vec<Option<LineMatch>>,
) -> (r: Option<FileEdit>)
    requires
        lines@.len() == matches@.len(),
        matches_upto(match_views(matches@), lines@.len()) <= usize::MAX,
    ensures
        is_edit_of(r, path, string_views(lines@), match_views(matches@)),
{
    let ghost lv = string_views(lines@);
    let ghost mv = match_views(matches@);
    let ghost nl = new_lines(lv, mv);
    let mut matched: Vec<MatchedLine> = Vec::new();
    let mut changes: Vec<Change> = Vec::new();
    let mut noop_count: usize = 0;
    let mut new_text = String::new();
    let mut idx: usize = 0;
    let n = lines.len();
    proof {
        assert(nl.take(0) == Seq::<Seq<char>>::empty());
        assert(change_views(changes@) == changes_upto(lv, mv, 0));
        assert(matched_views(matched@) == matched_upto(mv, 0));
    }
    for found in it: matches.into_iter()
        invariant
            it.seq() == matches@,
            lv == string_views(lines@),
            mv == match_views(matches@),
            nl == new_lines(lv, mv),
            lines@.len() == matches@.len(),
            matches_upto(mv, lv.len()) <= usize::MAX,
            idx == it.index(),
            n == lines@.len(),
            idx <= n,
            change_views(changes@) == changes_upto(lv, mv, idx as nat),
            matched_views(matched@) == matched_upto(mv, idx as nat),
            noop_count == noops_upto(lv, mv, idx as nat),
            new_text@ == join(nl.take(idx as int)),
    {
        proof {
            assert(found == matches@[idx as int]);
            assert forall|i: int| 0 <= i < mv.len() implies count_of(#[trigger] mv[i]) >= 0 by {}
            lemma_counts(lv, mv, (idx + 1) as nat, lv.len());
            lemma_join_push(nl.take(idx as int), nl[idx as int]);
            assert(nl.take(idx + 1) == nl.take(idx as int).push(nl[idx as int]));
        }
        let ghost before = change_views(changes@);
        let raw = lines[idx].as_str();
        let (body, newline) = split_nl(raw);
        match found {
            Some(m) => {
                let ghost listed = matched_views(matched@);
                let orig_segments = copy_segments(&m.orig_segments);
                matched.push(MatchedLine { line_idx: idx, orig_segments });
                proof {
                    assert(matched_views(matched@) == listed.push(
                        MatchedView { line_idx: idx as int, orig: m@.orig },
                    ));
                }
                let new_body = concat_segments(&m.new_segments);
                if new_body != body.to_owned() {
                    let ghost mm = m@;
                    changes.push(
                        Change {
                            line_idx: idx,
                            orig_segments: m.orig_segments,
                            new_segments: m.new_segments,
                            match_count: m.match_count,
                        },
                    );
                    let ghost prefix = new_text@;
                    new_text.append(new_body.as_str());
                    new_text.append(newline);
                    proof {
                        assert(differs(lv[idx as int], mv[idx as int]));
                        assert(change_views(changes@) == before.push(
                            ChangeView {
                                line_idx: idx as int,
                                orig: mm.orig,
                                new: mm.new,
                                match_count: mm.count,
                            },
                        ));
                        assert(new_text@ == prefix + nl[idx as int]);
                    }
                } else {
                    proof {
                        assert(!differs(lv[idx as int], mv[idx as int]));
                    }
                    noop_count = noop_count + m.match_count;
                    new_text.append(raw);
                }
            },
            None => {
                proof {
                    assert(!differs(lv[idx as int], mv[idx as int]));
                }
                new_text.append(raw);
            },
        }
        idx = idx + 1;
    }
    proof {
        assert(nl.take(nl.len() as int) == nl);
    }
    if changes.len() == 0 && noop_count == 0 {
        None
    } else {
        Some(FileEdit { path, lines, matched, changes, new_text, noop_count })
    }
}

/// What a search finds in each of these lines.
pub open spec fn found_in(
    source: (Seq<char>, bool),
    lines: Seq<Seq<char>>,
    replacement: Seq<char>,
    fixed: bool,
) -> Seq<Option<LineMatchView>> {
    Seq::new(lines.len(), |i: int| line_match(source, body_of(lines[i]), replacement, fixed))
}

/// A line holds at most one match more than it holds bytes.
proof fn lemma_span_count(body: Seq<char>, spans: Seq<(int, int)>, k: int)
    requires
        valid_spans(body, spans),
        0 <= k < spans.len(),
    ensures
        k <= spans[k].1 <= byte_len(body),
    decreases k,
{
    if k > 0 {
        lemma_span_count(body, spans, k - 1);
        assert(spans[k - 1].1 < spans[k].1);
    }
}

/// The matches in the first `k` lines of a text are at most as many as these lines have bytes,
/// but for one more where the last of them does not end in a newline.
proof fn lemma_match_bound(
    source: (Seq<char>, bool),
    lines: Seq<Seq<char>>,
    replacement: Seq<char>,
    fixed: bool,
    k: nat,
)
    requires
        k <= lines.len(),
        are_lines(lines),
        forall|i: int|
            #![trigger lines[i]]
            0 <= i < lines.len() ==> valid_spans(
                body_of(lines[i]),
                regex_spans(source, body_of(lines[i])),
            ),
    ensures
        matches_upto(found_in(source, lines, replacement, fixed), k) <= byte_len(
            join(lines.take(k as int)),
        ) + if k > 0 && lines[k - 1].last() != '\n' {
            1int
        } else {
            0int
        },
    decreases k,
{
    let found = found_in(source, lines, replacement, fixed);
    if k > 0 {
        let raw = lines[k - 1];
        let body = body_of(raw);
        let spans = regex_spans(source, body);
        lemma_match_bound(source, lines, replacement, fixed, (k - 1) as nat);
        lemma_join_push(lines.take(k - 1), raw);
        assert(lines.take(k as int) == lines.take(k - 1).push(raw));
        lemma_encode_concat(join(lines.take(k - 1)), raw);
        if k > 1 {
            assert(lines[k - 2].last() == '\n');
        }
        assert(valid_spans(body, spans));
        if spans.len() > 0 {
            lemma_span_count(body, spans, spans.len() - 1);
        }
        assert(is_line(lines[k - 1]));
        if raw.last() == '\n' {
            assert(raw == body + seq!['\n']);
            lemma_encode_concat(body, seq!['\n']);
            lemma_newline_byte();
        }
    }
}

proof fn lemma_newline_byte()
    ensures
        byte_len(seq!['\n']) == 1,
{
    let s = seq!['\n'];
    assert(vstd::utf8::is_ascii_chars(s));
    vstd::utf8::is_ascii_chars_encode_utf8(s);
}

/// Every line of a search result comes from the search.
proof fn lemma_changes_fit(
    source: (Seq<char>, bool),
    lines: Seq<Seq<char>>,
    replacement: Seq<char>,
    fixed: bool,
    k: nat,
)
    requires
        k <= lines.len(),
        forall|i: int|
            #![trigger lines[i]]
            0 <= i < lines.len() ==> valid_spans(
                body_of(lines[i]),
                regex_spans(source, body_of(lines[i])),
            ),
    ensures
        ({
            let changes = changes_upto(lines, found_in(source, lines, replacement, fixed), k);
            &&& in_line_order(changes)
            &&& forall|i: int|
                0 <= i < changes.len() ==> (#[trigger] changes[i]).line_idx < k && fits_line(
                    lines,
                    changes[i],
                )
        }),
    decreases k,
{
    if k > 0 {
        lemma_changes_fit(source, lines, replacement, fixed, (k - 1) as nat);
        let body = body_of(lines[k - 1]);
        let spans = regex_spans(source, body);
        assert(valid_spans(body, spans));
        law_original_segments_are_the_line(body, spans);
        law_highlights_are_the_matches(body, spans, matched_texts(body, spans));
        law_highlights_are_the_matches(
            body,
            spans,
            replacement_texts(source, body, replacement, fixed),
        );
        law_replacement_keeps_the_rest(
            body,
            spans,
            matched_texts(body, spans),
            replacement_texts(source, body, replacement, fixed),
        );
    }
}

/// Every line with matches comes from the search, and its matches are all counted.
proof fn lemma_matched_fit(
    source: (Seq<char>, bool),
    lines: Seq<Seq<char>>,
    replacement: Seq<char>,
    fixed: bool,
    k: nat,
)
    requires
        k <= lines.len(),
        forall|i: int|
            #![trigger lines[i]]
            0 <= i < lines.len() ==> valid_spans(
                body_of(lines[i]),
                regex_spans(source, body_of(lines[i])),
            ),
    ensures
        ({
            let found = found_in(source, lines, replacement, fixed);
            let matched = matched_upto(found, k);
            &&& fit_lines(lines, matched)
            &&& forall|i: int| 0 <= i < matched.len() ==> (#[trigger] matched[i]).line_idx < k
            &&& sum_matched(matched) == matches_upto(found, k)
        }),
    decreases k,
{
    if k > 0 {
        let found = found_in(source, lines, replacement, fixed);
        let before = matched_upto(found, (k - 1) as nat);
        lemma_matched_fit(source, lines, replacement, fixed, (k - 1) as nat);
        let body = body_of(lines[k - 1]);
        let spans = regex_spans(source, body);
        assert(valid_spans(body, spans));
        law_original_segments_are_the_line(body, spans);
        law_highlights_are_the_matches(body, spans, matched_texts(body, spans));
        if spans.len() > 0 {
            let m = found[k - 1]->0;
            assert(before.push(MatchedView { line_idx: k - 1, orig: m.orig }).drop_last()
                == before);
        }
    }
}

/// The new text of a search result is what accepting all its matches makes of the file.
proof fn lemma_new_text(lines: Seq<Seq<char>>, found: Seq<Option<LineMatchView>>)
    requires
        lines.len() == found.len(),
    ensures
        accepted_text(lines, changes_upto(lines, found, lines.len()), Set::full()) == join(
            new_lines(lines, found),
        ),
{
    let changes = changes_upto(lines, found, lines.len());
    let all = Set::<int>::full();
    assert forall|i: int| 0 <= i < lines.len() implies accepted_line(lines, changes, all, i)
        == #[trigger] new_lines(lines, found)[i] by {
        lemma_change_at(lines, found, lines.len(), i);
        match change_at(changes, i, changes.len()) {
            Some(c) => {
                let first = matches_before(changes, c);
                assert(picked(changes[c].orig, changes[c].new, all, first) == seg_texts(
                    changes[c].new,
                ));
            },
            None => {},
        }
    }
    assert(Seq::new(lines.len(), |i: int| accepted_line(lines, changes, all, i)) == new_lines(
        lines,
        found,
    ));
}

/// Which change belongs to a line.
proof fn lemma_change_at(
    lines: Seq<Seq<char>>,
    found: Seq<Option<LineMatchView>>,
    k: nat,
    line: int,
)
    requires
        0 <= line,
    ensures
        ({
            let changes = changes_upto(lines, found, k);
            let at = change_at(changes, line, changes.len());
            if line < k && differs(lines[line], found[line]) {
                at matches Some(c) && 0 <= c < changes.len() && changes[c].new
                    == found[line]->0.new
            } else {
                at is None
            }
        }),
    decreases k,
{
    if k > 0 {
        let j = (k - 1) as nat;
        let before = changes_upto(lines, found, j);
        let changes = changes_upto(lines, found, k);
        lemma_change_at(lines, found, j, line);
        if differs(lines[j as int], found[j as int]) {
            lemma_change_at_prefix(before, changes, line, before.len());
        }
    }
}

/// Changes further on do not matter to a search among the first ones.
proof fn lemma_change_at_prefix(a: Seq<ChangeView>, b: Seq<ChangeView>, line: int, k: nat)
    requires
        k <= a.len() <= b.len(),
        forall|i: int| 0 <= i < k ==> a[i] == b[i],
    ensures
        change_at(a, line, k) == change_at(b, line, k),
    decreases k,
{
    if k > 0 {
        lemma_change_at_prefix(a, b, line, (k - 1) as nat);
    }
}

/// A change is what was found in its line.
proof fn lemma_change_source(
    lines: Seq<Seq<char>>,
    found: Seq<Option<LineMatchView>>,
    k: nat,
    c: int,
)
    requires
        0 <= c < changes_upto(lines, found, k).len(),
    ensures
        ({
            let change = changes_upto(lines, found, k)[c];
            let line = change.line_idx;
            &&& 0 <= line < k
            &&& found[line] matches Some(m) && change.orig == m.orig && change.new == m.new
        }),
    decreases k,
{
    let j = (k - 1) as nat;
    if c < changes_upto(lines, found, j).len() {
        lemma_change_source(lines, found, j, c);
    }
}

/// Under the flag for plain text, every match is replaced by the replacement as it stands.
pub proof fn law_plain_replacement_is_put_in(
    edit: FileEdit,
    path: SourcePath,
    source: (Seq<char>, bool),
    lines: Seq<Seq<char>>,
    replacement: Seq<char>,
    c: int,
    i: int,
)
    requires
        is_edit_of(Some(edit), path, lines, found_in(source, lines, replacement, true)),
        0 <= c < edit.changes@.len(),
        0 <= i < highlighted(edit.change_views()[c].new).len(),
    ensures
        highlighted(edit.change_views()[c].new)[i] == replacement,
{
    let found = found_in(source, lines, replacement, true);
    lemma_change_source(lines, found, lines.len(), c);
    let body = body_of(lines[edit.change_views()[c].line_idx]);
    let spans = regex_spans(source, body);
    law_highlights_are_the_matches(
        body,
        spans,
        replacement_texts(source, body, replacement, true),
    );
}

/// There is a match in one of these lines.
pub open spec fn some_line_matches(source: (Seq<char>, bool), lines: Seq<Seq<char>>) -> bool {
    exists|i: int|
        0 <= i < lines.len() && regex_spans(source, body_of(#[trigger] lines[i])).len() > 0
}

/// A text stands in one of these lines.
pub open spec fn in_some_line(literal: Seq<char>, lines: Seq<Seq<char>>) -> bool {
    exists|i: int| 0 <= i < lines.len() && occurs_in(literal, body_of(#[trigger] lines[i]))
}

proof fn lemma_nothing_found(
    source: (Seq<char>, bool),
    lines: Seq<Seq<char>>,
    replacement: Seq<char>,
    fixed: bool,
    k: nat,
)
    requires
        k <= lines.len(),
    ensures
        ({
            let found = found_in(source, lines, replacement, fixed);
            (changes_upto(lines, found, k).len() == 0 && noops_upto(lines, found, k) == 0)
                <==> forall|i: int|
                0 <= i < k ==> regex_spans(source, body_of(#[trigger] lines[i])).len() == 0
        }),
    decreases k,
{
    let found = found_in(source, lines, replacement, fixed);
    if k > 0 {
        let j = (k - 1) as nat;
        lemma_nothing_found(source, lines, replacement, fixed, j);
        assert forall|i: int| 0 <= i < found.len() implies count_of(#[trigger] found[i]) >= 0 by {}
        lemma_counts(lines, found, j, j);
        let spans = regex_spans(source, body_of(lines[k - 1]));
        assert(found[k - 1] is Some <==> spans.len() > 0);
    }
}

/// A search has a result exactly if there is a match in some line.
pub proof fn law_result_iff_some_line_matches(
    r: Option<FileEdit>,
    path: SourcePath,
    source: (Seq<char>, bool),
    lines: Seq<Seq<char>>,
    replacement: Seq<char>,
    fixed: bool,
)
    requires
        is_edit_of(r, path, lines, found_in(source, lines, replacement, fixed)),
    ensures
        r is Some <==> some_line_matches(source, lines),
{
    lemma_nothing_found(source, lines, replacement, fixed, lines.len());
}

/// Searches the text of a file.
pub fn process_file(
    path: SourcePath,
    text: &str,
    re: &Regex,
    repl: &str,
    fixed: bool,
) -> (r: Option<FileEdit>)
    requires
        byte_len(text@) < usize::MAX,
    ensures
        is_edit_of(
            r,
            path,
            lines_of(text@),
            found_in(regex_source(*re), lines_of(text@), repl@, fixed),
        ),
        r matches Some(e) ==> e.wf(),
        r matches Some(e) ==> e.new_text@ == join(
            Seq::new(
                lines_of(text@).len(),
                |i: int|
                    replaced(regex_source(*re), body_of(lines_of(text@)[i]), repl@, fixed)
                        + newline_of(lines_of(text@)[i]),
            ),
        ),
        forall|i: int|
            #![trigger lines_of(text@)[i]]
            0 <= i < lines_of(text@).len() ==> valid_spans(
                body_of(lines_of(text@)[i]),
                regex_spans(regex_source(*re), body_of(lines_of(text@)[i])),
            ),
        r is Some <==> some_line_matches(regex_source(*re), lines_of(text@)),
        forall|literal: Seq<char>| #[trigger]
            escaped(literal) == regex_source(*re).0 && !regex_source(*re).1 ==> (r is Some
                <==> in_some_line(literal, lines_of(text@))),
        forall|literal: Seq<char>, i: int|
            #![trigger escaped(literal), lines_of(text@)[i]]
            escaped(literal) == regex_source(*re).0 && !regex_source(*re).1 && 0 <= i < lines_of(
                text@,
            ).len() ==> regex_spans(regex_source(*re), body_of(lines_of(text@)[i])) == occurrences(
                literal,
                body_of(lines_of(text@)[i]),
                0,
            ),
{
    let lines = split_lines(text);
    let ghost lv = string_views(lines@);
    let ghost source = regex_source(*re);
    let ghost want = found_in(source, lv, repl@, fixed);
    let mut matches: Vec<Option<LineMatch>> = Vec::new();
    let mut idx: usize = 0;
    while idx < lines.len()
        invariant
            lv == string_views(lines@),
            source == regex_source(*re),
            want == found_in(source, lv, repl@, fixed),
            idx <= lines@.len(),
            matches@.len() == idx,
            forall|i: int| 0 <= i < idx ==> #[trigger] match_views(matches@)[i] == want[i],
            forall|i: int|
                #![trigger lv[i]]
                0 <= i < idx ==> valid_spans(body_of(lv[i]), regex_spans(source, body_of(lv[i]))),
            forall|literal: Seq<char>, i: int|
                #![trigger escaped(literal), lv[i]]
                escaped(literal) == source.0 && !source.1 && 0 <= i < idx ==> regex_spans(
                    source,
                    body_of(lv[i]),
                ) == occurrences(literal, body_of(lv[i]), 0),
        decreases lines@.len() - idx,
    {
        let (body, _newline) = split_nl(lines[idx].as_str());
        let found = match_line(body, re, repl, fixed);
        let ghost before = match_views(matches@);
        matches.push(found);
        proof {
            assert forall|i: int| 0 <= i < idx + 1 implies #[trigger] match_views(matches@)[i]
                == want[i] by {
                if i < idx {
                    assert(match_views(matches@)[i] == before[i]);
                }
            }
        }
        idx = idx + 1;
    }
    proof {
        assert(match_views(matches@) == want);
        law_lines_partition_text(text@);
        lemma_match_bound(source, lv, repl@, fixed, lv.len());
        assert(lv.take(lv.len() as int) == lv);
        lemma_new_text(lv, want);
        lemma_changes_fit(source, lv, repl@, fixed, lv.len());
        lemma_matched_fit(source, lv, repl@, fixed, lv.len());
        assert forall|i: int| 0 <= i < want.len() implies count_of(#[trigger] want[i]) >= 0 by {}
        lemma_counts(lv, want, lv.len(), lv.len());
    }
    let r = assemble_edit(path, lines, matches);
    proof {
        if r is Some {
            law_new_text_has_every_match_replaced(r->0, path, source, lv, repl@, fixed);
        }
        law_result_iff_some_line_matches(r, path, source, lv, repl@, fixed);
        assert forall|literal: Seq<char>| #[trigger]
            escaped(literal) == source.0 && !source.1 implies (some_line_matches(source, lv)
            <==> in_some_line(literal, lv)) by {
            if some_line_matches(source, lv) {
                let i = choose|i: int|
                    0 <= i < lv.len() && regex_spans(source, body_of(#[trigger] lv[i])).len() > 0;
                law_text_is_found_where_it_occurs(literal, body_of(lv[i]));
            }
            if in_some_line(literal, lv) {
                let i = choose|i: int|
                    0 <= i < lv.len() && occurs_in(literal, body_of(#[trigger] lv[i]));
                law_text_is_found_where_it_occurs(literal, body_of(lv[i]));
            }
        }
    }
    r
}

} // verus!
