//! Replacing some of the matches in a file and leaving others.
use std::collections::HashSet;
use vstd::prelude::*;

use crate::edit::{
    accepted_line, accepted_text, change_at, change_views, fits_line, index_changes, ints,
    lemma_matches_before, marks_before, matches_before, picked, picked_text, sum_matches,
    tells_changes, Change, ChangeView, FileEdit, LineMatchView, SourcePath,
};
use crate::lines::{
    body_of, join, law_lines_partition_text, lemma_join_push, lines_of, newline_of, split_nl,
};
use crate::process::is_edit_of;
use crate::segments::{
    highlighted, lemma_highlighted_take, same_but_highlights, seg_text, seg_texts,
};

verus! {

broadcast use vstd::std_specs::hash::group_hash_axioms;

/// A changed line with the accepted matches replaced. Its first match has the number `first`.
fn pick_line(change: &Change, applied: &HashSet<usize>, first: usize) -> (r: String)
    requires
        same_but_highlights(change@.orig, change@.new),
        first + highlighted(change@.new).len() <= usize::MAX,
    ensures
        r@ == join(picked(change@.orig, change@.new, ints(applied@), first as int)),
{
    let ghost orig = change@.orig;
    let ghost new = change@.new;
    let ghost want = picked(orig, new, ints(applied@), first as int);
    let mut out = String::new();
    let mut number: usize = first;
    let mut i: usize = 0;
    proof {
        assert(want.take(0) == Seq::<Seq<char>>::empty());
        assert(new.take(0) == Seq::<(Seq<char>, bool)>::empty());
    }
    while i < change.new_segments.len()
        invariant
            orig == change@.orig,
            new == change@.new,
            same_but_highlights(orig, new),
            first + highlighted(new).len() <= usize::MAX,
            want == picked(orig, new, ints(applied@), first as int),
            i <= change.new_segments@.len(),
            number == first + marks_before(new, i as int),
            out@ == join(want.take(i as int)),
        decreases change.new_segments@.len() - i,
    {
        proof {
            lemma_join_push(want.take(i as int), want[i as int]);
            assert(want.take(i + 1) == want.take(i as int).push(want[i as int]));
            lemma_highlighted_take(new, i as int);
            assert(new[i as int] == (
                change.new_segments@[i as int].0@,
                change.new_segments@[i as int].1,
            ));
            assert(orig[i as int] == (
                change.orig_segments@[i as int].0@,
                change.orig_segments@[i as int].1,
            ));
        }
        if change.new_segments[i].1 {
            if applied.contains(&number) {
                out.append(change.new_segments[i].0.as_str());
            } else {
                out.append(change.orig_segments[i].0.as_str());
            }
            number = number + 1;
        } else {
            out.append(change.new_segments[i].0.as_str());
        }
        i = i + 1;
    }
    proof {
        assert(want.take(want.len() as int) == want);
    }
    out
}

/// The numbers of the first matches of the changes.
fn first_matches(edit: &FileEdit) -> (r: Vec<usize>)
    requires
        sum_matches(edit.change_views()) <= usize::MAX,
    ensures
        r@.len() == edit.changes@.len(),
        forall|c: int|
            0 <= c < r@.len() ==> #[trigger] r@[c] == matches_before(edit.change_views(), c),
{
    let ghost changes = edit.change_views();
    let mut firsts: Vec<usize> = Vec::new();
    let mut number: usize = 0;
    let mut c: usize = 0;
    proof {
        assert(changes.take(0) == Seq::<ChangeView>::empty());
    }
    while c < edit.changes.len()
        invariant
            changes == edit.change_views(),
            sum_matches(changes) <= usize::MAX,
            c <= edit.changes@.len(),
            number == matches_before(changes, c as int),
            firsts@.len() == c,
            forall|k: int| 0 <= k < c ==> #[trigger] firsts@[k] == matches_before(changes, k),
        decreases edit.changes@.len() - c,
    {
        proof {
            lemma_matches_before(changes, c as int);
            assert(changes[c as int] == edit.changes@[c as int]@);
        }
        firsts.push(number);
        number = number + edit.changes[c].match_count;
        c = c + 1;
    }
    firsts
}

/// The text of a file after the matches with these numbers are replaced, and no others.
pub fn compute_partial_replacement(edit: &FileEdit, applied: &HashSet<usize>) -> (r: String)
    requires
        edit.wf(),
    ensures
        r@ == accepted_text(edit.line_views(), edit.change_views(), ints(applied@)),
{
    let ghost lines = edit.line_views();
    let ghost changes = edit.change_views();
    let ghost accepted = ints(applied@);
    let table = index_changes(&edit.changes);
    let firsts = first_matches(edit);
    let ghost want = Seq::new(
        lines.len(),
        |i: int| accepted_line(lines, changes, accepted, i),
    );
    let mut text = String::new();
    let mut idx: usize = 0;
    proof {
        assert(want.take(0) == Seq::<Seq<char>>::empty());
    }
    while idx < edit.lines.len()
        invariant
            edit.wf(),
            lines == edit.line_views(),
            changes == edit.change_views(),
            accepted == ints(applied@),
            want == Seq::new(lines.len(), |i: int| accepted_line(lines, changes, accepted, i)),
            idx <= edit.lines@.len(),
            text@ == join(want.take(idx as int)),
            tells_changes(table@, changes),
            firsts@.len() == changes.len(),
            forall|c: int|
                0 <= c < firsts@.len() ==> #[trigger] firsts@[c] == matches_before(changes, c),
        decreases edit.lines@.len() - idx,
    {
        let raw = edit.lines[idx].as_str();
        let ghost prefix = text@;
        proof {
            lemma_join_push(want.take(idx as int), want[idx as int]);
            assert(want.take(idx + 1) == want.take(idx as int).push(want[idx as int]));
            assert(table@.contains_key(idx) || !table@.contains_key(idx));
        }
        match table.get(&idx) {
            Some(c) => {
                let (_body, newline) = split_nl(raw);
                proof {
                    assert(changes[*c as int] == edit.changes@[*c as int]@);
                    assert(fits_line(lines, changes[*c as int]));
                    lemma_matches_before(changes, *c as int);
                }
                let line = pick_line(&edit.changes[*c], applied, firsts[*c]);
                text.append(line.as_str());
                text.append(newline);
                proof {
                    assert(text@ == prefix + want[idx as int]);
                }
            },
            None => {
                text.append(raw);
            },
        }
        idx = idx + 1;
    }
    proof {
        assert(want.take(want.len() as int) == want);
    }
    text
}

/// Whose change it is decides nothing but its own line.
proof fn lemma_change_at(changes: Seq<ChangeView>, line: int, k: nat)
    requires
        k <= changes.len(),
    ensures
        change_at(changes, line, k) matches Some(c) ==> 0 <= c < k && changes[c].line_idx == line,
        change_at(changes, line, k) is None ==> forall|c: int|
            0 <= c < k ==> (#[trigger] changes[c]).line_idx != line,
    decreases k,
{
    if k > 0 {
        lemma_change_at(changes, line, (k - 1) as nat);
    }
}

proof fn lemma_marks(segments: Seq<(Seq<char>, bool)>, i: int)
    requires
        0 <= i < segments.len(),
        segments[i].1,
    ensures
        0 <= marks_before(segments, i) < highlighted(segments).len(),
    decreases segments.len(),
{
    lemma_highlighted_take(segments, i);
    if i < segments.len() - 1 {
        let rest = segments.drop_last();
        lemma_marks(rest, i);
        assert(rest.take(i) == segments.take(i));
    } else {
        assert(segments.take(i) == segments.drop_last());
    }
}

/// A match is replaced exactly if it is accepted, and all other text of its line stays.
pub proof fn law_accepted_matches_are_replaced(
    edit: FileEdit,
    accepted: Set<int>,
    c: int,
    i: int,
)
    requires
        edit.wf(),
        0 <= c < edit.changes@.len(),
        0 <= i < edit.change_views()[c].new.len(),
    ensures
        ({
            let changes = edit.change_views();
            let change = changes[c];
            let number = matches_before(changes, c) + marks_before(change.new, i);
            let shown = picked(change.orig, change.new, accepted, matches_before(changes, c))[i];
            &&& accepted_line(edit.line_views(), changes, accepted, change.line_idx)
                == picked_text(changes, c, accepted) + newline_of(
                edit.line_views()[change.line_idx],
            )
            &&& change.new[i].1 ==> 0 <= number < sum_matches(changes) && shown
                == if accepted.contains(number) {
                change.new[i].0
            } else {
                change.orig[i].0
            }
            &&& !change.new[i].1 ==> shown == change.orig[i].0
        }),
{
    let changes = edit.change_views();
    let change = changes[c];
    assert(fits_line(edit.line_views(), changes[c]));
    lemma_change_at(changes, change.line_idx, changes.len());
    let at = change_at(changes, change.line_idx, changes.len());
    if at is None {
        assert(changes[c].line_idx != change.line_idx);
    }
    assert(changes[at->0].line_idx == changes[c].line_idx);
    lemma_matches_before(changes, c);
    if change.new[i].1 {
        lemma_marks(change.new, i);
    }
    assert(change.orig[i].1 == change.new[i].1);
}

/// Lines without an accepted match stay as they are.
pub proof fn law_other_lines_stay(edit: FileEdit, accepted: Set<int>, line: int)
    requires
        edit.wf(),
        0 <= line < edit.lines@.len(),
        forall|c: int, m: int|
            #![trigger edit.change_views()[c], accepted.contains(m)]
            0 <= c < edit.changes@.len() && edit.change_views()[c].line_idx == line
                && matches_before(edit.change_views(), c) <= m < matches_before(
                edit.change_views(),
                c + 1,
            ) ==> !accepted.contains(m),
    ensures
        accepted_line(edit.line_views(), edit.change_views(), accepted, line)
            == edit.line_views()[line],
{
    let lines = edit.line_views();
    let changes = edit.change_views();
    lemma_change_at(changes, line, changes.len());
    match change_at(changes, line, changes.len()) {
        Some(c) => {
            let change = changes[c];
            assert(fits_line(lines, changes[c]));
            lemma_matches_before(changes, c);
            let first = matches_before(changes, c);
            let shown = picked(change.orig, change.new, accepted, first);
            assert forall|i: int| 0 <= i < shown.len() implies shown[i] == #[trigger] seg_texts(
                change.orig,
            )[i] by {
                assert(change.orig[i].1 == change.new[i].1);
                if change.new[i].1 {
                    lemma_marks(change.new, i);
                    assert(!accepted.contains(first + marks_before(change.new, i)));
                }
            }
            assert(shown == seg_texts(change.orig));
            assert(body_of(lines[line]) + newline_of(lines[line]) == lines[line]);
        },
        None => {},
    }
}

/// With no match accepted, a file stays as it is.
pub proof fn law_accepting_nothing_keeps_the_text(edit: FileEdit)
    requires
        edit.wf(),
    ensures
        accepted_text(edit.line_views(), edit.change_views(), Set::empty()) == join(
            edit.line_views(),
        ),
{
    let lines = edit.line_views();
    let changes = edit.change_views();
    let now = Seq::new(lines.len(), |i: int| accepted_line(lines, changes, Set::empty(), i));
    assert forall|i: int| 0 <= i < lines.len() implies now[i] == lines[i] by {
        law_other_lines_stay(edit, Set::empty(), i);
    }
    assert(now == lines);
}

/// The lines that a search result shows are those of the text that was searched: with no
/// match accepted, that text comes back.
pub proof fn law_nothing_accepted_is_the_searched_text(
    edit: FileEdit,
    path: SourcePath,
    text: Seq<char>,
    found: Seq<Option<LineMatchView>>,
)
    requires
        edit.wf(),
        is_edit_of(Some(edit), path, lines_of(text), found),
    ensures
        accepted_text(edit.line_views(), edit.change_views(), Set::empty()) == text,
{
    law_accepting_nothing_keeps_the_text(edit);
    law_lines_partition_text(text);
}

/// Only numbers of matches that the file has make a difference.
pub proof fn law_only_own_matches_count(edit: FileEdit, a: Set<int>, b: Set<int>)
    requires
        edit.wf(),
        forall|m: int|
            0 <= m < sum_matches(edit.change_views()) ==> (a.contains(m) <==> b.contains(m)),
    ensures
        accepted_text(edit.line_views(), edit.change_views(), a) == accepted_text(
            edit.line_views(),
            edit.change_views(),
            b,
        ),
{
    let lines = edit.line_views();
    let changes = edit.change_views();
    assert forall|line: int| 0 <= line < lines.len() implies accepted_line(lines, changes, a, line)
        == #[trigger] accepted_line(lines, changes, b, line) by {
        lemma_change_at(changes, line, changes.len());
        match change_at(changes, line, changes.len()) {
            Some(c) => {
                let change = changes[c];
                assert(fits_line(lines, changes[c]));
                lemma_matches_before(changes, c);
                let first = matches_before(changes, c);
                let x = picked(change.orig, change.new, a, first);
                let y = picked(change.orig, change.new, b, first);
                assert forall|i: int| 0 <= i < x.len() implies x[i] == #[trigger] y[i] by {
                    if change.new[i].1 {
                        lemma_marks(change.new, i);
                        let m = first + marks_before(change.new, i);
                        assert(a.contains(m) <==> b.contains(m));
                    }
                }
                assert(x == y);
            },
            None => {},
        }
    }
    assert(Seq::new(lines.len(), |i: int| accepted_line(lines, changes, a, i)) == Seq::new(
        lines.len(),
        |i: int| accepted_line(lines, changes, b, i),
    ));
}

/// With every match accepted, a file becomes its new text.
pub proof fn law_accepting_everything_gives_the_new_text(edit: FileEdit, accepted: Set<int>)
    requires
        edit.wf(),
        forall|m: int| 0 <= m < sum_matches(edit.change_views()) ==> accepted.contains(m),
    ensures
        accepted_text(edit.line_views(), edit.change_views(), accepted) == edit.new_text@,
{
    law_only_own_matches_count(edit, accepted, Set::full());
}

/// A line of which every match is accepted becomes its new line, which is another one.
pub proof fn law_accepted_lines_are_changed(edit: FileEdit, accepted: Set<int>, c: int)
    requires
        edit.wf(),
        0 <= c < edit.changes@.len(),
        forall|m: int|
            matches_before(edit.change_views(), c) <= m < matches_before(
                edit.change_views(),
                c + 1,
            ) ==> accepted.contains(m),
    ensures
        ({
            let lines = edit.line_views();
            let change = edit.change_views()[c];
            let now = accepted_line(lines, edit.change_views(), accepted, change.line_idx);
            &&& now == seg_text(change.new) + newline_of(lines[change.line_idx])
            &&& now != lines[change.line_idx]
        }),
{
    let lines = edit.line_views();
    let changes = edit.change_views();
    let change = changes[c];
    let line = change.line_idx;
    assert(fits_line(lines, changes[c]));
    lemma_change_at(changes, line, changes.len());
    let at = change_at(changes, line, changes.len());
    if at is None {
        assert(changes[c].line_idx != line);
    }
    assert(changes[at->0].line_idx == changes[c].line_idx);
    lemma_matches_before(changes, c);
    let first = matches_before(changes, c);
    let shown = picked(change.orig, change.new, accepted, first);
    assert forall|i: int| 0 <= i < shown.len() implies shown[i] == #[trigger] seg_texts(
        change.new,
    )[i] by {
        if change.new[i].1 {
            lemma_marks(change.new, i);
            assert(accepted.contains(first + marks_before(change.new, i)));
        }
    }
    assert(shown == seg_texts(change.new));
    let now = seg_text(change.new) + newline_of(lines[line]);
    let body = body_of(lines[line]);
    assert(body + newline_of(lines[line]) == lines[line]);
    if now == lines[line] {
        assert(now.take(seg_text(change.new).len() as int) == seg_text(change.new));
        assert(lines[line].take(body.len() as int) == body);
    }
}

} // verus!
