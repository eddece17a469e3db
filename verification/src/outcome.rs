//! How a full-screen session ends: which files are written, and with what.
use std::collections::HashSet;
use vstd::prelude::*;

use crate::edit::{
    accepted_text, fits_line, ints, lemma_matches_before, lemma_sum_take, sum_matches, ChangeView,
    FileEdit,
};
use crate::found::{
    accepts, all_wf, entries_of, entries_upto, entry_views, law_entries_are_the_matches,
    lemma_entries_prefix, lemma_offset_grows, list_matches_of, matches_in, offset, Found,
    MatchEntry,
};
use crate::lines::decimal;
use crate::messages::{law_messages_hold_their_counts, noop_text, replaced_message, replaced_text};
use crate::partial::{compute_partial_replacement, law_accepting_everything_gives_the_new_text};

verus! {

broadcast use vstd::std_specs::hash::group_hash_axioms;

/// How the user left.
#[derive(Clone, Copy, Debug, PartialEq, Eq, Structural)]
pub enum End {
    /// What was accepted is to be written.
    Quit,
    /// Nothing is to be written.
    Abort,
    /// Everything is to be written.
    WriteAll,
}

/// A file to write: its place in the list of files, and its new text.
pub struct FileWrite {
    pub edit_idx: usize,
    pub text: String,
}

/// What comes of a session.
pub enum Outcome {
    Aborted,
    Nothing,
    Replaced { writes: Vec<FileWrite>, count: usize },
}

/// What comes of a session, as text.
#[verifier::ext_equal]
pub enum OutcomeView {
    Aborted,
    Nothing,
    Replaced { writes: Seq<(int, Seq<char>)>, count: int },
}

/// Files to write, as text.
pub open spec fn write_views(list: Seq<FileWrite>) -> Seq<(int, Seq<char>)> {
    Seq::new(list.len(), |i: int| (list[i].edit_idx as int, list[i].text@))
}

impl View for Outcome {
    type V = OutcomeView;

    open spec fn view(&self) -> OutcomeView {
        match self {
            Outcome::Aborted => OutcomeView::Aborted,
            Outcome::Nothing => OutcomeView::Nothing,
            Outcome::Replaced { writes, count } => OutcomeView::Replaced {
                writes: write_views(writes@),
                count: *count as int,
            },
        }
    }
}

/// The numbers of the matches of a file that the user has accepted.
pub open spec fn chosen(edits: Seq<FileEdit>, applied: Set<usize>, edit: int) -> Set<int> {
    Set::new(
        |m: int|
            0 <= m < matches_in(edits[edit]) && accepts(applied, offset(edits, edit) + m),
    )
}

/// The files to write among the first `k`: those with an accepted match, each with exactly the
/// accepted matches replaced.
pub open spec fn writes_upto(edits: Seq<FileEdit>, applied: Set<usize>, k: nat) -> Seq<
    (int, Seq<char>),
>
    decreases k,
{
    if k == 0 {
        seq![]
    } else {
        let before = writes_upto(edits, applied, (k - 1) as nat);
        let edit = edits[k - 1];
        let mine = chosen(edits, applied, k - 1);
        if mine.is_empty() {
            before
        } else {
            before.push((k - 1, accepted_text(edit.line_views(), edit.change_views(), mine)))
        }
    }
}

/// The files at the end: those that come in late count only where everything is to be written.
pub open spec fn edits_at_end(edits: Seq<FileEdit>, end: End, rest: Seq<FileEdit>) -> Seq<
    FileEdit,
> {
    if end == End::WriteAll {
        edits + rest
    } else {
        edits
    }
}

/// What counts as accepted at the end.
pub open spec fn applied_at_end(edits: Seq<FileEdit>, applied: Set<usize>, end: End) -> Set<
    usize,
> {
    if end == End::WriteAll {
        Set::new(|i: usize| i < entries_of(edits).len())
    } else {
        applied
    }
}

/// What comes of a session.
pub open spec fn outcome_of(end: End, edits: Seq<FileEdit>, applied: Set<usize>) -> OutcomeView {
    if end == End::Abort {
        OutcomeView::Aborted
    } else if applied.is_empty() {
        OutcomeView::Nothing
    } else {
        OutcomeView::Replaced {
            writes: writes_upto(edits, applied, edits.len()),
            count: applied.len() as int,
        }
    }
}

/// What the user is told in the end.
pub open spec fn outcome_text(outcome: OutcomeView) -> Seq<char> {
    match outcome {
        OutcomeView::Aborted => "Aborted."@,
        OutcomeView::Nothing => "No replacements made."@,
        OutcomeView::Replaced { writes, count } => replaced_text(count as nat, writes.len(), 0),
    }
}

impl Outcome {
    /// What the user is told in the end.
    pub fn message(&self) -> (r: String)
        ensures
            r@ == outcome_text(self@),
    {
        match self {
            Outcome::Aborted => "Aborted.".to_owned(),
            Outcome::Nothing => "No replacements made.".to_owned(),
            Outcome::Replaced { writes, count } => replaced_message(*count, writes.len(), 0),
        }
    }
}

/// The numbers of the matches of a file that the user has accepted.
fn chosen_matches(applied: &HashSet<usize>, offset: usize, n: usize) -> (r: HashSet<usize>)
    requires
        offset + n <= usize::MAX,
    ensures
        r@ == Set::new(|c: usize| c < n && accepts(applied@, offset + c)),
{
    let mut mine: HashSet<usize> = HashSet::new();
    let mut c: usize = 0;
    proof {
        assert(mine@ == Set::new(|x: usize| x < 0 && accepts(applied@, offset + x)));
    }
    while c < n
        invariant
            c <= n,
            offset + n <= usize::MAX,
            mine@ == Set::new(|x: usize| x < c && accepts(applied@, offset + x)),
        decreases n - c,
    {
        if applied.contains(&(offset + c)) {
            mine.insert(c);
        }
        proof {
            assert(mine@ == Set::new(|x: usize| x < c + 1 && accepts(applied@, offset + x)));
        }
        c = c + 1;
    }
    mine
}

/// The files to write.
fn collect_writes(edits: &Vec<FileEdit>, applied: &HashSet<usize>) -> (r: Vec<FileWrite>)
    requires
        all_wf(edits@),
        entries_of(edits@).len() <= usize::MAX,
    ensures
        write_views(r@) == writes_upto(edits@, applied@, edits@.len()),
{
    let mut writes: Vec<FileWrite> = Vec::new();
    let mut at: usize = 0;
    let mut i: usize = 0;
    proof {
        assert(write_views(writes@) == writes_upto(edits@, applied@, 0));
    }
    while i < edits.len()
        invariant
            i <= edits@.len(),
            all_wf(edits@),
            entries_of(edits@).len() <= usize::MAX,
            at == offset(edits@, i as int),
            write_views(writes@) == writes_upto(edits@, applied@, i as nat),
        decreases edits@.len() - i,
    {
        proof {
            assert(edits@[i as int].wf());
        }
        let n = edits[i].total_matches();
        proof {
            lemma_offset_grows(edits@, i + 1, edits@.len() as int);
            assert(offset(edits@, i + 1) == at + n);
        }
        let mine = chosen_matches(applied, at, n);
        let ghost before = write_views(writes@);
        proof {
            let own = chosen(edits@, applied@, i as int);
            assert(ints(mine@) == own);
            if mine@.is_empty() {
                assert(own == Set::<int>::empty());
            } else {
                let c = choose|c: usize| mine@.contains(c);
                assert(own.contains(c as int));
            }
        }
        if !mine.is_empty() {
            let text = compute_partial_replacement(&edits[i], &mine);
            writes.push(FileWrite { edit_idx: i, text });
            proof {
                assert(write_views(writes@) == before.push((i as int, text@)));
            }
        }
        at = at + n;
        i = i + 1;
    }
    writes
}

impl Found {
    /// Ends a session. `rest` holds the files of a search that was still under way.
    pub fn finish(&mut self, end: End, rest: Vec<FileEdit>) -> (r: Outcome)
        requires
            old(self).wf(),
            all_wf(rest@),
        ensures
            final(self)@.edits == edits_at_end(old(self)@.edits, end, rest@),
            r@ == outcome_of(
                end,
                final(self)@.edits,
                applied_at_end(final(self)@.edits, old(self)@.applied, end),
            ),
    {
        if end == End::Abort {
            return Outcome::Aborted;
        }
        if end == End::WriteAll {
            self.take_rest(rest);
            accept_all(&mut self.applied, self.match_list.len());
        }
        let listed = self.match_list.len();
        proof {
            assert(entry_views(self.match_list@).len() == listed);
            let all = Set::new(|i: usize| i < listed);
            if end == End::WriteAll {
                assert(self.applied@ == all);
                assert(self.applied@ == applied_at_end(self.all_edits@, old(self)@.applied, end));
            }
        }
        if self.applied.is_empty() {
            return Outcome::Nothing;
        }
        let count = self.applied.len();
        let writes = collect_writes(&self.all_edits, &self.applied);
        Outcome::Replaced { writes, count }
    }

    fn take_rest(&mut self, rest: Vec<FileEdit>)
        requires
            old(self).wf(),
            all_wf(rest@),
        ensures
            all_wf(final(self).all_edits@),
            final(self).all_edits@ == old(self).all_edits@ + rest@,
            entry_views(final(self).match_list@) == entries_of(final(self).all_edits@),
            final(self).match_list@.len() >= old(self).match_list@.len(),
            final(self).applied == old(self).applied,
    {
        let mut rest = rest;
        let n = self.all_edits.len();
        let ghost late = rest@;
        self.all_edits.append(&mut rest);
        proof {
            lemma_entries_prefix(old(self).all_edits@, late, n as nat);
        }
        proof {
            assert forall|i: int|
                0 <= i < self.all_edits@.len() implies (#[trigger] self.all_edits@[i]).wf() by {
                if i < n {
                    assert(old(self).all_edits@[i].wf());
                } else {
                    assert(late[i - n].wf());
                }
            }
        }
        list_later(&self.all_edits, &mut self.match_list, n);
        proof {
            lemma_offset_grows(self.all_edits@, n as int, self.all_edits@.len() as int);
            assert(entry_views(self.match_list@).len() == self.match_list@.len());
            assert(entry_views(old(self).match_list@).len() == old(self).match_list@.len());
        }
    }
}

/// Adds the matches of all files from one on to the list.
fn list_later(edits: &Vec<FileEdit>, list: &mut Vec<MatchEntry>, from: usize)
    requires
        from <= edits@.len(),
        all_wf(edits@),
        entry_views(old(list)@) == entries_upto(edits@, from as nat),
    ensures
        entry_views(final(list)@) == entries_of(edits@),
{
    let mut i: usize = from;
    while i < edits.len()
        invariant
            i <= edits@.len(),
            all_wf(edits@),
            entry_views(list@) == entries_upto(edits@, i as nat),
        decreases edits@.len() - i,
    {
        proof {
            assert(edits@[i as int].wf());
        }
        list_matches_of(list, i, &edits[i]);
        i = i + 1;
    }
}

/// Accepts everything that is in the list.
fn accept_all(applied: &mut HashSet<usize>, n: usize)
    requires
        forall|i: usize| #[trigger] old(applied)@.contains(i) ==> i < n,
    ensures
        final(applied)@ == Set::new(|i: usize| i < n),
{
    let ghost before = applied@;
    let mut k: usize = 0;
    while k < n
        invariant
            k <= n,
            forall|i: usize| #[trigger] before.contains(i) ==> i < n,
            forall|i: usize|
                #![trigger applied@.contains(i)]
                applied@.contains(i) <==> i < k || before.contains(i),
        decreases n - k,
    {
        applied.insert(k);
        k = k + 1;
    }
    proof {
        assert(applied@ == Set::new(|i: usize| i < n));
    }
}

// What is written.

/// Leaving with Ctrl+C writes nothing, whatever was accepted.
pub proof fn law_abort_writes_nothing(edits: Seq<FileEdit>, applied: Set<usize>)
    ensures
        outcome_of(End::Abort, edits, applied) == OutcomeView::Aborted,
{
}

/// Where nothing was accepted, nothing is written.
pub proof fn law_nothing_accepted_writes_nothing(edits: Seq<FileEdit>)
    ensures
        outcome_of(End::Quit, edits, Set::empty()) == OutcomeView::Nothing,
{
}

/// The files to write are some of the files, in order, each at most once; a file is among them
/// exactly if one of its matches was accepted, and in its text exactly those are replaced.
pub proof fn law_only_accepted_matches_are_written(
    edits: Seq<FileEdit>,
    applied: Set<usize>,
    k: nat,
)
    requires
        k <= edits.len(),
    ensures
        ({
            let writes = writes_upto(edits, applied, k);
            &&& forall|w: int|
                0 <= w < writes.len() ==> {
                    let (e, text) = #[trigger] writes[w];
                    &&& 0 <= e < k
                    &&& !chosen(edits, applied, e).is_empty()
                    &&& text == accepted_text(
                        edits[e].line_views(),
                        edits[e].change_views(),
                        chosen(edits, applied, e),
                    )
                }
            &&& forall|w: int, x: int|
                #![trigger writes[w], writes[x]]
                0 <= w < x < writes.len() ==> writes[w].0 < writes[x].0
            &&& forall|e: int|
                #![trigger chosen(edits, applied, e)]
                0 <= e < k && !chosen(edits, applied, e).is_empty() ==> exists|w: int|
                    0 <= w < writes.len() && (#[trigger] writes[w]).0 == e
        }),
    decreases k,
{
    if k > 0 {
        let j = (k - 1) as nat;
        law_only_accepted_matches_are_written(edits, applied, j);
        let before = writes_upto(edits, applied, j);
        let writes = writes_upto(edits, applied, k);
        assert forall|e: int|
            #![trigger chosen(edits, applied, e)]
            0 <= e < k && !chosen(edits, applied, e).is_empty() implies exists|w: int|
            0 <= w < writes.len() && (#[trigger] writes[w]).0 == e by {
            if e < j {
                let w = choose|w: int| 0 <= w < before.len() && (#[trigger] before[w]).0 == e;
                assert(writes[w].0 == e);
            } else {
                assert(writes[writes.len() - 1].0 == e);
            }
        }
    }
}

/// An accepted entry of the list is an accepted match of its file, and no other match is.
pub proof fn law_accepted_entries_are_chosen(
    edits: Seq<FileEdit>,
    applied: Set<usize>,
    e: int,
    m: int,
)
    requires
        0 <= e < edits.len(),
        entries_of(edits).len() <= usize::MAX,
    ensures
        chosen(edits, applied, e).contains(m) <==> exists|i: usize|
            i < entries_of(edits).len() && #[trigger] applied.contains(i) && entries_of(
                edits,
            )[i as int].0 == e && entries_of(edits)[i as int].2 == m,
{
    if chosen(edits, applied, e).contains(m) {
        law_entries_are_the_matches(edits, e, m, 0);
        let i = (offset(edits, e) + m) as usize;
        assert(applied.contains(i));
        assert(entries_of(edits)[i as int].0 == e);
    }
    if exists|i: usize|
        i < entries_of(edits).len() && #[trigger] applied.contains(i) && entries_of(
            edits,
        )[i as int].0 == e && entries_of(edits)[i as int].2 == m {
        let i = choose|i: usize|
            i < entries_of(edits).len() && #[trigger] applied.contains(i) && entries_of(
                edits,
            )[i as int].0 == e && entries_of(edits)[i as int].2 == m;
        law_entries_are_the_matches(edits, e, m, i as int);
    }
}

/// A file with a changed line has a match in it.
pub proof fn lemma_changed_files_have_matches(edit: FileEdit)
    requires
        edit.wf(),
        edit.changes@.len() > 0,
    ensures
        sum_matches(edit.change_views()) > 0,
        matches_in(edit) > 0,
{
    let changes = edit.change_views();
    assert(fits_line(edit.line_views(), changes[0]));
    lemma_matches_before(changes, 0);
    lemma_sum_take(changes, 1);
}

proof fn lemma_below_len(n: nat)
    requires
        n <= usize::MAX,
    ensures
        Set::new(|i: usize| i < n).finite(),
        Set::new(|i: usize| i < n).len() == n,
    decreases n,
{
    let all = Set::new(|i: usize| i < n);
    if n == 0 {
        assert(all == Set::<usize>::empty());
    } else {
        let last = (n - 1) as usize;
        lemma_below_len((n - 1) as nat);
        assert(all == Set::new(|i: usize| i < n - 1).insert(last));
    }
}

/// Where everything is to be written, every file with changes gets the text that it was found to
/// turn into, no other file is written, and every match is counted.
pub proof fn law_write_all_writes_the_new_texts(edits: Seq<FileEdit>, applied: Set<usize>)
    requires
        all_wf(edits),
        entries_of(edits).len() <= usize::MAX,
        entries_of(edits).len() > 0,
    ensures
        ({
            let all = applied_at_end(edits, applied, End::WriteAll);
            let outcome = outcome_of(End::WriteAll, edits, all);
            &&& outcome is Replaced
            &&& outcome->count == entries_of(edits).len()
            &&& forall|w: int|
                0 <= w < outcome->writes.len() ==> {
                    let (e, text) = #[trigger] outcome->writes[w];
                    0 <= e < edits.len() && edits[e].changes@.len() > 0 && text
                        == edits[e].new_text@
                }
            &&& forall|e: int|
                #![trigger edits[e]]
                0 <= e < edits.len() && edits[e].changes@.len() > 0 ==> exists|w: int|
                    0 <= w < outcome->writes.len() && (#[trigger] outcome->writes[w]).0 == e
        }),
{
    let n = entries_of(edits).len();
    let all = applied_at_end(edits, applied, End::WriteAll);
    assert(all == Set::new(|i: usize| i < n));
    lemma_below_len(n);
    assert(all.contains(0));
    let outcome = outcome_of(End::WriteAll, edits, all);
    law_only_accepted_matches_are_written(edits, all, edits.len());
    assert forall|w: int| 0 <= w < outcome->writes.len() implies {
        let (e, text) = #[trigger] outcome->writes[w];
        0 <= e < edits.len() && edits[e].changes@.len() > 0 && text == edits[e].new_text@
    } by {
        let e = outcome->writes[w].0;
        let mine = chosen(edits, all, e);
        assert(edits[e].wf());
        assert forall|m: int|
            0 <= m < sum_matches(edits[e].change_views()) implies mine.contains(m) by {
            law_entries_are_the_matches(edits, e, m, 0);
        }
        law_accepting_everything_gives_the_new_text(edits[e], mine);
        if edits[e].changes@.len() == 0 {
            assert(edits[e].change_views() == Seq::<ChangeView>::empty());
            assert(mine == Set::<int>::empty());
        }
    }
    assert forall|e: int|
        #![trigger edits[e]]
        0 <= e < edits.len() && edits[e].changes@.len() > 0 implies exists|w: int|
        0 <= w < outcome->writes.len() && (#[trigger] outcome->writes[w]).0 == e by {
        assert(edits[e].wf());
        lemma_changed_files_have_matches(edits[e]);
        law_entries_are_the_matches(edits, e, 0, 0);
        assert(chosen(edits, all, e).contains(0));
    }
}

/// Unless the user aborts, as many matches are counted as are accepted, and where there is one,
/// the files with an accepted match are written; files that come in late count only where
/// everything is to be written, and then everything is accepted.
pub proof fn law_end_decides_what_is_written(
    edits: Seq<FileEdit>,
    rest: Seq<FileEdit>,
    applied: Set<usize>,
    end: End,
    i: usize,
)
    ensures
        end == End::Abort ==> outcome_of(end, edits, applied) == OutcomeView::Aborted,
        end != End::Abort && applied.is_empty() ==> outcome_of(end, edits, applied)
            == OutcomeView::Nothing,
        end != End::Abort && !applied.is_empty() ==> outcome_of(end, edits, applied)
            == (OutcomeView::Replaced {
            writes: writes_upto(edits, applied, edits.len()),
            count: applied.len() as int,
        }),
        end == End::WriteAll ==> edits_at_end(edits, end, rest) == edits + rest,
        end != End::WriteAll ==> edits_at_end(edits, end, rest) == edits,
        end == End::WriteAll ==> (applied_at_end(edits, applied, end).contains(i) <==> i
            < entries_of(edits).len()),
        end != End::WriteAll ==> applied_at_end(edits, applied, end) == applied,
{
}

/// The user is told that they aborted, that nothing was replaced, or how many matches were
/// replaced in how many files.
pub proof fn law_outcome_is_told(writes: Seq<(int, Seq<char>)>, count: nat)
    ensures
        outcome_text(OutcomeView::Aborted) == "Aborted."@,
        outcome_text(OutcomeView::Nothing) == "No replacements made."@,
        outcome_text((OutcomeView::Replaced { writes, count: count as int })) == "Replaced "@
            + decimal(count) + " matches across "@ + decimal(writes.len()) + " files."@,
{
    law_messages_hold_their_counts(count, writes.len(), 0, false);
    let told = "Replaced "@ + decimal(count) + " matches across "@ + decimal(writes.len())
        + " files."@;
    assert(noop_text(0) == Seq::<char>::empty());
    assert(told + noop_text(0) == told);
}

} // verus!
