//! What a search has found so far, and which of it the user has accepted.
use std::collections::HashSet;
use vstd::prelude::*;

use crate::edit::{lemma_matches_before, matches_before, sum_matches, ChangeView, FileEdit};

verus! {

broadcast use vstd::std_specs::hash::group_hash_axioms;

/// A match in a changed line: which file, which of its changes, and the number of the match
/// among those of the file.
#[derive(Clone, Copy, Debug, PartialEq, Eq, Structural)]
pub struct MatchEntry {
    pub edit_idx: usize,
    pub change_idx: usize,
    pub match_idx: usize,
}

/// Files with something to change, and which of the matches the user has accepted.
pub struct Found {
    pub all_edits: Vec<FileEdit>,
    /// Every match in the changed lines of every file.
    pub match_list: Vec<MatchEntry>,
    /// Matches whose replacement changes something.
    pub total_matches: usize,
    /// Matches whose replacement changes nothing.
    pub noop_total: usize,
    /// Indices into `match_list`.
    pub applied: HashSet<usize>,
}

/// Files with something to change, and what the user has accepted.
#[verifier::ext_equal]
pub struct FoundView {
    pub edits: Seq<FileEdit>,
    pub noops: int,
    pub applied: Set<usize>,
}

/// Nothing was found yet.
pub open spec fn nothing_found() -> FoundView {
    FoundView { edits: seq![], noops: 0, applied: Set::empty() }
}

/// Matches as triples of mathematical integers: file, change and number.
pub open spec fn entry_views(list: Seq<MatchEntry>) -> Seq<(int, int, int)> {
    Seq::new(
        list.len(),
        |i: int|
            (list[i].edit_idx as int, list[i].change_idx as int, list[i].match_idx as int),
    )
}

/// The matches in the changed lines of a file.
pub open spec fn matches_in(edit: FileEdit) -> nat {
    sum_matches(edit.change_views()) as nat
}

/// Which of the first `k` changes the match with the number `m` belongs to.
pub open spec fn change_of(changes: Seq<ChangeView>, m: int, k: nat) -> int
    decreases k,
{
    if k == 0 {
        0
    } else if m >= matches_before(changes, k - 1) {
        k - 1
    } else {
        change_of(changes, m, (k - 1) as nat)
    }
}

/// The first `n` matches of a file.
pub open spec fn entries_in(edit: int, changes: Seq<ChangeView>, n: nat) -> Seq<(int, int, int)> {
    Seq::new(n, |m: int| (edit, change_of(changes, m, changes.len()), m))
}

/// The matches of the first `k` files.
pub open spec fn entries_upto(edits: Seq<FileEdit>, k: nat) -> Seq<(int, int, int)>
    decreases k,
{
    if k == 0 {
        seq![]
    } else {
        entries_upto(edits, (k - 1) as nat) + entries_in(
            k - 1,
            edits[k - 1].change_views(),
            matches_in(edits[k - 1]),
        )
    }
}

/// The matches of all files: file by file, and in each from top to bottom.
pub open spec fn entries_of(edits: Seq<FileEdit>) -> Seq<(int, int, int)> {
    entries_upto(edits, edits.len())
}

/// The number of matches in the files before one of them.
pub open spec fn offset(edits: Seq<FileEdit>, edit: int) -> int {
    entries_upto(edits, edit as nat).len() as int
}

/// The matches in a list of files whose replacement changes something.
pub open spec fn all_matches(edits: Seq<FileEdit>) -> int
    decreases edits.len(),
{
    if edits.len() == 0 {
        0
    } else {
        all_matches(edits.drop_last()) + sum_matches(edits.last().change_views())
    }
}

/// All files are such as a search hands out.
pub open spec fn all_wf(edits: Seq<FileEdit>) -> bool {
    forall|i: int| 0 <= i < edits.len() ==> (#[trigger] edits[i]).wf()
}

/// The match with this place in the list is accepted.
pub open spec fn accepts(applied: Set<usize>, i: int) -> bool {
    0 <= i <= usize::MAX && applied.contains(i as usize)
}

/// Counts of matches are not negative.
proof fn lemma_counts(edit: FileEdit)
    ensures
        forall|i: int|
            0 <= i < edit.changes@.len() ==> (#[trigger] edit.change_views()[i]).match_count >= 0,
        sum_matches(edit.change_views()) >= 0,
{
    lemma_sum_positive(edit.change_views());
}

proof fn lemma_before_grows(changes: Seq<ChangeView>, a: int, b: int)
    requires
        0 <= a <= b <= changes.len(),
        forall|i: int| 0 <= i < changes.len() ==> (#[trigger] changes[i]).match_count >= 0,
    ensures
        matches_before(changes, a) <= matches_before(changes, b),
    decreases b - a,
{
    if a < b {
        lemma_before_grows(changes, a, b - 1);
        lemma_matches_before(changes, b - 1);
    }
}

/// A match belongs to the change that it is counted in.
proof fn lemma_change_of(changes: Seq<ChangeView>, m: int, c: int, k: nat)
    requires
        0 <= c < k <= changes.len(),
        matches_before(changes, c) <= m < matches_before(changes, c + 1),
        forall|i: int| 0 <= i < changes.len() ==> (#[trigger] changes[i]).match_count >= 0,
    ensures
        change_of(changes, m, k) == c,
    decreases k,
{
    if c < k - 1 {
        lemma_before_grows(changes, c + 1, k - 1);
        lemma_change_of(changes, m, c, (k - 1) as nat);
    }
}

/// Every match belongs to a change.
proof fn lemma_change_of_back(changes: Seq<ChangeView>, m: int, k: nat)
    requires
        k <= changes.len(),
        0 <= m < matches_before(changes, k as int),
        forall|i: int| 0 <= i < changes.len() ==> (#[trigger] changes[i]).match_count >= 0,
    ensures
        ({
            let c = change_of(changes, m, k);
            0 <= c < k && matches_before(changes, c) <= m < matches_before(changes, c + 1)
        }),
    decreases k,
{
    if k == 0 {
        assert(changes.take(0) == Seq::<ChangeView>::empty());
    } else if m < matches_before(changes, k - 1) {
        lemma_change_of_back(changes, m, (k - 1) as nat);
    }
}

/// Every match is in the list.
proof fn lemma_entry(edits: Seq<FileEdit>, k: nat, e: int, m: int)
    requires
        0 <= e < k,
        0 <= m < matches_in(edits[e]),
    ensures
        0 <= offset(edits, e) + m < entries_upto(edits, k).len(),
        entries_upto(edits, k)[offset(edits, e) + m].0 == e,
        entries_upto(edits, k)[offset(edits, e) + m].2 == m,
    decreases k,
{
    if e < k - 1 {
        lemma_entry(edits, (k - 1) as nat, e, m);
    }
}

/// Every entry of the list leads to a match.
proof fn lemma_entry_back(edits: Seq<FileEdit>, k: nat, i: int)
    requires
        0 <= i < entries_upto(edits, k).len(),
    ensures
        ({
            let (e, c, m) = entries_upto(edits, k)[i];
            let changes = edits[e].change_views();
            &&& 0 <= e < k
            &&& 0 <= m < matches_in(edits[e])
            &&& i == offset(edits, e) + m
            &&& 0 <= c < changes.len()
            &&& matches_before(changes, c) <= m < matches_before(changes, c + 1)
        }),
    decreases k,
{
    if k > 0 {
        let before = entries_upto(edits, (k - 1) as nat);
        if i < before.len() {
            lemma_entry_back(edits, (k - 1) as nat, i);
        } else {
            let changes = edits[k - 1].change_views();
            let m = i - before.len();
            lemma_counts(edits[k - 1]);
            assert(changes.take(changes.len() as int) == changes);
            lemma_change_of_back(changes, m, changes.len());
        }
    }
}

/// The list holds each match exactly once: the place of a match in the list and the match with
/// that place determine each other, and each entry names the change that its match stands in.
pub proof fn law_entries_are_the_matches(edits: Seq<FileEdit>, e: int, m: int, i: int)
    ensures
        0 <= e < edits.len() && 0 <= m < matches_in(edits[e]) ==> 0 <= offset(edits, e) + m
            < entries_of(edits).len() && entries_of(edits)[offset(edits, e) + m].0 == e
            && entries_of(edits)[offset(edits, e) + m].2 == m,
        0 <= i < entries_of(edits).len() ==> {
            let (x, y, z) = entries_of(edits)[i];
            let changes = edits[x].change_views();
            &&& 0 <= x < edits.len()
            &&& 0 <= z < matches_in(edits[x])
            &&& i == offset(edits, x) + z
            &&& 0 <= y < changes.len()
            &&& matches_before(changes, y) <= z < matches_before(changes, y + 1)
        },
{
    if 0 <= e < edits.len() && 0 <= m < matches_in(edits[e]) {
        lemma_entry(edits, edits.len(), e, m);
    }
    if 0 <= i < entries_of(edits).len() {
        lemma_entry_back(edits, edits.len(), i);
    }
}

/// There are as many entries as there are matches.
pub proof fn law_one_entry_for_each_match(edits: Seq<FileEdit>)
    ensures
        entries_of(edits).len() == all_matches(edits),
    decreases edits.len(),
{
    if edits.len() > 0 {
        let rest = edits.drop_last();
        law_one_entry_for_each_match(rest);
        assert(edits == rest + seq![edits.last()]);
        lemma_entries_prefix(rest, seq![edits.last()], rest.len());
        lemma_counts(edits.last());
    }
}

/// The files before one of them have no more matches than those before a later one.
pub proof fn lemma_offset_grows(edits: Seq<FileEdit>, a: int, b: int)
    requires
        0 <= a <= b,
    ensures
        offset(edits, a) <= offset(edits, b),
        a < b ==> offset(edits, a) + matches_in(edits[a]) <= offset(edits, b),
        0 <= offset(edits, a),
    decreases b - a,
{
    if a < b {
        lemma_offset_grows(edits, a, b - 1);
    }
}

/// More files at the end do not change the places of the others.
pub proof fn lemma_entries_prefix(a: Seq<FileEdit>, b: Seq<FileEdit>, k: nat)
    requires
        k <= a.len(),
    ensures
        entries_upto(a + b, k) == entries_upto(a, k),
    decreases k,
{
    if k > 0 {
        lemma_entries_prefix(a, b, (k - 1) as nat);
        assert((a + b)[k - 1] == a[k - 1]);
    }
}

proof fn lemma_entries_push(edits: Seq<FileEdit>, edit: FileEdit)
    ensures
        entries_of(edits.push(edit)) == entries_of(edits) + entries_in(
            edits.len() as int,
            edit.change_views(),
            matches_in(edit),
        ),
        all_matches(edits.push(edit)) == all_matches(edits) + sum_matches(edit.change_views()),
{
    assert(edits.push(edit) == edits + seq![edit]);
    lemma_entries_prefix(edits, seq![edit], edits.len());
    assert(edits.push(edit).drop_last() == edits);
}

/// Adds the matches of one change to the list. The first of them has the number `first`.
fn list_change(
    list: &mut Vec<MatchEntry>,
    edit_idx: usize,
    edit: &FileEdit,
    c: usize,
    first: usize,
)
    requires
        c < edit.changes@.len(),
        sum_matches(edit.change_views()) <= usize::MAX,
        first == matches_before(edit.change_views(), c as int),
    ensures
        ({
            let changes = edit.change_views();
            let start = matches_before(changes, c as int) as nat;
            let end = matches_before(changes, c + 1) as nat;
            entry_views(final(list)@) == entry_views(old(list)@) + entries_in(
                edit_idx as int,
                changes,
                end,
            ).skip(start as int)
        }),
{
    let ghost changes = edit.change_views();
    let ghost before = entry_views(list@);
    let n = edit.changes[c].match_count;
    let ghost all = entries_in(
        edit_idx as int,
        changes,
        matches_before(changes, c + 1) as nat,
    );
    proof {
        lemma_counts(*edit);
        lemma_matches_before(changes, c as int);
        assert(changes[c as int].match_count == n);
        assert(before + all.subrange(first as int, first as int) == before);
    }
    let mut j: usize = 0;
    while j < n
        invariant
            j <= n,
            changes == edit.change_views(),
            c < changes.len(),
            n == changes[c as int].match_count,
            first == matches_before(changes, c as int),
            first + n == matches_before(changes, c + 1),
            first + n <= usize::MAX,
            all == entries_in(edit_idx as int, changes, (first + n) as nat),
            forall|i: int| 0 <= i < changes.len() ==> (#[trigger] changes[i]).match_count >= 0,
            entry_views(list@) == before + all.subrange(first as int, first + j),
        decreases n - j,
    {
        let ghost so_far = list@;
        list.push(MatchEntry { edit_idx, change_idx: c, match_idx: first + j });
        proof {
            let entry = (edit_idx as int, c as int, first + j);
            lemma_change_of(changes, first + j, c as int, changes.len());
            assert(entry_views(list@) == entry_views(so_far).push(entry));
            assert(all.subrange(first as int, first + j + 1) == all.subrange(
                first as int,
                first + j,
            ).push(all[first + j]));
            assert(entry_views(list@) == before + all.subrange(first as int, first + j + 1));
        }
        j = j + 1;
    }
    proof {
        assert(all.subrange(first as int, first + n) == all.skip(first as int));
    }
}

/// Adds the matches of a file to the list.
pub fn list_matches_of(list: &mut Vec<MatchEntry>, edit_idx: usize, edit: &FileEdit)
    requires
        sum_matches(edit.change_views()) <= usize::MAX,
    ensures
        entry_views(final(list)@) == entry_views(old(list)@) + entries_in(
            edit_idx as int,
            edit.change_views(),
            matches_in(*edit),
        ),
{
    let ghost start = entry_views(list@);
    let ghost changes = edit.change_views();
    let mut first: usize = 0;
    let mut c: usize = 0;
    proof {
        assert(changes.take(0) == Seq::<ChangeView>::empty());
        assert(start + entries_in(edit_idx as int, changes, 0) == start);
    }
    while c < edit.changes.len()
        invariant
            c <= edit.changes@.len(),
            changes == edit.change_views(),
            sum_matches(changes) <= usize::MAX,
            first == matches_before(changes, c as int),
            entry_views(list@) == start + entries_in(edit_idx as int, changes, first as nat),
        decreases edit.changes@.len() - c,
    {
        proof {
            lemma_counts(*edit);
            lemma_matches_before(changes, c as int);
            assert(changes[c as int] == edit.changes@[c as int]@);
        }
        list_change(list, edit_idx, edit, c, first);
        proof {
            let end = matches_before(changes, c + 1) as nat;
            let all = entries_in(edit_idx as int, changes, end);
            let part = entries_in(edit_idx as int, changes, first as nat);
            assert(part + all.skip(first as int) == all);
            assert(start + part + all.skip(first as int) == start + all);
        }
        first = first + edit.changes[c].match_count;
        c = c + 1;
    }
    proof {
        assert(changes.take(changes.len() as int) == changes);
    }
}

impl View for Found {
    type V = FoundView;

    open spec fn view(&self) -> FoundView {
        FoundView {
            edits: self.all_edits@,
            noops: self.noop_total as int,
            applied: self.applied@,
        }
    }
}

/// What is found once one more file came in.
pub open spec fn received(f: FoundView, edit: FileEdit) -> FoundView {
    FoundView {
        edits: if edit.changes@.len() > 0 {
            f.edits.push(edit)
        } else {
            f.edits
        },
        noops: f.noops + edit.noop_count,
        applied: f.applied,
    }
}

impl Found {
    /// The list names exactly the matches of the files, the count is theirs, and only what is in
    /// the list can be accepted.
    pub open spec fn wf(&self) -> bool {
        &&& all_wf(self.all_edits@)
        &&& entry_views(self.match_list@) == entries_of(self.all_edits@)
        &&& self.total_matches == all_matches(self.all_edits@)
        &&& forall|i: usize| #[trigger] self.applied@.contains(i) ==> i < self.match_list@.len()
    }

    /// Nothing was found yet.
    pub fn new() -> (r: Found)
        ensures
            r.wf(),
            r@ == nothing_found(),
    {
        let r = Found {
            all_edits: Vec::new(),
            match_list: Vec::new(),
            total_matches: 0,
            noop_total: 0,
            applied: HashSet::new(),
        };
        proof {
            assert(entry_views(r.match_list@) == entries_of(r.all_edits@));
            assert(r@ == nothing_found());
        }
        r
    }

    /// What a search that is over has found: these files, and so many matches whose replacement
    /// changes nothing.
    pub fn preloaded(edits: Vec<FileEdit>, noop_total: usize) -> (r: Found)
        requires
            all_wf(edits@),
            all_matches(edits@) <= usize::MAX,
        ensures
            r.wf(),
            r@ == (FoundView { edits: edits@, noops: noop_total as int, applied: Set::empty() }),
    {
        let mut match_list: Vec<MatchEntry> = Vec::new();
        let mut total_matches: usize = 0;
        let mut i: usize = 0;
        proof {
            assert(edits@.take(0) == Seq::<FileEdit>::empty());
            assert(entry_views(match_list@) == entries_upto(edits@, 0));
        }
        while i < edits.len()
            invariant
                i <= edits@.len(),
                all_wf(edits@),
                all_matches(edits@) <= usize::MAX,
                entry_views(match_list@) == entries_upto(edits@, i as nat),
                total_matches == all_matches(edits@.take(i as int)),
            decreases edits@.len() - i,
        {
            proof {
                assert(edits@[i as int].wf());
                lemma_matches_take(edits@, i as int);
                lemma_matches_take(edits@, i + 1);
                assert(edits@.take(i + 1).drop_last() == edits@.take(i as int));
            }
            total_matches = total_matches + edits[i].total_matches();
            list_matches_of(&mut match_list, i, &edits[i]);
            i = i + 1;
        }
        proof {
            assert(edits@.take(edits@.len() as int) == edits@);
        }
        Found { all_edits: edits, match_list, total_matches, noop_total, applied: HashSet::new() }
    }

    /// Takes in one more file. One without changes only counts.
    pub fn receive(&mut self, edit: FileEdit)
        requires
            old(self).wf(),
            edit.wf(),
            old(self).total_matches + sum_matches(edit.change_views()) <= usize::MAX,
            old(self).noop_total + edit.noop_count <= usize::MAX,
        ensures
            final(self).wf(),
            final(self)@ == received(old(self)@, edit),
    {
        let ghost before = self.all_edits@;
        self.total_matches = self.total_matches + edit.total_matches();
        self.noop_total = self.noop_total + edit.noop_count;
        let n = edit.changes.len();
        if n > 0 {
            let edit_idx = self.all_edits.len();
            list_matches_of(&mut self.match_list, edit_idx, &edit);
            self.all_edits.push(edit);
            proof {
                lemma_entries_push(before, edit);
            }
        } else {
            proof {
                assert(edit.change_views() == Seq::<ChangeView>::empty());
            }
        }
        proof {
            assert(entry_views(self.match_list@).len() == self.match_list@.len());
            assert(entry_views(old(self).match_list@).len() == old(self).match_list@.len());
        }
    }

    /// Accepts a match.
    pub fn accept(&mut self, i: usize)
        requires
            old(self).wf(),
            i < old(self).match_list@.len(),
        ensures
            final(self).wf(),
            final(self)@ == (FoundView {
                edits: old(self)@.edits,
                noops: old(self)@.noops,
                applied: old(self)@.applied.insert(i),
            }),
            final(self).match_list == old(self).match_list,
    {
        self.applied.insert(i);
    }
}

/// Part of a list of files holds no more matches than all of it.
pub proof fn lemma_matches_take(edits: Seq<FileEdit>, k: int)
    requires
        all_wf(edits),
        0 <= k <= edits.len(),
    ensures
        0 <= all_matches(edits.take(k)) <= all_matches(edits),
    decreases edits.len(),
{
    if edits.len() == 0 {
        assert(edits.take(k) == edits);
    } else {
        let rest = edits.drop_last();
        assert forall|i: int| 0 <= i < rest.len() implies (#[trigger] rest[i]).wf() by {
            assert(edits[i].wf());
        }
        lemma_sum_positive(edits.last().change_views());
        if k == edits.len() {
            assert(edits.take(k) == edits);
            lemma_matches_take(rest, rest.len() as int);
            assert(rest.take(rest.len() as int) == rest);
        } else {
            lemma_matches_take(rest, k);
            assert(rest.take(k) == edits.take(k));
        }
    }
}

proof fn lemma_sum_positive(changes: Seq<ChangeView>)
    requires
        forall|i: int| 0 <= i < changes.len() ==> (#[trigger] changes[i]).match_count >= 0,
    ensures
        sum_matches(changes) >= 0,
    decreases changes.len(),
{
    if changes.len() > 0 {
        let rest = changes.drop_last();
        assert forall|i: int| 0 <= i < rest.len() implies (#[trigger] rest[i]).match_count
            >= 0 by {
            assert(changes[i].match_count >= 0);
        }
        lemma_sum_positive(rest);
        assert(changes[changes.len() - 1].match_count >= 0);
    }
}

// The list of matches, counted out.

/// The matches in the first `k` changes of a file.
pub open spec fn counted(edit: FileEdit, k: nat) -> int
    decreases k,
{
    if k == 0 {
        0
    } else {
        counted(edit, (k - 1) as nat) + edit.changes@[k - 1].match_count
    }
}

/// The matches in the first `k` files.
pub open spec fn counted_files(edits: Seq<FileEdit>, k: nat) -> int
    decreases k,
{
    if k == 0 {
        0
    } else {
        counted_files(edits, (k - 1) as nat) + counted(edits[k - 1], edits[k - 1].changes@.len())
    }
}

proof fn lemma_counted(edit: FileEdit, k: nat)
    requires
        k <= edit.changes@.len(),
    ensures
        matches_before(edit.change_views(), k as int) == counted(edit, k),
    decreases k,
{
    let changes = edit.change_views();
    if k == 0 {
        assert(changes.take(0) == Seq::<ChangeView>::empty());
    } else {
        lemma_counted(edit, (k - 1) as nat);
        lemma_counts(edit);
        lemma_matches_before(changes, k - 1);
        assert(changes[k - 1] == edit.changes@[k - 1]@);
    }
}

proof fn lemma_counted_files(edits: Seq<FileEdit>, k: nat)
    requires
        k <= edits.len(),
    ensures
        offset(edits, k as int) == counted_files(edits, k),
    decreases k,
{
    if k > 0 {
        lemma_counted_files(edits, (k - 1) as nat);
        let edit = edits[k - 1];
        lemma_counted(edit, edit.changes@.len());
        lemma_counts(edit);
        assert(edit.change_views().take(edit.changes@.len() as int) == edit.change_views());
    }
}

/// The matches of a file, and of a list of files, are those of their changes added up.
pub proof fn law_matches_are_those_of_the_changes(edits: Seq<FileEdit>, edit: FileEdit)
    ensures
        sum_matches(edit.change_views()) == counted(edit, edit.changes@.len()),
        all_matches(edits) == counted_files(edits, edits.len()),
        entries_of(edits).len() == counted_files(edits, edits.len()),
{
    lemma_counted(edit, edit.changes@.len());
    assert(edit.change_views().take(edit.changes@.len() as int) == edit.change_views());
    lemma_counted_files(edits, edits.len());
    law_one_entry_for_each_match(edits);
}

/// The list goes through the files, in each through its changes, and in each of these through its
/// matches: the entry of a match stands after those of all files, changes and matches before it.
pub proof fn law_list_goes_through_files_changes_and_matches(
    edits: Seq<FileEdit>,
    e: int,
    c: int,
    j: int,
)
    requires
        0 <= e < edits.len(),
        0 <= c < edits[e].changes@.len(),
        0 <= j < edits[e].changes@[c].match_count,
    ensures
        ({
            let m = counted(edits[e], c as nat) + j;
            let at = counted_files(edits, e as nat) + m;
            &&& 0 <= at < entries_of(edits).len()
            &&& entries_of(edits)[at] == (e, c, m)
        }),
{
    let edit = edits[e];
    let changes = edit.change_views();
    let m = counted(edit, c as nat) + j;
    lemma_counts(edit);
    lemma_counted(edit, c as nat);
    lemma_counted(edit, (c + 1) as nat);
    lemma_matches_before(changes, c);
    assert(changes[c] == edit.changes@[c]@);
    lemma_counted_files(edits, e as nat);
    law_entries_are_the_matches(edits, e, m, 0);
    let at = offset(edits, e) + m;
    law_entries_are_the_matches(edits, e, m, at);
    let y = entries_of(edits)[at].1;
    if y < c {
        lemma_before_grows(changes, y + 1, c);
    } else if y > c {
        lemma_before_grows(changes, c + 1, y);
    }
}

/// What is accepted is what stands in the set of accepted places.
pub proof fn law_accepted_places_are_those_of_the_set(applied: Set<usize>, i: usize)
    ensures
        accepts(applied, i as int) <==> applied.contains(i),
{
}

} // verus!
