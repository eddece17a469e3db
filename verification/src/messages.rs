//! What the user is told, in words.
use vstd::prelude::*;

use crate::lines::{decimal, digit, push_decimal};

verus! {

/// The word for so many matches.
pub open spec fn match_word(n: nat) -> Seq<char> {
    if n == 1 {
        "match"@
    } else {
        "matches"@
    }
}

/// What is said when there is nothing to change. Matches whose replacement is what stands there
/// already are not the same as no matches.
pub open spec fn no_change_text(noops: nat) -> Seq<char> {
    if noops == 0 {
        "No matches."@
    } else {
        decimal(noops) + " "@ + match_word(noops) + " not replaced."@
    }
}

/// What is added where some matches are replaced and others would not change.
pub open spec fn noop_text(noops: nat) -> Seq<char> {
    if noops == 0 {
        ""@
    } else {
        " ("@ + decimal(noops) + " "@ + match_word(noops) + " not replaced)"@
    }
}

/// What is said once files have been written.
pub open spec fn replaced_text(total: nat, files: nat, noops: nat) -> Seq<char> {
    "Replaced "@ + decimal(total) + " matches across "@ + decimal(files) + " files."@ + noop_text(
        noops,
    )
}

/// The keys that are named under a preview: that for editing only where the full-screen view may
/// be opened.
pub open spec fn prompt_keys(no_pager: bool) -> Seq<char> {
    if no_pager {
        "\nshift+\u{21b5} replace all  \u{00b7}  q quit  "@
    } else {
        "\nshift+\u{21b5} replace all  \u{00b7}  e edit  \u{00b7}  q quit  "@
    }
}

/// The question under a preview.
pub open spec fn prompt_text(total: nat, files: nat, noops: nat, no_pager: bool) -> Seq<char> {
    "\n"@ + decimal(total) + " matches in "@ + decimal(files) + " files"@ + noop_text(noops)
        + prompt_keys(no_pager)
}

fn push_match_word(out: &mut String, n: usize)
    ensures
        final(out)@ == old(out)@ + match_word(n as nat),
{
    if n == 1 {
        out.append("match");
    } else {
        out.append("matches");
    }
}

/// What is said when there is nothing to change.
pub fn no_change_message(noop_total: usize) -> (r: String)
    ensures
        r@ == no_change_text(noop_total as nat),
{
    if noop_total == 0 {
        "No matches.".to_owned()
    } else {
        let mut out = String::new();
        push_decimal(&mut out, noop_total);
        out.append(" ");
        push_match_word(&mut out, noop_total);
        out.append(" not replaced.");
        proof {
            assert(Seq::<char>::empty() + decimal(noop_total as nat) == decimal(noop_total as nat));
        }
        out
    }
}

/// What is added where some matches are replaced and others would not change.
pub fn noop_suffix(noop_total: usize) -> (r: String)
    ensures
        r@ == noop_text(noop_total as nat),
{
    if noop_total == 0 {
        "".to_owned()
    } else {
        let mut out = " (".to_owned();
        push_decimal(&mut out, noop_total);
        out.append(" ");
        push_match_word(&mut out, noop_total);
        out.append(" not replaced)");
        out
    }
}

/// What is said once files have been written.
pub fn replaced_message(total: usize, files: usize, noop_total: usize) -> (r: String)
    ensures
        r@ == replaced_text(total as nat, files as nat, noop_total as nat),
{
    let mut out = "Replaced ".to_owned();
    push_decimal(&mut out, total);
    out.append(" matches across ");
    push_decimal(&mut out, files);
    out.append(" files.");
    out.append(noop_suffix(noop_total).as_str());
    out
}

/// The question under a preview.
pub fn prompt_message(
    total: usize,
    file_count: usize,
    noop_total: usize,
    no_pager: bool,
) -> (r: String)
    ensures
        r@ == prompt_text(total as nat, file_count as nat, noop_total as nat, no_pager),
{
    let mut out = "\n".to_owned();
    push_decimal(&mut out, total);
    out.append(" matches in ");
    push_decimal(&mut out, file_count);
    out.append(" files");
    out.append(noop_suffix(noop_total).as_str());
    if no_pager {
        out.append("\nshift+\u{21b5} replace all  \u{00b7}  q quit  ");
    } else {
        out.append("\nshift+\u{21b5} replace all  \u{00b7}  e edit  \u{00b7}  q quit  ");
    }
    out
}

proof fn lemma_first_digit(n: nat)
    ensures
        decimal(n).len() > 0,
        decimal(n)[0] == digit(0) || decimal(n)[0] == digit(1) || decimal(n)[0] == digit(2)
            || decimal(n)[0] == digit(3) || decimal(n)[0] == digit(4) || decimal(n)[0] == digit(5)
            || decimal(n)[0] == digit(6) || decimal(n)[0] == digit(7) || decimal(n)[0] == digit(8)
            || decimal(n)[0] == digit(9),
    decreases n,
{
    if n >= 10 {
        lemma_first_digit(n / 10);
        assert(decimal(n)[0] == decimal(n / 10)[0]);
    }
}

/// Matches whose replacement changes nothing are told apart from no matches at all.
pub proof fn law_noops_are_told_apart(noops: nat)
    requires
        noops > 0,
    ensures
        no_change_text(noops) != no_change_text(0),
{
    reveal_strlit("No matches.");
    lemma_first_digit(noops);
    assert(no_change_text(noops)[0] == decimal(noops)[0]);
    assert(no_change_text(0)[0] == 'N');
}

/// One match is called a match, and any other number of them matches.
pub proof fn law_one_match_is_a_match(n: nat)
    ensures
        match_word(n) == if n == 1 {
            seq!['m', 'a', 't', 'c', 'h']
        } else {
            seq!['m', 'a', 't', 'c', 'h', 'e', 's']
        },
{
    reveal_strlit("match");
    reveal_strlit("matches");
    assert("match"@ == seq!['m', 'a', 't', 'c', 'h']);
    assert("matches"@ == seq!['m', 'a', 't', 'c', 'h', 'e', 's']);
}

/// The messages hold the counts that they are about: what was replaced, in how many files, and
/// how many matches were not replaced, where there are any.
pub proof fn law_messages_hold_their_counts(total: nat, files: nat, noops: nat, no_pager: bool)
    ensures
        noop_text(0).len() == 0,
        noops > 0 ==> noop_text(noops) == " ("@ + decimal(noops) + " "@ + match_word(noops)
            + " not replaced)"@,
        noops > 0 ==> no_change_text(noops) == decimal(noops) + " "@ + match_word(noops)
            + " not replaced."@,
        no_change_text(0) == "No matches."@,
        replaced_text(total, files, noops) == "Replaced "@ + decimal(total) + " matches across "@
            + decimal(files) + " files."@ + noop_text(noops),
        prompt_text(total, files, noops, no_pager) == "\n"@ + decimal(total) + " matches in "@
            + decimal(files) + " files"@ + noop_text(noops) + prompt_keys(no_pager),
{
    reveal_strlit("");
}

/// The prompt names the key for editing where the full-screen view may be opened, and is the same
/// without it where it may not.
pub proof fn law_prompt_names_the_keys_that_it_takes()
    ensures
        prompt_keys(true) == "\nshift+\u{21b5} replace all  \u{00b7}  "@ + "q quit  "@,
        prompt_keys(false) == "\nshift+\u{21b5} replace all  \u{00b7}  "@ + "e edit  \u{00b7}  "@
            + "q quit  "@,
{
    reveal_strlit("\nshift+\u{21b5} replace all  \u{00b7}  q quit  ");
    reveal_strlit("\nshift+\u{21b5} replace all  \u{00b7}  e edit  \u{00b7}  q quit  ");
    reveal_strlit("\nshift+\u{21b5} replace all  \u{00b7}  ");
    reveal_strlit("e edit  \u{00b7}  ");
    reveal_strlit("q quit  ");
    assert(prompt_keys(true) =~= "\nshift+\u{21b5} replace all  \u{00b7}  "@ + "q quit  "@);
    assert(prompt_keys(false) =~= "\nshift+\u{21b5} replace all  \u{00b7}  "@
        + "e edit  \u{00b7}  "@ + "q quit  "@);
}

} // verus!
