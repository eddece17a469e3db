//! The `regex` crate as the library sees it: what is handed to it and what is known of its
//! answers.
use regex::{Captures, Regex, RegexBuilder};
use vstd::prelude::*;

use crate::text::{byte_len, byte_slice, lemma_part_in_bytes, on_boundary};

verus! {

/// A compiled pattern of the `regex` crate.
#[verifier::external_type_specification]
#[verifier::external_body]
pub struct ExRegex(regex::Regex);

/// The `regex` crate's reason for rejecting a pattern.
#[verifier::external_type_specification]
#[verifier::external_body]
pub struct ExRegexError(regex::Error);

/// One match of the `regex` crate, with its groups.
#[verifier::external_type_specification]
#[verifier::external_body]
pub struct ExCaptures<'h>(regex::Captures<'h>);

/// What a compiled pattern was made from: the pattern text, and whether case is ignored.
pub uninterp spec fn regex_source(re: Regex) -> (Seq<char>, bool);

/// The byte ranges of the successive matches of a pattern in a text.
pub uninterp spec fn regex_spans(source: (Seq<char>, bool), haystack: Seq<char>) -> Seq<(int, int)>;

/// Which match a set of groups belongs to: the pattern, the text, and the place of the match
/// among the successive matches of that pattern in that text.
pub uninterp spec fn captures_source(caps: Captures) -> ((Seq<char>, bool), Seq<char>, int);

/// What a replacement template comes to for one match.
pub uninterp spec fn regex_expansion(
    found: ((Seq<char>, bool), Seq<char>, int),
    template: Seq<char>,
) -> Seq<char>;

/// The matches lie inside the text, on character boundaries and in order; they do not overlap,
/// and each ends after the one before it.
pub open spec fn valid_spans(haystack: Seq<char>, spans: Seq<(int, int)>) -> bool {
    &&& forall|i: int|
        #![trigger spans[i]]
        0 <= i < spans.len() ==> {
            &&& 0 <= spans[i].0 <= spans[i].1 <= byte_len(haystack)
            &&& on_boundary(haystack, spans[i].0)
            &&& on_boundary(haystack, spans[i].1)
        }
    &&& forall|i: int, j: int|
        #![trigger spans[i], spans[j]]
        0 <= i < j < spans.len() ==> spans[i].1 <= spans[j].0 && spans[i].1 < spans[j].1
}

/// Byte ranges as pairs of mathematical integers.
pub open spec fn span_views(spans: Seq<(usize, usize)>) -> Seq<(int, int)> {
    Seq::new(spans.len(), |i: int| (spans[i].0 as int, spans[i].1 as int))
}

/// The byte range of the match that a set of groups belongs to.
pub open spec fn captures_span_of(caps: Captures<'_>) -> (int, int) {
    let found = captures_source(caps);
    regex_spans(found.0, found.1)[found.2]
}

/// The byte ranges of a list of matches.
pub open spec fn captures_spans(list: Seq<Captures<'_>>) -> Seq<(int, int)> {
    Seq::new(list.len(), |i: int| captures_span_of(list[i]))
}

/// A character that has a meaning of its own in a pattern.
pub open spec fn is_meta(c: char) -> bool {
    c == '\\' || c == '.' || c == '+' || c == '*' || c == '?' || c == '(' || c == ')' || c == '|'
        || c == '[' || c == ']' || c == '{' || c == '}' || c == '^' || c == '$' || c == '#' || c
        == '&' || c == '-' || c == '~'
}

/// `s` with a backslash before every character that has a meaning of its own in a pattern.
pub open spec fn escaped(s: Seq<char>) -> Seq<char>
    decreases s.len(),
{
    if s.len() == 0 {
        seq![]
    } else if is_meta(s.last()) {
        escaped(s.drop_last()).push('\\').push(s.last())
    } else {
        escaped(s.drop_last()).push(s.last())
    }
}

/// The pattern for `pattern` as whole words.
pub open spec fn whole_words(pattern: Seq<char>) -> Seq<char> {
    "\\b(?:"@ + pattern + ")\\b"@
}

/// A pattern that stands for the text `literal` itself, as it is or as whole words.
pub open spec fn stands_for(source: (Seq<char>, bool), literal: Seq<char>) -> bool {
    !source.1 && (source.0 == escaped(literal) || source.0 == whole_words(escaped(literal)))
}

/// `part` stands somewhere in `whole`.
pub open spec fn occurs_in(part: Seq<char>, whole: Seq<char>) -> bool {
    exists|k: int|
        0 <= k <= whole.len() - part.len() && #[trigger] whole.subrange(k, k + part.len()) == part
}

/// The places in bytes where `part` stands in `whole` from the character `from` on, one after the
/// other: each is the first that does not reach into the one before it.
pub open spec fn occurrences(part: Seq<char>, whole: Seq<char>, from: int) -> Seq<(int, int)>
    decreases whole.len() + 1 - from,
{
    let to = from + part.len();
    if from < 0 || to > whole.len() {
        seq![]
    } else if whole.subrange(from, to) == part {
        let next = if part.len() == 0 {
            from + 1
        } else {
            to
        };
        seq![(byte_len(whole.take(from)) as int, byte_len(whole.take(to)) as int)] + occurrences(
            part,
            whole,
            next,
        )
    } else {
        occurrences(part, whole, from + 1)
    }
}

/// Calls `regex::escape`: every meta character gets a backslash before it, and nothing else
/// changes.
#[verifier::external_body]
pub(crate) fn escape(pattern: &str) -> (r: String)
    ensures
        r@ == escaped(pattern@),
{
    regex::escape(pattern)
}

/// The pattern is in the grammar of the `regex` crate.
pub uninterp spec fn in_grammar(source: (Seq<char>, bool)) -> bool;

/// Text of modest length. Where case is ignored, less is modest.
pub open spec fn is_modest(text: Seq<char>, ignore_case: bool) -> bool {
    text.len() <= if ignore_case {
        10000int
    } else {
        50000int
    }
}

/// A short pattern in which nothing is to be repeated a given number of times.
pub open spec fn is_short(pattern: Seq<char>) -> bool {
    pattern.len() <= 100 && !pattern.contains('{')
}

/// Calls `regex::RegexBuilder::build` with the case flag set: a compiled pattern is one made
/// from exactly this text and this flag, and it is in the grammar. An escaped text of modest
/// length compiles, as it is or as whole words: it is in the grammar, and takes up less memory
/// than a compiled pattern may. So does every short pattern in the grammar. Which other patterns
/// in the grammar are rejected is left open: it rests on the memory that they take up, which is
/// not the same on every machine.
#[verifier::external_body]
pub(crate) fn compile(pattern: &str, ignore_case: bool) -> (r: Result<Regex, regex::Error>)
    ensures
        r matches Ok(re) ==> regex_source(re) == (pattern@, ignore_case),
        r is Ok ==> in_grammar((pattern@, ignore_case)),
        forall|literal: Seq<char>| #[trigger]
            escaped(literal) == pattern@ && is_modest(literal, ignore_case) ==> r is Ok,
        forall|literal: Seq<char>|
            whole_words(#[trigger] escaped(literal)) == pattern@ && is_modest(literal, ignore_case)
                ==> r is Ok,
        in_grammar((pattern@, ignore_case)) && is_short(pattern@) ==> r is Ok,
{
    RegexBuilder::new(pattern).case_insensitive(ignore_case).build()
}

/// Calls `regex::Regex::is_match`: there is a match exactly if the list of successive matches
/// is not empty. An escaped text, with case told apart, is found where it occurs.
#[verifier::external_body]
pub(crate) fn is_match(re: &Regex, haystack: &str) -> (r: bool)
    ensures
        r == (regex_spans(regex_source(*re), haystack@).len() > 0),
        forall|literal: Seq<char>| #[trigger]
            escaped(literal) == regex_source(*re).0 && !regex_source(*re).1 ==> r == occurs_in(
                literal,
                haystack@,
            ),
{
    re.is_match(haystack)
}

/// Calls `regex::Regex::find_iter` and collects where each match starts and ends. The matches
/// of an escaped text, with case told apart, are that text, and without the demand for whole
/// words they are its occurrences from the left.
#[verifier::external_body]
pub(crate) fn find_spans(re: &Regex, haystack: &str) -> (r: Vec<(usize, usize)>)
    ensures
        span_views(r@) == regex_spans(regex_source(*re), haystack@),
        valid_spans(haystack@, span_views(r@)),
        forall|literal: Seq<char>, i: int|
            #![trigger escaped(literal), r@[i]]
            stands_for(regex_source(*re), literal) && 0 <= i < r@.len() ==> byte_slice(
                haystack@,
                r@[i].0 as int,
                r@[i].1 as int,
            ) == literal,
        forall|literal: Seq<char>| #[trigger]
            escaped(literal) == regex_source(*re).0 && !regex_source(*re).1 ==> span_views(r@)
                == occurrences(literal, haystack@, 0),
{
    re.find_iter(haystack).map(|m| (m.start(), m.end())).collect()
}

/// Calls `regex::Regex::captures_iter`: the same successive matches as `find_spans` gives, each
/// with its groups. Those of an escaped text, with case told apart, are its occurrences from the
/// left.
#[verifier::external_body]
pub(crate) fn find_captures<'h>(re: &Regex, haystack: &'h str) -> (r: Vec<Captures<'h>>)
    ensures
        captures_spans(r@) == regex_spans(regex_source(*re), haystack@),
        valid_spans(haystack@, captures_spans(r@)),
        forall|i: int|
            #![trigger r@[i]]
            0 <= i < r@.len() ==> captures_source(r@[i]) == (regex_source(*re), haystack@, i),
        forall|literal: Seq<char>| #[trigger]
            escaped(literal) == regex_source(*re).0 && !regex_source(*re).1 ==> captures_spans(r@)
                == occurrences(literal, haystack@, 0),
{
    re.captures_iter(haystack).collect()
}

/// Calls `regex::Captures::get` for group zero, the whole match, which is always there.
#[verifier::external_body]
pub(crate) fn captures_span(caps: &Captures<'_>) -> (r: (usize, usize))
    ensures
        (r.0 as int, r.1 as int) == captures_span_of(*caps),
{
    let m = caps.get(0).unwrap();
    (m.start(), m.end())
}

/// Calls `regex::Captures::expand`: the template, with its references to groups resolved, goes
/// to the end of `out`.
#[verifier::external_body]
pub(crate) fn expand(caps: &Captures<'_>, template: &str, out: &mut String)
    ensures
        final(out)@ == old(out)@ + regex_expansion(captures_source(*caps), template@),
{
    caps.expand(template, out)
}

/// From a character on, a text is found if and only if it stands somewhere there.
proof fn lemma_found_where_it_occurs(part: Seq<char>, whole: Seq<char>, from: int)
    requires
        0 <= from,
    ensures
        occurrences(part, whole, from).len() > 0 <==> exists|k: int|
            from <= k <= whole.len() - part.len() && #[trigger] whole.subrange(k, k + part.len())
                == part,
    decreases whole.len() + 1 - from,
{
    if from + part.len() <= whole.len() && whole.subrange(from, from + part.len()) != part {
        lemma_found_where_it_occurs(part, whole, from + 1);
    }
}

/// A text is found somewhere if and only if it occurs.
pub proof fn law_text_is_found_where_it_occurs(part: Seq<char>, whole: Seq<char>)
    ensures
        occurrences(part, whole, 0).len() > 0 <==> occurs_in(part, whole),
{
    lemma_found_where_it_occurs(part, whole, 0);
}

/// What is found of a text from a character on is that text, from the left and without overlap.
proof fn lemma_occurrences(part: Seq<char>, whole: Seq<char>, from: int)
    requires
        0 <= from,
    ensures
        valid_spans(whole, occurrences(part, whole, from)),
        forall|i: int|
            #![trigger occurrences(part, whole, from)[i]]
            0 <= i < occurrences(part, whole, from).len() ==> {
                let (start, end) = occurrences(part, whole, from)[i];
                &&& byte_len(whole.take(from)) <= start
                &&& byte_slice(whole, start, end) == part
            },
    decreases whole.len() + 1 - from,
{
    let to = from + part.len();
    if to <= whole.len() {
        lemma_part_in_bytes(whole, from, to);
        if from < whole.len() {
            lemma_part_in_bytes(whole, from, from + 1);
        }
        if whole.subrange(from, to) == part {
            let next = if part.len() == 0 {
                from + 1
            } else {
                to
            };
            lemma_occurrences(part, whole, next);
            let rest = occurrences(part, whole, next);
            let all = occurrences(part, whole, from);
            lemma_part_in_bytes(whole, to, to);
            assert forall|i: int| 1 <= i < all.len() implies all[i] == #[trigger] rest[i - 1] by {}
        } else {
            lemma_occurrences(part, whole, from + 1);
        }
    }
}

/// Every place from a character on where a text stands begins within a place that is found.
proof fn lemma_nothing_passed_over(part: Seq<char>, whole: Seq<char>, from: int, k: int) -> (i: int)
    requires
        part.len() > 0,
        0 <= from <= k <= whole.len() - part.len(),
        whole.subrange(k, k + part.len()) == part,
    ensures
        0 <= i < occurrences(part, whole, from).len(),
        occurrences(part, whole, from)[i].0 <= byte_len(whole.take(k)) < occurrences(
            part,
            whole,
            from,
        )[i].1,
    decreases whole.len() - from,
{
    let to = from + part.len();
    if whole.subrange(from, to) != part {
        lemma_nothing_passed_over(part, whole, from + 1, k)
    } else if k < to {
        lemma_part_in_bytes(whole, from, k);
        lemma_part_in_bytes(whole, k, to);
        0
    } else {
        lemma_nothing_passed_over(part, whole, to, k) + 1
    }
}

/// What is found of a text is that text, from the left and without overlap, and every place
/// where the text stands begins within a place that is found.
pub proof fn law_occurrences_are_from_the_left(part: Seq<char>, whole: Seq<char>)
    requires
        part.len() > 0,
    ensures
        valid_spans(whole, occurrences(part, whole, 0)),
        forall|i: int|
            #![trigger occurrences(part, whole, 0)[i]]
            0 <= i < occurrences(part, whole, 0).len() ==> byte_slice(
                whole,
                occurrences(part, whole, 0)[i].0,
                occurrences(part, whole, 0)[i].1,
            ) == part,
        forall|k: int|
            0 <= k <= whole.len() - part.len() && #[trigger] whole.subrange(k, k + part.len())
                == part ==> exists|i: int|
                0 <= i < occurrences(part, whole, 0).len() && (#[trigger] occurrences(
                    part,
                    whole,
                    0,
                )[i]).0 <= byte_len(whole.take(k)) < occurrences(part, whole, 0)[i].1,
{
    lemma_occurrences(part, whole, 0);
    assert forall|k: int|
        0 <= k <= whole.len() - part.len() && #[trigger] whole.subrange(k, k + part.len())
            == part implies exists|i: int|
        0 <= i < occurrences(part, whole, 0).len() && (#[trigger] occurrences(
            part,
            whole,
            0,
        )[i]).0 <= byte_len(whole.take(k)) < occurrences(part, whole, 0)[i].1 by {
        let i = lemma_nothing_passed_over(part, whole, 0, k);
        let found = occurrences(part, whole, 0)[i];
    }
}

/// Escaping puts a backslash before each character that the grammar gives a meaning, and leaves
/// every other as it is, one after the other.
pub proof fn law_escaping_goes_character_by_character(a: Seq<char>, b: Seq<char>, c: char)
    ensures
        escaped(a + b) == escaped(a) + escaped(b),
        escaped(seq![c]) == if "\\.+*?()|[]{}^$#&-~"@.contains(c) {
            seq!['\\', c]
        } else {
            seq![c]
        },
        escaped(Seq::<char>::empty()) == Seq::<char>::empty(),
    decreases b.len(),
{
    let metas = "\\.+*?()|[]{}^$#&-~"@;
    reveal_strlit("\\.+*?()|[]{}^$#&-~");
    assert(metas.contains(c) <==> is_meta(c)) by {
        assert(metas[0] == '\\' && metas[1] == '.' && metas[2] == '+' && metas[3] == '*');
        assert(metas[4] == '?' && metas[5] == '(' && metas[6] == ')' && metas[7] == '|');
        assert(metas[8] == '[' && metas[9] == ']' && metas[10] == '{' && metas[11] == '}');
        assert(metas[12] == '^' && metas[13] == '$' && metas[14] == '#' && metas[15] == '&');
        assert(metas[16] == '-' && metas[17] == '~' && metas.len() == 18);
    }
    assert(seq![c].drop_last() == Seq::<char>::empty());
    assert(escaped(Seq::<char>::empty()) == Seq::<char>::empty());
    if is_meta(c) {
        assert(escaped(seq![c]) == seq!['\\', c]);
    } else {
        assert(escaped(seq![c]) == seq![c]);
    }
    if b.len() == 0 {
        assert(a + b == a);
        assert(escaped(a) + escaped(b) == escaped(a));
    } else {
        law_escaping_goes_character_by_character(a, b.drop_last(), c);
        assert((a + b).drop_last() == a + b.drop_last());
        assert(escaped(a + b) == escaped(a) + escaped(b));
    }
}

/// The pattern for whole words is the pattern in a group, between two word boundaries.
pub proof fn law_whole_words_stand_between_boundaries(pattern: Seq<char>)
    ensures
        whole_words(pattern) == seq!['\\', 'b', '(', '?', ':'] + pattern + seq![')', '\\', 'b'],
{
    reveal_strlit("\\b(?:");
    reveal_strlit(")\\b");
    assert("\\b(?:"@ == seq!['\\', 'b', '(', '?', ':']);
    assert(")\\b"@ == seq![')', '\\', 'b']);
}

} // verus!
