//! From what the user typed to a compiled pattern.
use regex::Regex;
use vstd::prelude::*;

use crate::cli::Cli;
use crate::engine::{
    compile, escape, escaped, in_grammar, is_modest, is_short, regex_source, stands_for,
    whole_words,
};

verus! {

/// A pattern that does not compile.
pub struct PatternError {
    pub pattern: String,
    pub cause: regex::Error,
}

impl PatternError {
    /// What the user is told.
    pub fn message(&self) -> (r: String)
        ensures
            r@ == invalid_pattern(self.pattern@),
    {
        let mut out = "invalid pattern: ".to_owned();
        out.append(self.pattern.as_str());
        out
    }
}

/// What the user is told of a pattern that does not compile.
pub open spec fn invalid_pattern(pattern: Seq<char>) -> Seq<char> {
    "invalid pattern: "@ + pattern
}

/// The regular expression for a pattern under the given flags.
pub open spec fn pattern_text(pattern: Seq<char>, fixed: bool, word: bool) -> Seq<char> {
    let literal = if fixed {
        escaped(pattern)
    } else {
        pattern
    };
    if word {
        whole_words(literal)
    } else {
        literal
    }
}

/// The regular expression for a pattern under the given flags.
pub fn pattern_source(pattern: &str, fixed: bool, word: bool) -> (r: String)
    ensures
        r@ == pattern_text(pattern@, fixed, word),
{
    let literal = if fixed {
        escape(pattern)
    } else {
        pattern.to_owned()
    };
    if word {
        let mut out = "\\b(?:".to_owned();
        out.append(literal.as_str());
        out.append(")\\b");
        out
    } else {
        literal
    }
}

/// What comes of a compilation: the pattern, or an error that names what the user typed.
pub fn compiled(pattern: &str, outcome: Result<Regex, regex::Error>) -> (r: Result<
    Regex,
    PatternError,
>)
    ensures
        match outcome {
            Ok(re) => r == Ok::<Regex, PatternError>(re),
            Err(cause) => r matches Err(e) && e.pattern@ == pattern@ && e.cause == cause,
        },
{
    match outcome {
        Ok(re) => Ok(re),
        Err(cause) => Err(PatternError { pattern: pattern.to_owned(), cause }),
    }
}

/// A pattern that is plain text of modest length, by the flag or because it holds nothing else,
/// or a short one that is in the grammar.
pub open spec fn surely_compiles(cli: Cli, pattern: Seq<char>) -> bool {
    let source = pattern_text(pattern, cli.fixed_strings, cli.word);
    ||| is_modest(pattern, cli.ignore_case) && (cli.fixed_strings || escaped(pattern) == pattern)
    ||| is_short(source) && in_grammar((source, cli.ignore_case))
}

/// Compiles a pattern under the flags of the run. One that compiles is in the grammar; plain text
/// of modest length compiles, and so does what is short and in the grammar.
pub fn build_regex(cli: &Cli, pattern: &str) -> (r: Result<Regex, PatternError>)
    ensures
        match r {
            Ok(re) => regex_source(re) == (
                pattern_text(pattern@, cli.fixed_strings, cli.word),
                cli.ignore_case,
            ),
            Err(e) => e.pattern@ == pattern@,
        },
        r is Ok ==> in_grammar(
            (pattern_text(pattern@, cli.fixed_strings, cli.word), cli.ignore_case),
        ),
        surely_compiles(*cli, pattern@) ==> r is Ok,
{
    let source = pattern_source(pattern, cli.fixed_strings, cli.word);
    compiled(pattern, compile(source.as_str(), cli.ignore_case))
}

/// Under the flag for plain text, with case told apart, a pattern stands for itself.
pub proof fn law_fixed_strings_stand_for_themselves(pattern: Seq<char>, word: bool)
    ensures
        stands_for((pattern_text(pattern, true, word), false), pattern),
{
}

/// A pattern is taken as it stands or, under the flag for plain text, with everything escaped, and
/// under the flag for whole words it has to stand as one.
pub proof fn law_flags_decide_the_pattern(pattern: Seq<char>)
    ensures
        pattern_text(pattern, false, false) == pattern,
        pattern_text(pattern, true, false) == escaped(pattern),
        pattern_text(pattern, false, true) == whole_words(pattern),
        pattern_text(pattern, true, true) == whole_words(escaped(pattern)),
{
}

/// A message about a pattern ends in that pattern, as the user typed it.
pub proof fn law_message_names_the_pattern(pattern: Seq<char>)
    ensures
        invalid_pattern(pattern).skip("invalid pattern: "@.len() as int) == pattern,
        invalid_pattern(pattern).take("invalid pattern: "@.len() as int) == "invalid pattern: "@,
{
    let m = invalid_pattern(pattern);
    let n = "invalid pattern: "@.len() as int;
    assert(m.skip(n) == pattern);
    assert(m.take(n) == "invalid pattern: "@);
}

/// Every plain text of up to 50000 characters compiles, or of up to 10000 where case is ignored,
/// whatever characters it holds, and so does every pattern of up to 100 characters that is in the
/// grammar and repeats nothing a given number of times.
pub proof fn law_plain_and_short_patterns_compile(cli: Cli, pattern: Seq<char>)
    ensures
        cli.fixed_strings && pattern.len() <= 10000 ==> surely_compiles(cli, pattern),
        cli.fixed_strings && !cli.ignore_case && pattern.len() <= 50000 ==> surely_compiles(
            cli,
            pattern,
        ),
        !cli.fixed_strings && !cli.word && pattern.len() <= 100 && !pattern.contains('{')
            && in_grammar((pattern, cli.ignore_case)) ==> surely_compiles(cli, pattern),
{
}

} // verus!
