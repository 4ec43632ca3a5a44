//! Shell-style word splitting and joining, done by the `shell_words` crate.

use vstd::prelude::*;

verus! {

/// What `shell_words::split` makes of a command line: the words, or `None` where a
/// quote is left open.
pub uninterp spec fn shell_split(line: Seq<char>) -> Option<Seq<Seq<char>>>;

/// What `shell_words::join` makes of a list of words.
pub uninterp spec fn shell_join(words: Seq<Seq<char>>) -> Seq<char>;

#[verifier::external_type_specification]
#[verifier::external_body]
pub struct ExSplitError(shell_words::ParseError);

/// `shell_words::split`: splits a command line into words by the quoting rules of a
/// Unix shell. The contract claims that the words, or the failure, are `shell_split`
/// of the line, a function of the line alone.
#[verifier::external_body]
pub(crate) fn split_line(line: &str) -> (r: Result<Vec<String>, shell_words::ParseError>)
    ensures
        r is Ok <==> shell_split(line@) is Some,
        r matches Ok(words) ==> shell_split(line@) == Some(words.deep_view()),
{
    shell_words::split(line)
}

/// `shell_words::join`: quotes each word with `shell_words::quote` and joins the
/// quoted words with single spaces. The contract claims that the line is `shell_join`
/// of the words, a function of the words alone, and that `shell_words::split` reads
/// the line back as the words: the crate documents `join` as the inverse of `split`,
/// quotes every character that `split` treats as special (white space, quotes, `\`,
/// `#`), and checks the round trip in its own tests.
#[verifier::external_body]
pub(crate) fn join_line(words: &[String]) -> (r: String)
    ensures
        r@ == shell_join(words@.map_values(|w: String| w@)),
        shell_split(r@) == Some(words@.map_values(|w: String| w@)),
{
    shell_words::join(words)
}

/// The words of a command line, or `None` where a quote is left open.
pub fn split_words(line: &str) -> (r: Option<Vec<String>>)
    ensures
        match shell_split(line@) {
            Some(w) => r matches Some(v) && v.deep_view() == w,
            None => r is None,
        },
{
    match split_line(line) {
        Ok(words) => Some(words),
        Err(_) => None,
    }
}

} // verus!
