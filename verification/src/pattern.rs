//! Regular expressions, as the `regex` crate compiles and matches them.

use vstd::prelude::*;

verus! {

/// Names what `regex::Regex::new` says of a pattern: the text of its error, or
/// `None` where the pattern compiles.
pub uninterp spec fn regex_problem(pattern: Seq<char>) -> Option<Seq<char>>;

/// Names whether a compiled pattern matches somewhere in a text.
pub uninterp spec fn matches_somewhere(pattern: Seq<char>, text: Seq<char>) -> bool;

/// `regex::Regex::new` compiles a pattern or says what is wrong with it; either
/// depends on the pattern alone. The text is that of the error's `Display`.
#[verifier::external_body]
pub(crate) fn compile_failure(pattern: &str) -> (r: Option<String>)
    ensures
        crate::text::opt_view(r) == regex_problem(pattern@),
{
    regex::Regex::new(pattern).err().map(|error| error.to_string())
}

/// `regex::Regex::is_match` tells whether a pattern that compiles matches
/// anywhere in the text, which depends on the two alone. A pattern that does
/// not compile matches nothing.
#[verifier::external_body]
pub(crate) fn is_match(pattern: &str, text: &str) -> (r: bool)
    ensures
        r == (regex_problem(pattern@) is None && matches_somewhere(pattern@, text@)),
{
    match regex::Regex::new(pattern) {
        Ok(compiled) => compiled.is_match(text),
        Err(_) => false,
    }
}

} // verus!
