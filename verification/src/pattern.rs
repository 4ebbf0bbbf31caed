//! The boundary to the `regex` crate. Every pattern of the rule tables is
//! evaluated by that crate; the verified rules reason about its answers
//! through the two names declared here and know nothing else about them.

use regex::Regex;
use vstd::prelude::*;

verus! {

/// What `regex` answers when asked whether `pattern` matches anywhere in
/// `haystack`; `None` when the pattern does not compile.
pub uninterp spec fn regex_is_match(pattern: Seq<char>, haystack: Seq<char>) -> Option<bool>;

/// The text that the capture group called `group` holds in the leftmost match
/// of `pattern` in `haystack`, as `regex` gives it. The outer `None` says
/// that the pattern does not compile; the inner one that there is no match,
/// no group of that name, or that the group took no part in the match.
pub uninterp spec fn regex_group(
    pattern: Seq<char>,
    haystack: Seq<char>,
    group: Seq<char>,
) -> Option<Option<Seq<char>>>;

/// Whether `pattern` is a valid pattern that matches somewhere in `text`.
pub open spec fn pattern_matches(pattern: Seq<char>, text: Seq<char>) -> bool {
    regex_is_match(pattern, text) == Some(true)
}

/// The text captured by `group`, if `pattern` is valid, matches and the group
/// took part in the match.
pub open spec fn pattern_group(pattern: Seq<char>, text: Seq<char>, group: Seq<char>) -> Option<
    Seq<char>,
> {
    match regex_group(pattern, text, group) {
        Some(Some(captured)) => Some(captured),
        _ => None,
    }
}

/// The characters of an optional text.
pub open spec fn text_of(text: Option<String>) -> Option<Seq<char>> {
    match text {
        Some(text) => Some(text@),
        None => None,
    }
}

/// The characters of what a capture query answered.
pub open spec fn capture_of(captured: Option<Option<String>>) -> Option<Option<Seq<char>>> {
    match captured {
        Some(inner) => Some(text_of(inner)),
        None => None,
    }
}

/// Compiles `pattern` with `Regex::new` and asks `Regex::is_match` about
/// `haystack`; `None` stands for a pattern that `Regex::new` refuses. The
/// contract gives the answer its name and claims nothing about which texts
/// match.
#[verifier::external_body]
fn regex_search(pattern: &str, haystack: &str) -> (found: Option<bool>)
    ensures
        found == regex_is_match(pattern@, haystack@),
{
    match Regex::new(pattern) {
        Ok(re) => Some(re.is_match(haystack)),
        Err(_) => None,
    }
}

/// Compiles `pattern` with `Regex::new`, searches `haystack` with
/// `Regex::captures` and copies what `Captures::name` and `Match::as_str`
/// give for `group`; the outer `None` stands for a pattern that `Regex::new`
/// refuses. The contract gives the captured text its name and claims nothing
/// about what is captured.
#[verifier::external_body]
fn regex_capture(pattern: &str, haystack: &str, group: &str) -> (captured: Option<Option<String>>)
    ensures
        capture_of(captured) == regex_group(pattern@, haystack@, group@),
{
    match Regex::new(pattern) {
        Ok(re) => Some(
            match re.captures(haystack) {
                Some(caps) => match caps.name(group) {
                    Some(m) => Some(m.as_str().to_owned()),
                    None => None,
                },
                None => None,
            },
        ),
        Err(_) => None,
    }
}

/// Tells whether `pattern` matches somewhere in `text`. A pattern that does
/// not compile matches nothing.
pub fn is_match(pattern: &str, text: &str) -> (found: bool)
    ensures
        found == pattern_matches(pattern@, text@),
{
    match regex_search(pattern, text) {
        Some(found) => found,
        None => false,
    }
}

/// Returns the text that `group` captured in the leftmost match of `pattern`
/// in `text`. There is none when the pattern does not compile or does not
/// match, or when the group is unknown or took no part in the match.
pub fn captured_group(pattern: &str, text: &str, group: &str) -> (captured: Option<String>)
    ensures
        text_of(captured) == pattern_group(pattern@, text@, group@),
{
    match regex_capture(pattern, text, group) {
        Some(Some(captured)) => Some(captured),
        _ => None,
    }
}

} // verus!
