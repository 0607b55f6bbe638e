//! Regular expressions over bytes, compiled and run by the `regex` crate.
//! Its behaviour is stated, not proved, by `compile`, `capture_group` and
//! `error_message`. Every `Regex` held here comes from `compile`, that is
//! from `Regex::new` with default options: the statements speak of such.

use regex::bytes::Regex;
use vstd::prelude::*;

verus! {

/// A compiled regular expression over bytes. Its inside is not visible to
/// proofs; `pattern_text` names the text it was compiled from.
#[verifier::external_type_specification]
#[verifier::external_body]
pub struct ExRegex(regex::bytes::Regex);

/// What `regex` reports when a pattern does not compile.
#[verifier::external_type_specification]
#[verifier::external_body]
pub struct ExRegexError(regex::Error);

/// The pattern text that `re` was compiled from, which `Regex::as_str`
/// returns.
pub uninterp spec fn pattern_text(re: Regex) -> Seq<char>;

/// The bytes that capture group `group` holds in the leftmost match in
/// `haystack` of the expression that `Regex::new` makes of `pattern`: `None`
/// where the expression matches nowhere, has no such group, or matched
/// without that group taking part.
pub uninterp spec fn captured(pattern: Seq<char>, haystack: Seq<u8>, group: nat) -> Option<
    Seq<u8>,
>;

/// `Regex::new` either compiles the pattern, and the regex then remembers
/// the very text it was given, or reports why it cannot. Which of the two
/// happens is not stated, and has no name: besides faults of syntax the
/// compiler refuses a program over its size limit, and it counts that size
/// in bytes of its own data structures, which differ with the machine's
/// word size.
#[verifier::external_body]
fn compile(pattern: &str) -> (res: Result<Regex, regex::Error>)
    ensures
        res matches Ok(re) ==> pattern_text(re) == pattern@,
{
    Regex::new(pattern)
}

/// `Regex::captures` searches `haystack` for the leftmost match and
/// `Captures::get` picks one group of it; the result is a copy of the bytes
/// of that group, as `Match::as_bytes` gives them.
#[verifier::external_body]
fn capture_group(re: &Regex, haystack: &[u8], group: usize) -> (found: Option<Vec<u8>>)
    ensures
        match found {
            Some(bytes) => captured(pattern_text(*re), haystack@, group as nat) == Some(bytes@),
            None => captured(pattern_text(*re), haystack@, group as nat).is_none(),
        },
{
    let caps = re.captures(haystack)?;
    let hit = caps.get(group)?;
    Some(hit.as_bytes().to_vec())
}

/// The message that `regex::Error` displays.
#[verifier::external_body]
fn error_message(error: &regex::Error) -> (message: String) {
    error.to_string()
}

/// Why a pattern was refused.
#[derive(Debug, Clone, PartialEq, Eq)]
pub struct PatternError {
    /// The compiler's own description of the fault.
    pub message: String,
}

/// A pattern that compiled. Its value in contracts is its source text.
#[derive(Debug)]
pub struct Pattern {
    regex: Regex,
}

impl View for Pattern {
    type V = Seq<char>;

    closed spec fn view(&self) -> Seq<char> {
        pattern_text(self.regex)
    }
}

impl Pattern {
    /// Compiles `source`. A pattern that comes back stands for exactly the
    /// text given; whether one comes back is the compiler's decision.
    pub fn compile(source: &str) -> (res: Result<Pattern, PatternError>)
        ensures
            res matches Ok(pattern) ==> pattern@ == source@,
    {
        Pattern::from_outcome(compile(source))
    }

    /// Takes what the compiler gave: its expression becomes the pattern, its
    /// error becomes the refusal with the compiler's message.
    fn from_outcome(outcome: Result<Regex, regex::Error>) -> (res: Result<Pattern, PatternError>)
        ensures
            match outcome {
                Ok(regex) => res matches Ok(pattern) && pattern@ == pattern_text(regex),
                Err(_) => res is Err,
            },
    {
        match outcome {
            Ok(regex) => Ok(Pattern { regex }),
            Err(error) => Err(PatternError { message: error_message(&error) }),
        }
    }

    /// The compiled expression, for handing to a reader of the index.
    pub fn regex(&self) -> (re: &Regex)
        ensures
            pattern_text(*re) == self@,
    {
        &self.regex
    }

    /// The bytes of capture group `group` in the leftmost match in `haystack`.
    pub fn capture(&self, haystack: &[u8], group: usize) -> (found: Option<Vec<u8>>)
        ensures
            match found {
                Some(bytes) => captured(self@, haystack@, group as nat) == Some(bytes@),
                None => captured(self@, haystack@, group as nat).is_none(),
            },
    {
        capture_group(&self.regex, haystack, group)
    }
}

} // verus!
