//! Matching identification fields against caller-supplied regular-expression
//! patterns, as the identification scan uses it: each field must match its
//! pattern in full, so the pattern is anchored before it is compiled.

use vstd::prelude::*;
use vstd::string::StringExecFns;
use crate::error::Error;

verus! {

/// Whether the regex crate accepts `pattern`; compilation succeeds on
/// exactly these patterns.
pub uninterp spec fn regex_pattern_valid(pattern: Seq<char>) -> bool;

/// Whether `pattern` matches somewhere in `text`, as the regex crate decides
/// it; a function of the two texts alone.
pub uninterp spec fn regex_is_match(pattern: Seq<char>, text: Seq<char>) -> bool;

/// The anchored form of a pattern: wrapped so that a match must cover the
/// whole text.
pub open spec fn spec_anchored(pattern: Seq<char>) -> Seq<char> {
    "^(?:"@ + pattern + ")$"@
}

/// Relies on `regex::Regex::new` and `regex::Regex::is_match`: whether a
/// pattern compiles depends on the pattern alone, and whether a compiled
/// pattern matches a haystack depends on the pattern and the haystack alone.
#[verifier::external_body]
fn compile_and_match(pattern: &str, text: &str) -> (r: Result<bool, Error>)
    ensures
        (r is Ok) == regex_pattern_valid(pattern@),
        match r {
            Ok(b) => b == regex_is_match(pattern@, text@),
            Err(e) => e == Error::InvalidString,
        },
{
    match regex::Regex::new(pattern) {
        Ok(re) => Ok(re.is_match(text)),
        Err(_) => Err(Error::InvalidString),
    }
}

/// Whether `pattern` matches the whole of `text`: the pattern is anchored and
/// compiled, and a pattern the regex crate rejects is an invalid-string
/// error.
pub fn matches_full(pattern: &str, text: &str) -> (r: Result<bool, Error>)
    ensures
        (r is Ok) == regex_pattern_valid(spec_anchored(pattern@)),
        match r {
            Ok(b) => b == regex_is_match(spec_anchored(pattern@), text@),
            Err(e) => e == Error::InvalidString,
        },
{
    let mut anchored = String::from_str("^(?:");
    anchored.append(pattern);
    anchored.append(")$");
    proof {
        assert(anchored@ =~= spec_anchored(pattern@));
    }
    compile_and_match(anchored.as_str(), text)
}

} // verus!
