//! Shell-style patterns, compiled and matched by the `glob` crate.

use vstd::prelude::*;
use glob::{MatchOptions, Pattern, PatternError};

verus! {

/// The error `glob::Pattern::new` reports for a malformed pattern.
#[verifier::external_type_specification]
#[verifier::external_body]
pub struct ExPatternError(PatternError);

/// Whether `glob::Pattern::new` accepts `pattern`.
pub uninterp spec fn glob_compiles(pattern: Seq<char>) -> bool;

/// The answer of `glob::Pattern::matches_with` when the pattern compiled
/// from `pattern` is matched against `text` under the three match options.
pub uninterp spec fn glob_matches(
    pattern: Seq<char>,
    text: Seq<char>,
    case_sensitive: bool,
    literal_separator: bool,
    literal_leading_dot: bool,
) -> bool;

/// Calls `glob::Pattern::new` and drops the compiled pattern.
///
/// Trusted: the call succeeds exactly on the patterns that `glob_compiles`
/// names, which is by definition what `Pattern::new` accepts.
#[verifier::external_body]
pub(crate) fn check_pattern(pattern: &str) -> (r: Result<(), PatternError>)
    ensures
        r is Ok == glob_compiles(pattern@),
{
    match Pattern::new(pattern) {
        Ok(_) => Ok(()),
        Err(e) => Err(e),
    }
}

/// Calls `glob::Pattern::matches_with` on the pattern that
/// `glob::Pattern::new` compiles from `pattern`.
///
/// Trusted: the answer is the one `glob_matches` names, and a pattern that
/// does not compile matches nothing.
#[verifier::external_body]
pub(crate) fn pattern_matches(
    pattern: &str,
    text: &str,
    case_sensitive: bool,
    literal_separator: bool,
    literal_leading_dot: bool,
) -> (r: bool)
    ensures
        r == (glob_compiles(pattern@) && glob_matches(
            pattern@,
            text@,
            case_sensitive,
            literal_separator,
            literal_leading_dot,
        )),
{
    let options = MatchOptions {
        case_sensitive: case_sensitive,
        require_literal_separator: literal_separator,
        require_literal_leading_dot: literal_leading_dot,
    };
    match Pattern::new(pattern) {
        Ok(compiled) => compiled.matches_with(text, options),
        Err(_) => false,
    }
}

} // verus!
