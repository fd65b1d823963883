//! The regular-expression engine: the one place where the library calls
//! the `regex` crate, and what it takes on trust from it.

use vstd::prelude::*;
use crate::text::{byte_slice, is_span, slice};

verus! {

/// The error that `regex::Regex::new` reports for a pattern it cannot compile.
#[verifier::external_type_specification]
#[verifier::external_body]
pub struct ExRegexError(regex::Error);

/// One match: for every capture group, the whole match being group 0, the
/// byte offsets at which it starts and ends, or `None` for a group that took
/// no part in the match.
pub type Captures = Vec<Option<(usize, usize)>>;

/// The mathematical value of a [`Captures`].
pub type CapturesView = Seq<Option<(usize, usize)>>;

/// What `regex::Regex::new(pattern)` followed by `Regex::captures_iter(text)`
/// yields: `None` where the pattern does not compile, else one entry per
/// match, in the order the iterator gives them, each holding for every capture
/// group (the whole match is group 0) the byte offsets where it starts and
/// ends, or `None` for a group that took no part in the match.
pub uninterp spec fn regex_captures(pattern: Seq<char>, text: Seq<char>) -> Option<
    Seq<CapturesView>,
>;

/// What holds of every list of matches that the engine reports on `text`:
/// group 0 is there in each match, every group starts and ends on a
/// character boundary of `text`, and no match starts before the one in front
/// of it has ended.
pub open spec fn captures_wf(text: Seq<char>, found: Seq<CapturesView>) -> bool {
    &&& forall|i: int|
        0 <= i < found.len() ==> (#[trigger] found[i]).len() > 0 && found[i][0] is Some
    &&& forall|i: int, j: int|
        0 <= i < found.len() && 0 <= j < found[i].len() ==> (#[trigger] found[i][j] matches Some(
            span,
        ) ==> is_span(text, span.0 as int, span.1 as int))
    &&& forall|i: int, j: int|
        0 <= i < j < found.len() ==> match_end(#[trigger] found[i]) <= match_start(
            #[trigger] found[j],
        )
}

/// The byte offset at which a match starts.
pub open spec fn match_start(found: CapturesView) -> int {
    match group(found, 0) {
        Some(span) => span.0 as int,
        None => 0,
    }
}

/// The byte offset at which a match ends.
pub open spec fn match_end(found: CapturesView) -> int {
    match group(found, 0) {
        Some(span) => span.1 as int,
        None => 0,
    }
}

/// Group `index` of one match, `None` also where the match has no such group.
pub open spec fn group(found: CapturesView, index: int) -> Option<(usize, usize)> {
    if 0 <= index < found.len() {
        found[index]
    } else {
        None
    }
}

/// The part of `text` that a group covers.
pub open spec fn span_text(text: Seq<char>, span: (usize, usize)) -> Seq<char> {
    byte_slice(text, span.0 as int, span.1 as int)
}

/// Calls `regex::Regex::new` on `pattern` and `Regex::captures_iter` on
/// `text`, and hands out the offsets of every group of every match
/// (`regex::Captures::iter`, `Match::start`, `Match::end`). Taken on trust:
/// the result depends on the two strings alone, and the matches are as
/// `captures_wf` says, which the crate documents for `regex::Captures::get`,
/// `Match::start`, `Match::end` and for the iterator's non-overlapping
/// matches.
#[verifier::external_body]
pub(crate) fn captures_iter(pattern: &str, text: &str) -> (r: Result<
    Vec<Captures>,
    regex::Error,
>)
    ensures
        match r {
            Ok(found) => regex_captures(pattern@, text@) == Some(found.deep_view())
                && captures_wf(text@, found.deep_view()),
            Err(_) => regex_captures(pattern@, text@) is None,
        },
{
    let re = regex::Regex::new(pattern)?;
    Ok(
        re.captures_iter(text).map(
            |c| c.iter().map(|g| g.map(|m| (m.start(), m.end()))).collect(),
        ).collect(),
    )
}

/// Group `index` of one match.
pub fn group_span(found: &Captures, index: usize) -> (span: Option<(usize, usize)>)
    ensures
        span == group(found.deep_view(), index as int),
{
    if index < found.len() {
        found[index]
    } else {
        None
    }
}

/// The text of a group that the engine reported on `text`.
pub fn span_str<'a>(text: &'a str, span: (usize, usize)) -> (part: &'a str)
    requires
        is_span(text@, span.0 as int, span.1 as int),
    ensures
        part@ == span_text(text@, span),
{
    slice(text, span.0, span.1)
}

} // verus!
