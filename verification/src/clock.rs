//! Calendar conversions, done by the `time` crate.

use vstd::prelude::*;

verus! {

/// The RFC 3339 text of the UTC instant `ts` seconds after the Unix epoch:
/// `None` when `ts` is outside the representable range, `Some(None)` when the
/// instant cannot be written as RFC 3339, `Some(Some(text))` otherwise.
pub uninterp spec fn rfc3339_of_unix(ts: i64) -> Option<Option<Seq<char>>>;

/// The Unix time (whole seconds) of an RFC 3339 timestamp, `None` when the text
/// does not parse as RFC 3339.
pub uninterp spec fn unix_of_rfc3339(text: Seq<char>) -> Option<i64>;

/// Renders `ts` with `OffsetDateTime::from_unix_timestamp` and
/// `OffsetDateTime::format(&Rfc3339)`. The contract only ties the result to the
/// name `rfc3339_of_unix`; the calendar arithmetic is the `time` crate's.
#[verifier::external_body]
pub(crate) fn format_unix_rfc3339(ts: i64) -> (r: Option<Option<String>>)
    ensures
        match r {
            None => rfc3339_of_unix(ts) is None,
            Some(None) => rfc3339_of_unix(ts) == Some(None::<Seq<char>>),
            Some(Some(s)) => rfc3339_of_unix(ts) == Some(Some(s@)),
        },
{
    time::OffsetDateTime::from_unix_timestamp(ts).ok().map(
        |dt| dt.format(&time::format_description::well_known::Rfc3339).ok(),
    )
}

/// Parses `text` with `OffsetDateTime::parse(text, &Rfc3339)` and takes
/// `unix_timestamp()`. The contract only ties the result to `unix_of_rfc3339`.
#[verifier::external_body]
pub(crate) fn parse_rfc3339_unix(text: &str) -> (r: Option<i64>)
    ensures
        r == unix_of_rfc3339(text@),
{
    time::OffsetDateTime::parse(text, &time::format_description::well_known::Rfc3339).ok().map(
        |dt| dt.unix_timestamp(),
    )
}

} // verus!
