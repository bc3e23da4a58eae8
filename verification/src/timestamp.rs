//! Timestamps of records: RFC 3339 instants parsed and printed by `jiff`.

use vstd::prelude::*;
use crate::error::Error;
use crate::text::{chars_of, extend_chars, extend_str, string_of};

verus! {

broadcast use vstd::string::group_string_axioms;

/// What `jiff` makes of `text` as a `Timestamp`: on success, the instant's
/// RFC 3339 form (its `Display`) and its `strftime` rendering with
/// `pattern`; on failure, the parse error's message.
pub uninterp spec fn jiff_timestamp(text: Seq<char>, pattern: Seq<char>) -> Result<
    (Seq<char>, Seq<char>),
    Seq<char>,
>;

/// Calls `<jiff::Timestamp as FromStr>::from_str` on `text`, then, on
/// success, `Display` and `Timestamp::strftime(pattern)` on the instant, and
/// on failure `Display` on the error. The contract only names the outcome
/// (`jiff_timestamp`), which depends on the two arguments alone; what jiff
/// accepts and prints is not stated.
#[verifier::external_body]
fn parse_timestamp(text: &str, pattern: &str) -> (res: Result<(String, String), String>)
    ensures
        match res {
            Ok((canonical, formatted)) => jiff_timestamp(text@, pattern@) == Ok::<
                (Seq<char>, Seq<char>),
                Seq<char>,
            >((canonical@, formatted@)),
            Err(message) => jiff_timestamp(text@, pattern@) == Err::<(Seq<char>, Seq<char>), Seq<char>>(
                message@,
            ),
        },
{
    match text.parse::<jiff::Timestamp>() {
        Ok(t) => Ok((t.to_string(), t.strftime(pattern).to_string())),
        Err(e) => Err(e.to_string()),
    }
}

/// The `strftime` pattern of listed timestamps: milliseconds, no offset.
pub open spec fn millis_pattern() -> Seq<char> {
    "%Y-%m-%dT%H:%M:%S%.3f"@
}

/// How a stored timestamp is shown, given what parsing it gave: the
/// millisecond rendering followed by `Z`, or the stored text when it does
/// not parse.
pub open spec fn shown_ts_of(ts: Seq<char>, parsed: Result<(Seq<char>, Seq<char>), Seq<char>>) -> Seq<char> {
    match parsed {
        Ok((_, formatted)) => formatted.push('Z'),
        Err(_) => ts,
    }
}

/// How a stored timestamp is listed.
pub open spec fn shown_ts(ts: Seq<char>) -> Seq<char> {
    shown_ts_of(ts, jiff_timestamp(ts, millis_pattern()))
}

/// The view of a parse outcome.
pub open spec fn outcome_view(r: Result<(String, String), String>) -> Result<(Seq<char>, Seq<char>), Seq<char>> {
    match r {
        Ok((c, f)) => Ok((c@, f@)),
        Err(m) => Err(m@),
    }
}

/// Shows a stored timestamp from what parsing it gave.
pub fn show_parsed_ts(ts: &str, parsed: Result<(String, String), String>) -> (res: String)
    ensures
        res@ == shown_ts_of(ts@, outcome_view(parsed)),
{
    match parsed {
        Ok((_, formatted)) => {
            let mut cs = chars_of(formatted.as_str());
            cs.push('Z');
            string_of(&cs)
        },
        Err(_) => ts.to_string(),
    }
}

/// Formats a stored RFC 3339 timestamp with milliseconds
/// (`2026-07-08T21:13:30.864Z`); falls back to the stored text when it does
/// not parse.
pub fn format_ts(ts: &str) -> (res: String)
    ensures
        res@ == shown_ts(ts@),
{
    let parsed = parse_timestamp(ts, "%Y-%m-%dT%H:%M:%S%.3f");
    show_parsed_ts(ts, parsed)
}

/// The canonical timestamp for an override, given what parsing it gave: the
/// instant's RFC 3339 form, or a configuration error that quotes the
/// override and the parse error.
pub open spec fn override_outcome(over: Seq<char>, parsed: Result<(Seq<char>, Seq<char>), Seq<char>>) -> Result<Seq<char>, Seq<char>> {
    match parsed {
        Ok((canonical, _)) => Ok(canonical),
        Err(e) => Err("invalid PAPERCUTS_NOW '"@ + over + "': "@ + e),
    }
}

/// The timestamp for an override, from what parsing it gave.
pub fn override_from_parsed(over: &str, parsed: Result<(String, String), String>) -> (res: Result<String, Error>)
    ensures
        match override_outcome(over@, outcome_view(parsed)) {
            Ok(c) => res matches Ok(t) && t@ == c,
            Err(m) => res matches Err(Error::Config(e)) && e@ == m,
        },
{
    match parsed {
        Ok((canonical, _)) => Ok(canonical),
        Err(e) => {
            let mut m: Vec<char> = Vec::new();
            extend_str(&mut m, "invalid PAPERCUTS_NOW '");
            let oc = chars_of(over);
            extend_chars(&mut m, &oc);
            extend_str(&mut m, "': ");
            let ec = chars_of(e.as_str());
            extend_chars(&mut m, &ec);
            Err(Error::Config(string_of(&m)))
        },
    }
}

/// The current timestamp as overridden by `PAPERCUTS_NOW` (for
/// deterministic tests): the override in canonical RFC 3339 form, or a
/// configuration error when it does not parse.
pub fn timestamp_override(over: &str) -> (res: Result<String, Error>)
    ensures
        match override_outcome(over@, jiff_timestamp(over@, millis_pattern())) {
            Ok(c) => res matches Ok(t) && t@ == c,
            Err(m) => res matches Err(Error::Config(e)) && e@ == m,
        },
{
    let parsed = parse_timestamp(over, "%Y-%m-%dT%H:%M:%S%.3f");
    override_from_parsed(over, parsed)
}

} // verus!
