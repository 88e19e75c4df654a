use vstd::prelude::*;
use crate::instant::TimeOfDay;

verus! {

/// What `chrono::NaiveTime::parse_from_str` yields on a given input and
/// format: the parsed time as whole seconds since midnight, or nothing
/// when the input does not match the format.
pub uninterp spec fn naive_time_parse(s: Seq<char>, fmt: Seq<char>) -> Option<u32>;

/// The error returned when a time-of-day string matches none of the
/// accepted formats.
#[derive(Debug, Clone, Copy, PartialEq, Eq, Structural)]
pub struct TimeParseError;

#[verifier::external_type_specification]
#[verifier::external_body]
pub struct ExParseError(chrono::format::ParseError);

/// Relies on chrono::NaiveTime::parse_from_str: the result depends on the
/// input and the format alone, and a parsed time always lies within the
/// day — its `num_seconds_from_midnight` is below 86400.
#[verifier::external_body]
fn parse_naive_time(s: &str, fmt: &str) -> (r: Result<u32, chrono::format::ParseError>)
    ensures
        match r {
            Ok(v) => naive_time_parse(s@, fmt@) == Some(v) && v < 86400,
            Err(_) => naive_time_parse(s@, fmt@) is None,
        },
{
    chrono::NaiveTime::parse_from_str(s, fmt)
        .map(|t| chrono::Timelike::num_seconds_from_midnight(&t))
}

/// The times `parse_time` accepts: a 24-hour or 12-hour clock reading,
/// with or without seconds, tried in that order.
pub open spec fn time_parse_spec(s: Seq<char>) -> Option<u32> {
    if naive_time_parse(s, "%H:%M:%S"@) is Some {
        naive_time_parse(s, "%H:%M:%S"@)
    } else if naive_time_parse(s, "%I:%M:%S %p"@) is Some {
        naive_time_parse(s, "%I:%M:%S %p"@)
    } else if naive_time_parse(s, "%H:%M"@) is Some {
        naive_time_parse(s, "%H:%M"@)
    } else {
        naive_time_parse(s, "%I:%M %p"@)
    }
}

/// Parses a time of day from text, accepting readings such as `14:52:13`,
/// `2:52:13 pm`, `14:52` and `2:52 PM`.
pub fn parse_time(s: &str) -> (r: Result<TimeOfDay, TimeParseError>)
    ensures
        match r {
            Ok(t) => time_parse_spec(s@) == Some(t.secs) && t.wf(),
            Err(_) => time_parse_spec(s@) is None,
        },
{
    match parse_naive_time(s, "%H:%M:%S") {
        Ok(v) => {
            return Ok(TimeOfDay { secs: v });
        }
        Err(_) => {}
    }
    match parse_naive_time(s, "%I:%M:%S %p") {
        Ok(v) => {
            return Ok(TimeOfDay { secs: v });
        }
        Err(_) => {}
    }
    match parse_naive_time(s, "%H:%M") {
        Ok(v) => {
            return Ok(TimeOfDay { secs: v });
        }
        Err(_) => {}
    }
    match parse_naive_time(s, "%I:%M %p") {
        Ok(v) => {
            return Ok(TimeOfDay { secs: v });
        }
        Err(_) => {}
    }
    Err(TimeParseError)
}

} // verus!
