//! Spans of time, as far as the protocol reads them: in whole milliseconds.

use std::time::Duration;
use vstd::prelude::*;

verus! {

/// How many whole milliseconds a span takes.
pub uninterp spec fn whole_millis(span: Duration) -> nat;

/// `Duration::from_millis`: a span of that many milliseconds.
pub assume_specification[ Duration::from_millis ](millis: u64) -> (span: Duration)
    ensures
        whole_millis(span) == millis,
;

/// `Duration::from_secs`: a span of that many seconds, each a thousand milliseconds.
pub assume_specification[ Duration::from_secs ](seconds: u64) -> (span: Duration)
    ensures
        whole_millis(span) == seconds * 1000,
;

/// `Duration::as_millis`: the whole milliseconds of a span.
pub assume_specification[ Duration::as_millis ](span: &Duration) -> (millis: u128)
    ensures
        millis as nat == whole_millis(*span),
;

/// A span in milliseconds, as far as 64 bits hold it.
pub open spec fn span_ms(span: Duration) -> u64 {
    if whole_millis(span) <= u64::MAX {
        whole_millis(span) as u64
    } else {
        u64::MAX
    }
}

/// The same, at run time.
pub fn duration_ms(span: Duration) -> (millis: u64)
    ensures
        millis == span_ms(span),
{
    let millis: u128 = span.as_millis();
    if millis <= u64::MAX as u128 {
        millis as u64
    } else {
        u64::MAX
    }
}

/// A span in milliseconds is what it takes, or as much as 64 bits hold.
pub proof fn law_span_is_whole_milliseconds(span: Duration)
    ensures
        whole_millis(span) <= u64::MAX ==> span_ms(span) == whole_millis(span),
        whole_millis(span) > u64::MAX ==> span_ms(span) == u64::MAX,
{
}

} // verus!
