//! The time of a change, as the text that is written into a header.

use vstd::prelude::*;
use crate::text::is_suffix;

verus! {

/// A character that a time stamp is written with: a digit, or one of the
/// marks `+`, `-`, `:`, `.` and `T`.
pub open spec fn is_stamp_char(c: char) -> bool {
    ('0' as int <= c as int && c as int <= '9' as int) || c == '+' || c == '-' || c == ':' || c
        == '.' || c == 'T'
}

/// The form of a time stamp in UTC: a date and a time of day, written with
/// digits and the marks of RFC 3339, and the offset `+00:00` at the end.
pub open spec fn is_utc_stamp(text: Seq<char>) -> bool {
    &&& text.len() >= 25
    &&& is_suffix("+00:00"@, text)
    &&& forall|i: int| 0 <= i < text.len() ==> is_stamp_char(#[trigger] text[i])
}

/// Calls `chrono::Utc::now` and `DateTime::to_rfc3339`: the present moment
/// as an RFC 3339 time stamp. Assumed: the text has the form of a time stamp
/// in UTC. The year has four digits or more, month, day, hour, minute and
/// second have two each, a fraction of a second follows a point, and the
/// offset of UTC is written as `+00:00`. Nothing is assumed of the moment:
/// it differs from call to call.
#[verifier::external_body]
pub(crate) fn current_timestamp() -> (out: String)
    ensures
        is_utc_stamp(out@),
{
    chrono::Utc::now().to_rfc3339()
}

} // verus!
