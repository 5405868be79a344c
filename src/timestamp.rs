use vstd::prelude::*;

verus! {

/// An instant on the UTC timeline, in milliseconds after 1970-01-01 00:00:00.
#[derive(Clone, Copy, Debug, PartialEq, Eq, Structural)]
pub struct Timestamp {
    pub millis: u64,
}

/// The last millisecond of the year 9999: every instant up to it has a text
/// form with a four-digit year.
pub const MAX_TEXT_MILLIS: u64 = 253402300799999;

/// The text `YYYY-MM-DD HH:MM:SS` of the UTC instant `millis` milliseconds
/// after the epoch, the form in which records store their instants.
pub uninterp spec fn utc_text(millis: int) -> Seq<char>;

/// Relies on chrono's `DateTime::from_timestamp_millis`, which gives `Some`
/// for every instant of the years 1970 to 9999, and on its `format` with
/// `%Y-%m-%d %H:%M:%S`, whose text depends on the instant alone.
#[verifier::external_body]
fn format_utc(millis: u64) -> (r: Option<String>)
    requires
        millis <= MAX_TEXT_MILLIS,
    ensures
        r is Some,
        r matches Some(t) ==> t@ == utc_text(millis as int),
{
    match chrono::DateTime::from_timestamp_millis(millis as i64) {
        Some(t) => Some(t.format("%Y-%m-%d %H:%M:%S").to_string()),
        None => None,
    }
}

impl Timestamp {
    /// The stored text form of this instant; `None` past the year 9999.
    pub fn to_text(&self) -> (r: Option<String>)
        ensures
            r is Some <==> self.millis <= MAX_TEXT_MILLIS,
            r matches Some(t) ==> t@ == utc_text(self.millis as int),
    {
        if self.millis <= MAX_TEXT_MILLIS {
            format_utc(self.millis)
        } else {
            None
        }
    }
}

} // verus!
