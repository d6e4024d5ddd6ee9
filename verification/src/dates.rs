//! Timestamps as the store keeps them: the RFC 2822 text that is written to
//! entry files and index rows, paired with the instant it denotes in Unix
//! seconds, so that chronological ordering is plain integer ordering.

use vstd::prelude::*;

verus! {

/// The instant that an RFC 2822 date line denotes, in Unix seconds, or
/// `None` when the text (after trimming surrounding whitespace) is not such
/// a date. The value is a function of the characters alone.
pub uninterp spec fn rfc2822_epoch(s: Seq<char>) -> Option<i64>;

/// A moment in time: the date text as stored, and the instant it denotes.
#[derive(Clone, Debug)]
pub struct DateStamp {
    /// The RFC 2822 text, e.g. `Tue, 1 Jul 2003 10:52:37 +0200`.
    pub raw: String,
    /// The same moment in Unix seconds; the ordering key.
    pub epoch: i64,
}

impl DateStamp {
    /// The text and the instant agree.
    pub open spec fn wf(self) -> bool {
        rfc2822_epoch(self.raw@) == Some(self.epoch)
    }
}

/// Relies on chrono's `DateTime::parse_from_rfc2822` and `timestamp`: the
/// instant an RFC 2822 date line (trimmed of surrounding whitespace)
/// denotes, a function of the characters alone.
#[verifier::external_body]
fn parse_rfc2822(s: &str) -> (r: Option<i64>)
    ensures
        r == rfc2822_epoch(s@),
{
    chrono::DateTime::parse_from_rfc2822(s.trim()).ok().map(|d| d.timestamp())
}

/// Reads a date line into a stamp, keeping the text as given.
pub fn parse_stamp(s: &str) -> (r: Option<DateStamp>)
    ensures
        match r {
            Some(d) => d.wf() && d.raw@ == s@ && rfc2822_epoch(s@) == Some(d.epoch),
            None => rfc2822_epoch(s@) is None,
        },
{
    match parse_rfc2822(s) {
        Some(t) => Some(DateStamp { raw: String::from_str(s), epoch: t }),
        None => None,
    }
}

/// Relies on chrono's `Local::now`, `to_rfc2822` and `timestamp`: the current
/// moment rendered as RFC 2822 text. Whatever moment the clock reports, the
/// rendered text denotes that same instant (the format keeps second
/// precision and the offset).
#[verifier::external_body]
fn now_parts() -> (r: (String, i64))
    ensures
        rfc2822_epoch(r.0@) == Some(r.1),
{
    let d = chrono::offset::Local::now();
    (d.to_rfc2822(), d.timestamp())
}

/// The present moment as a stamp.
pub fn now_stamp() -> (r: DateStamp)
    ensures
        r.wf(),
{
    let (raw, epoch) = now_parts();
    DateStamp { raw, epoch }
}

} // verus!
