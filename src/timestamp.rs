use vstd::prelude::*;

use chrono::TimeZone;

verus! {

/// What a lookup of an L2 block by number gave.
pub enum BlockLookup {
    /// The block is accepted and carries this UNIX timestamp, in seconds.
    Available(u64),
    /// The block is still pending.
    Pending,
    /// The lookup failed.
    NotFound,
}

/// The UTC calendar time of a UNIX timestamp, written `YYYY-MM-DD HH:MM:SS UTC`.
pub uninterp spec fn utc_text_of(secs: int) -> Seq<char>;

/// Last second of the year 9999, `9999-12-31 23:59:59 UTC`.
pub const LAST_CALENDAR_SECOND: u64 = 253402300799;

/// Relies on chrono's `TimeZone::timestamp_opt` for `Utc` and on
/// `DateTime::format` with `%Y-%m-%d %H:%M:%S UTC`: the UTC calendar time of the
/// timestamp. chrono gives a single time for every timestamp whose date lies in
/// its calendar, which holds every year from 1970 to 9999.
#[verifier::external_body]
fn format_utc(secs: i64) -> (r: Option<String>)
    ensures
        r matches Some(s) ==> s@ == utc_text_of(secs as int),
        0 <= secs <= LAST_CALENDAR_SECOND ==> r is Some,
{
    match chrono::Utc.timestamp_opt(secs, 0).single() {
        Some(d) => Some(d.format("%Y-%m-%d %H:%M:%S UTC").to_string()),
        None => None,
    }
}

/// The text shown for a block that is still pending.
pub open spec fn pending_text() -> Seq<char> {
    "BLOCK STILL PENDING"@
}

/// The text shown for a block whose lookup failed.
pub open spec fn not_found_text() -> Seq<char> {
    "BLOCK NOT FOUND"@
}

/// The text shown for a block whose timestamp has no calendar date.
pub open spec fn out_of_range_text() -> Seq<char> {
    "BLOCK TIMESTAMP OUT OF RANGE"@
}

/// The timestamp column of a record: the block's UTC time, or the status of a
/// block that is pending, was not found, or carries a timestamp beyond the
/// calendar. A failed lookup never keeps a row out of the report.
pub fn block_time_text(lookup: &BlockLookup) -> (r: String)
    ensures
        lookup is Pending ==> r@ == pending_text(),
        lookup is NotFound ==> r@ == not_found_text(),
        lookup matches BlockLookup::Available(secs) ==> {
            &&& secs <= LAST_CALENDAR_SECOND ==> r@ == utc_text_of(secs as int)
            &&& secs > i64::MAX ==> r@ == out_of_range_text()
            &&& r@ == utc_text_of(secs as int) || r@ == out_of_range_text()
        },
{
    match lookup {
        BlockLookup::Available(secs) => {
            if *secs > i64::MAX as u64 {
                return String::from_str("BLOCK TIMESTAMP OUT OF RANGE");
            }
            match format_utc(*secs as i64) {
                Some(s) => s,
                None => String::from_str("BLOCK TIMESTAMP OUT OF RANGE"),
            }
        },
        BlockLookup::Pending => String::from_str("BLOCK STILL PENDING"),
        BlockLookup::NotFound => String::from_str("BLOCK NOT FOUND"),
    }
}

} // verus!
