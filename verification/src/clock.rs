use vstd::prelude::*;

use crate::text::push_str;

verus! {

/// The earliest second since the Unix epoch that `chrono::DateTime<Utc>` holds:
/// the start of January 1 of the year -262143.
pub const EARLIEST_TIMESTAMP: i64 = -8334601228800i64;

/// The latest second since the Unix epoch that `chrono::DateTime<Utc>` holds:
/// the last second of December 31 of the year 262142.
pub const LATEST_TIMESTAMP: i64 = 8210266876799i64;

/// Whether `chrono::DateTime<Utc>` holds the moment `secs` seconds after the
/// Unix epoch.
pub open spec fn representable_timestamp(secs: int) -> bool {
    EARLIEST_TIMESTAMP <= secs <= LATEST_TIMESTAMP
}

/// What `chrono` writes for the UTC moment `secs` seconds after the Unix epoch
/// under the format `pattern`.
pub uninterp spec fn utc_format_text(secs: int, pattern: Seq<char>) -> Seq<char>;

/// The two formats that this library writes dates in.
pub open spec fn known_pattern(pattern: Seq<char>) -> bool {
    pattern == "%Y-%m-%d %H:%M UTC"@ || pattern == "%Y-%m-%d"@
}

/// Calls `chrono::DateTime::<Utc>::from_timestamp(secs, 0)` and, when it gives a
/// moment, `format(pattern).to_string()` on it. Trusted: `from_timestamp` gives a
/// moment exactly on the range above (chrono's `NaiveDate::MIN` to `MAX`), and
/// the text is `utc_format_text` of the arguments. Both patterns hold only
/// valid specifiers, so `to_string` does not fail on them.
#[verifier::external_body]
fn format_utc(secs: i64, pattern: &str) -> (r: Option<String>)
    requires
        known_pattern(pattern@),
    ensures
        r is Some <==> representable_timestamp(secs as int),
        r matches Some(text) ==> text@ == utc_format_text(secs as int, pattern@),
{
    match chrono::DateTime::from_timestamp(secs, 0) {
        Some(moment) => Some(moment.format(pattern).to_string()),
        None => None,
    }
}

/// The moment as the block's footer shows it: `%Y-%m-%d %H:%M UTC`.
pub fn utc_minute_stamp(secs: i64) -> (r: String)
    requires
        representable_timestamp(secs as int),
    ensures
        r@ == utc_format_text(secs as int, "%Y-%m-%d %H:%M UTC"@),
{
    match format_utc(secs, "%Y-%m-%d %H:%M UTC") {
        Some(text) => text,
        None => String::new(),
    }
}

/// The day of the moment: `%Y-%m-%d`.
pub fn utc_date_stamp(secs: i64) -> (r: String)
    requires
        representable_timestamp(secs as int),
    ensures
        r@ == utc_format_text(secs as int, "%Y-%m-%d"@),
{
    match format_utc(secs, "%Y-%m-%d") {
        Some(text) => text,
        None => String::new(),
    }
}

/// The largest number of days that `chrono::TimeDelta::days` accepts: their
/// seconds must stay within `i64::MAX` milliseconds.
pub const MAX_LOOKBACK_DAYS: i64 = 106751991167i64;

/// The moment `lookback_days` days before `now`, in seconds since the Unix epoch.
pub open spec fn lookback_start(now: int, lookback_days: int) -> int {
    now - lookback_days * 86400
}

/// The lookback goes back exactly `lookback_days` whole days of 86400 seconds,
/// for every day count that `chrono` accepts: one day more starts one day
/// earlier.
pub proof fn lemma_lookback_whole_days(now: int, lookback_days: int)
    requires
        -MAX_LOOKBACK_DAYS <= lookback_days <= MAX_LOOKBACK_DAYS,
    ensures
        lookback_start(now, lookback_days) == now - lookback_days * 86400,
        lookback_start(now, lookback_days + 1) == lookback_start(now, lookback_days) - 86400,
        lookback_start(now, 0) == now,
{
}

/// The search for the author's merged pull requests since the day `lookback_days`
/// days before `now`, outside the author's own repositories, recently updated first.
pub open spec fn search_query_text(login: Seq<char>, since: Seq<char>) -> Seq<char> {
    "author:"@ + login + " is:pr is:merged merged:>="@ + since + " -user:"@ + login
        + " sort:updated-desc"@
}

/// The search for the author's recently merged pull requests.
pub fn search_query(login: &str, now: i64, lookback_days: i64) -> (r: String)
    requires
        -MAX_LOOKBACK_DAYS <= lookback_days <= MAX_LOOKBACK_DAYS,
        representable_timestamp(lookback_start(now as int, lookback_days as int)),
    ensures
        r@ == search_query_text(
            login@,
            utc_format_text(lookback_start(now as int, lookback_days as int), "%Y-%m-%d"@),
        ),
        r@ == search_query_text(
            login@,
            utc_format_text(now - lookback_days * 86400, "%Y-%m-%d"@),
        ),
{
    let start = now - lookback_days * 86400;
    let since = utc_date_stamp(start);
    let mut r = String::new();
    push_str(&mut r, "author:");
    push_str(&mut r, login);
    push_str(&mut r, " is:pr is:merged merged:>=");
    push_str(&mut r, since.as_str());
    push_str(&mut r, " -user:");
    push_str(&mut r, login);
    push_str(&mut r, " sort:updated-desc");
    r
}

} // verus!
