//! The wall clock and its moments.
use vstd::prelude::*;
use vstd::string::*;

use crate::text::opt_view;

verus! {

/// Calls `chrono::Utc::now` and writes the moment with `DateTime::to_rfc3339`. Nothing is claimed
/// of the text: it depends on the clock.
#[verifier::external_body]
pub(crate) fn now_rfc3339() -> (r: String)
{
    chrono::Utc::now().to_rfc3339()
}

/// The moment so many days before another one, as `chrono` computes and writes it; nothing where
/// the text is no moment or the days lead out of the dates that `chrono` knows.
pub uninterp spec fn days_before(moment: Seq<char>, days: i64) -> Option<Seq<char>>;

/// Reads a moment with `chrono::DateTime::parse_from_rfc3339`, takes `chrono::Duration::try_days`
/// from it with `DateTime::checked_sub_signed` and writes it with `DateTime::to_rfc3339`. What
/// comes out is a function of the two arguments and has a name, `days_before`.
#[verifier::external_body]
pub(crate) fn subtract_days(moment: &str, days: i64) -> (r: Option<String>)
    ensures
        opt_view(r) == days_before(moment@, days),
{
    let read = chrono::DateTime::parse_from_rfc3339(moment).ok()?;
    let span = chrono::Duration::try_days(days)?;
    read.checked_sub_signed(span).map(|earlier| earlier.to_rfc3339())
}

} // verus!
