//! Calendar days written `YYYY-MM-DD`.
use vstd::prelude::*;

verus! {

/// The `YYYY-MM-DD` text of the day before the day that `day` names, or
/// `None` where `day` does not name a day in that form (or names the first
/// day chrono can represent).
pub uninterp spec fn spec_previous_day(day: Seq<char>) -> Option<Seq<char>>;

/// `chrono::NaiveDate::parse_from_str(day, "%Y-%m-%d")`, one day taken off
/// with `NaiveDate::checked_sub_signed`, and the result formatted
/// `%Y-%m-%d`. The contract only ties the result to `day` by the name
/// `spec_previous_day`: calendar arithmetic is chrono's and is not restated.
#[verifier::external_body]
pub(crate) fn previous_day(day: &str) -> (r: Option<String>)
    ensures
        match r {
            Some(p) => spec_previous_day(day@) == Some(p@),
            None => spec_previous_day(day@) is None,
        },
{
    let d = chrono::NaiveDate::parse_from_str(day, "%Y-%m-%d").ok()?;
    let p = d.checked_sub_signed(chrono::Duration::days(1))?;
    Some(p.format("%Y-%m-%d").to_string())
}

} // verus!
