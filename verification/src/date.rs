//! The date of a report as it is written into the document: the name of the
//! month, the day of the month in two digits, a comma, and the year in four
//! digits, as in `March 05, 2024`.

use crate::text::{is_number, number_of};
use vstd::prelude::*;

verus! {

/// The name of a month, counted from one.
pub open spec fn month_name(month: int) -> Seq<char> {
    if month == 1 {
        "January"@
    } else if month == 2 {
        "February"@
    } else if month == 3 {
        "March"@
    } else if month == 4 {
        "April"@
    } else if month == 5 {
        "May"@
    } else if month == 6 {
        "June"@
    } else if month == 7 {
        "July"@
    } else if month == 8 {
        "August"@
    } else if month == 9 {
        "September"@
    } else if month == 10 {
        "October"@
    } else if month == 11 {
        "November"@
    } else {
        "December"@
    }
}

/// Whether the text is a day of the month in two digits, from `01` to `31`.
pub open spec fn is_day_text(text: Seq<char>) -> bool {
    text.len() == 2 && is_number(text) && 1 <= number_of(text) <= 31
}

/// Whether the text is a year: four digits, or a sign before four digits or
/// more.
pub open spec fn is_year_text(text: Seq<char>) -> bool {
    ||| text.len() == 4 && is_number(text)
    ||| text.len() >= 5 && (text[0] == '+' || text[0] == '-') && is_number(text.skip(1))
}

/// A month, a space, a day, a comma and a space, and a year.
pub open spec fn long_date(month: Seq<char>, day: Seq<char>, year: Seq<char>) -> Seq<char> {
    month + " "@ + day + ", "@ + year
}

/// Whether the text is a date: the name of a month, a day in two digits and
/// a year.
pub open spec fn is_long_date(text: Seq<char>) -> bool {
    exists|month: int, day: Seq<char>, year: Seq<char>|
        1 <= month <= 12 && is_day_text(day) && is_year_text(year) && text == #[trigger] long_date(
            month_name(month),
            day,
            year,
        )
}

/// Asks `chrono::Local::now` for the time on the machine's clock in the
/// machine's time zone, and has `DateTime::format` write its date with the
/// pattern `%B %d, %Y`.  Which date comes back depends on the day of the
/// call; what is claimed is its form.  chrono writes `%B` as the English name
/// of the month, `%d` as the day of the month in two digits, and `%Y` as the
/// year in four digits, or with a sign before it where the year lies outside
/// 0 to 9999.  chrono panics where the clock stands before 1970.
#[verifier::external_body]
pub(crate) fn get_current_date() -> (date: String)
    ensures
        is_long_date(date@),
{
    chrono::Local::now().format("%B %d, %Y").to_string()
}

} // verus!
