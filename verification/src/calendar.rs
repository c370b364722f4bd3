//! The proleptic Gregorian calendar model and the exact text shapes the
//! date and timestamp recognizers build before handing them to the
//! datetime validator.

use vstd::prelude::*;
use crate::numfmt::{fmt_min2, pad_min};

verus! {

/// Gregorian leap-year rule.
pub open spec fn leap_year(y: int) -> bool {
    y % 4 == 0 && (y % 100 != 0 || y % 400 == 0)
}

/// Days in a month of the proleptic Gregorian calendar.
pub open spec fn days_in_month(y: int, m: int) -> int {
    if m == 2 {
        if leap_year(y) {
            29
        } else {
            28
        }
    } else if m == 4 || m == 6 || m == 9 || m == 11 {
        30
    } else {
        31
    }
}

/// Whether a century/year-in-century datetime is one the validator accepts:
/// both parts must render as two digits, the day must exist in the month,
/// and the time must be a valid clock time (a 60th second is allowed, as
/// leap-second notation).
pub open spec fn datetime_valid(cc: int, yy: int, mo: int, dd: int, hh: int, mi: int, ss: int) -> bool {
    &&& 1 <= cc <= 99
    &&& 0 <= yy <= 99
    &&& 1 <= mo <= 12
    &&& 1 <= dd <= days_in_month(cc * 100 + yy, mo)
    &&& 0 <= hh <= 23
    &&& 0 <= mi <= 59
    &&& 0 <= ss <= 60
}

/// The text a date decodes to: `CCYY-MM-DD HH:MM:SS` with every component
/// rendered at minimum width two.
pub open spec fn date_string_spec(cc: int, yy: int, mo: int, dd: int, hh: int, mi: int, ss: int) -> Seq<char> {
    fmt_min2(cc) + fmt_min2(yy) + seq!['-'] + fmt_min2(mo) + seq!['-'] + fmt_min2(dd) + seq![' ']
        + fmt_min2(hh) + seq![':'] + fmt_min2(mi) + seq![':'] + fmt_min2(ss)
}

/// The text a timestamp decodes to: a date string followed by a dot and
/// the fractional part at minimum width nine.
pub open spec fn ts_string_spec(
    cc: int,
    yy: int,
    mo: int,
    dd: int,
    hh: int,
    mi: int,
    ss: int,
    frac: int,
) -> Seq<char> {
    date_string_spec(cc, yy, mo, dd, hh, mi, ss) + seq!['.'] + pad_min(frac as nat, 9)
}

} // verus!
