//! Calendar dates for date cells, read through chrono, and the C# `DateTime`
//! constructor arguments written from them.

use vstd::prelude::*;
use crate::model::{Cell, CellV};
use crate::text::{decimal, signed_decimal, u64_text, i64_text};

verus! {

/// The calendar fields of a UTC instant, and its rendering with the pattern
/// `%a %b %e %H:%M:%S` (weekday, month, day, time).
pub struct DateParts {
    pub year: i32,
    pub month: u32,
    pub day: u32,
    pub hour: u32,
    pub minute: u32,
    pub second: u32,
    pub comment: String,
}

/// The mathematical value of `DateParts`.
pub struct DatePartsV {
    pub year: i32,
    pub month: u32,
    pub day: u32,
    pub hour: u32,
    pub minute: u32,
    pub second: u32,
    pub comment: Seq<char>,
}

impl View for DateParts {
    type V = DatePartsV;

    open spec fn view(&self) -> DatePartsV {
        DatePartsV {
            year: self.year,
            month: self.month,
            day: self.day,
            hour: self.hour,
            minute: self.minute,
            second: self.second,
            comment: self.comment@,
        }
    }
}

/// What chrono's `NaiveDateTime::from_timestamp_opt(secs, 0)` gives for a Unix
/// second, read out as calendar fields and the `%a %b %e %H:%M:%S` text;
/// `None` where chrono finds the second out of its range.
pub uninterp spec fn chrono_utc_parts(secs: i64) -> Option<DatePartsV>;

/// Calls chrono's `NaiveDateTime::from_timestamp_opt(secs, 0)` and reads the
/// result's year, month, day, hour, minute and second (`Datelike`,
/// `Timelike`) and its `format("%a %b %e %H:%M:%S")` text. The contract only
/// names the result: it is the same for the same `secs`, and `None` exactly
/// where chrono gives `None`; the calendar arithmetic is chrono's and is not
/// restated here.
#[verifier::external_body]
#[allow(deprecated)]
fn utc_parts(secs: i64) -> (r: Option<DateParts>)
    ensures
        match r {
            Some(p) => chrono_utc_parts(secs) == Some(p@),
            None => chrono_utc_parts(secs) is None,
        },
{
    match chrono::NaiveDateTime::from_timestamp_opt(secs, 0) {
        Some(dt) => Some(
            DateParts {
                year: chrono::Datelike::year(&dt),
                month: chrono::Datelike::month(&dt),
                day: chrono::Datelike::day(&dt),
                hour: chrono::Timelike::hour(&dt),
                minute: chrono::Timelike::minute(&dt),
                second: chrono::Timelike::second(&dt),
                comment: dt.format("%a %b %e %H:%M:%S").to_string(),
            },
        ),
        None => None,
    }
}

/// The date a cell stands for: none unless its text read as a date serial,
/// and then what chrono makes of the second after its whole seconds.
pub open spec fn cell_date(c: CellV) -> Option<DatePartsV> {
    match c.serial_seconds {
        Some(secs) => if secs < i64::MAX {
            chrono_utc_parts((secs + 1) as i64)
        } else {
            None
        },
        None => None,
    }
}

/// The date a cell stands for, if any.
pub fn get_datetime(col: &Cell) -> (r: Option<DateParts>)
    ensures
        match r {
            Some(p) => cell_date(col@) == Some(p@),
            None => cell_date(col@) is None,
        },
{
    match col.serial_seconds {
        Some(secs) => match secs.checked_add(1) {
            Some(next) => utc_parts(next),
            None => None,
        },
        None => None,
    }
}

/// The named arguments of a C# `DateTime` constructor for `p`, up to and
/// including the closing parenthesis.
pub open spec fn date_args(p: DatePartsV) -> Seq<char> {
    "year:"@ + signed_decimal(p.year as int) + ", month:"@ + decimal(p.month as nat) + ", day:"@
        + decimal(p.day as nat) + ", hour:"@ + decimal(p.hour as nat) + ", minute:"@ + decimal(
        p.minute as nat,
    ) + ", second:"@ + decimal(p.second as nat) + ", kind:DateTimeKind.Utc)"@
}

/// The named arguments of a C# `DateTime` constructor for `p`.
pub fn date_args_text(p: &DateParts) -> (r: String)
    ensures
        r@ == date_args(p@),
{
    let mut r = String::new();
    r.append("year:");
    r.append(i64_text(p.year as i64).as_str());
    r.append(", month:");
    r.append(u64_text(p.month as u64).as_str());
    r.append(", day:");
    r.append(u64_text(p.day as u64).as_str());
    r.append(", hour:");
    r.append(u64_text(p.hour as u64).as_str());
    r.append(", minute:");
    r.append(u64_text(p.minute as u64).as_str());
    r.append(", second:");
    r.append(u64_text(p.second as u64).as_str());
    r.append(", kind:DateTimeKind.Utc)");
    assert(r@ =~= date_args(p@));
    r
}

} // verus!
