//! Calendar dates as plain integers, with the `yyyy-mm-dd` rendering the log
//! format uses.  Validity (month ranges, month lengths, leap years) is part
//! of the type's well-formedness.

use vstd::prelude::*;
use vstd::string::StrSliceExecFns;
use vstd::string::StringExecFns;

use crate::text::{
    lemma_digits_val_of_pad, lemma_pad_digits_shape, pad_digits, pow10, scan_fixed,
    spec_scan_fixed, u32_to_padded_string,
};

verus! {

/// A calendar date.  Well-formed values (see [`Date::wf`]) have a valid
/// month, a day that exists in that month, and a year of at most four
/// digits, so that the `yyyy-mm-dd` rendering is exact.
#[derive(Clone, Copy, PartialEq, Eq, Structural, Debug)]
pub struct Date {
    pub year: u16,
    pub month: u8,
    pub day: u8,
}

pub open spec fn is_leap_year(y: int) -> bool {
    y % 4 == 0 && (y % 100 != 0 || y % 400 == 0)
}

pub open spec fn spec_days_in_month(y: int, m: int) -> int
    recommends
        1 <= m <= 12,
{
    if m == 2 {
        if is_leap_year(y) {
            29
        } else {
            28
        }
    } else if m == 4 || m == 6 || m == 9 || m == 11 {
        30
    } else {
        31
    }
}

pub open spec fn valid_ymd(y: int, m: int, d: int) -> bool {
    &&& 0 <= y <= 9999
    &&& 1 <= m <= 12
    &&& 1 <= d <= spec_days_in_month(y, m)
}

impl Date {
    pub open spec fn wf(self) -> bool {
        valid_ymd(self.year as int, self.month as int, self.day as int)
    }

    /// Builds a date, accepting exactly the calendar-valid combinations.
    pub fn new(year: u16, month: u8, day: u8) -> (r: Option<Date>)
        ensures
            match r {
                Some(d) => {
                    &&& d.wf()
                    &&& d == (Date { year, month, day })
                    &&& valid_ymd(year as int, month as int, day as int)
                },
                None => !valid_ymd(year as int, month as int, day as int),
            },
    {
        if year <= 9999 && 1 <= month && month <= 12 && 1 <= day && day
            <= days_in_month(year, month) {
            Some(Date { year, month, day })
        } else {
            None
        }
    }

    /// Renders the date as `yyyy-mm-dd`, zero padded.
    pub fn format_ymd(&self) -> (r: String)
        ensures
            r@ == ser_date(*self),
    {
        let mut s = u32_to_padded_string(self.year as u32, 4);
        s.append("-");
        let m = u32_to_padded_string(self.month as u32, 2);
        s.append(m.as_str());
        s.append("-");
        let d = u32_to_padded_string(self.day as u32, 2);
        s.append(d.as_str());
        proof {
            reveal_strlit("-");
            assert(s@ =~= ser_date(*self));
        }
        s
    }
}

/// Number of days in a month of the proleptic Gregorian calendar.
pub fn days_in_month(year: u16, month: u8) -> (r: u8)
    requires
        1 <= month <= 12,
    ensures
        r as int == spec_days_in_month(year as int, month as int),
{
    if month == 2 {
        if year % 4 == 0 && (year % 100 != 0 || year % 400 == 0) {
            29
        } else {
            28
        }
    } else if month == 4 || month == 6 || month == 9 || month == 11 {
        30
    } else {
        31
    }
}

/// The ten-character `yyyy-mm-dd` rendering.
pub open spec fn ser_date(d: Date) -> Seq<char> {
    pad_digits(d.year as nat, 4) + seq!['-'] + pad_digits(d.month as nat, 2) + seq!['-']
        + pad_digits(d.day as nat, 2)
}

/// Reads `yyyy-mm-dd` at position `i`, accepting exactly the calendar-valid
/// dates.
pub open spec fn spec_scan_date(s: Seq<char>, i: int) -> Option<(Date, int)>
    recommends
        0 <= i <= s.len(),
{
    if i + 10 <= s.len() && spec_scan_fixed(s, i, 4) is Some && s[i + 4] == '-' && spec_scan_fixed(
        s,
        i + 5,
        2,
    ) is Some && s[i + 7] == '-' && spec_scan_fixed(s, i + 8, 2) is Some {
        let y = spec_scan_fixed(s, i, 4)->Some_0;
        let m = spec_scan_fixed(s, i + 5, 2)->Some_0;
        let d = spec_scan_fixed(s, i + 8, 2)->Some_0;
        if valid_ymd(y as int, m as int, d as int) {
            Some((Date { year: y as u16, month: m as u8, day: d as u8 }, i + 10))
        } else {
            None
        }
    } else {
        None
    }
}

/// Scans `yyyy-mm-dd` at `i`.
pub fn scan_date(s: &str, i: usize) -> (r: Option<(Date, usize)>)
    requires
        i <= s@.len(),
    ensures
        match r {
            Some(p) => {
                &&& spec_scan_date(s@, i as int) == Some((p.0, p.1 as int))
                &&& p.0.wf()
                &&& p.1 == i + 10
                &&& i + 10 <= s@.len()
            },
            None => spec_scan_date(s@, i as int) is None,
        },
{
    let n = s.unicode_len();
    if n - i < 10 {
        return None;
    }
    let y = match scan_fixed(s, i, 4) {
        Some(v) => v,
        None => {
            return None;
        },
    };
    if s.get_char(i + 4) != '-' {
        return None;
    }
    let m = match scan_fixed(s, i + 5, 2) {
        Some(v) => v,
        None => {
            return None;
        },
    };
    if s.get_char(i + 7) != '-' {
        return None;
    }
    let d = match scan_fixed(s, i + 8, 2) {
        Some(v) => v,
        None => {
            return None;
        },
    };
    proof {
        assert(pow10(4) == 10000 && pow10(2) == 100) by {
            reveal_with_fuel(pow10, 5);
        }
    }
    match Date::new(y as u16, m as u8, d as u8) {
        Some(date) => Some((date, i + 10)),
        None => None,
    }
}

/// A well-formed date rendered at `i` scans back to itself.
pub proof fn lemma_scan_ser_date(s: Seq<char>, i: int, d: Date)
    requires
        d.wf(),
        0 <= i,
        i + 10 <= s.len(),
        s.subrange(i, i + 10) == ser_date(d),
    ensures
        spec_scan_date(s, i) == Some((d, i + 10)),
{
    let y = pad_digits(d.year as nat, 4);
    let m = pad_digits(d.month as nat, 2);
    let dd = pad_digits(d.day as nat, 2);
    lemma_pad_digits_shape(d.year as nat, 4);
    lemma_pad_digits_shape(d.month as nat, 2);
    lemma_pad_digits_shape(d.day as nat, 2);
    assert(ser_date(d) =~= y + seq!['-'] + m + seq!['-'] + dd);
    assert forall|k: int| 0 <= k < 10 implies s[i + k] == #[trigger] ser_date(d)[k] by {
        assert(s.subrange(i, i + 10)[k] == ser_date(d)[k]);
    }
    assert(pow10(4) == 10000 && pow10(2) == 100) by {
        reveal_with_fuel(pow10, 5);
    }
    assert forall|k: int| 0 <= k < 4 implies (#[trigger] s.subrange(i, i + 4)[k]) == y[k] by {
        assert(s[i + k] == ser_date(d)[k]);
        assert(ser_date(d)[k] == y[k]);
    }
    assert(s.subrange(i, i + 4) =~= y);
    lemma_digits_val_of_pad(s, i, 4, d.year as nat);
    assert(ser_date(d)[4] == '-');
    assert(s[i + 4] == '-');
    assert forall|k: int| 0 <= k < 2 implies (#[trigger] s.subrange(i + 5, i + 7)[k]) == m[k] by {
        assert(s[i + 5 + k] == ser_date(d)[5 + k]);
        assert(ser_date(d)[5 + k] == m[k]);
    }
    assert(s.subrange(i + 5, i + 7) =~= m);
    lemma_digits_val_of_pad(s, i + 5, 2, d.month as nat);
    assert(ser_date(d)[7] == '-');
    assert(s[i + 7] == '-');
    assert forall|k: int| 0 <= k < 2 implies (#[trigger] s.subrange(i + 8, i + 10)[k]) == dd[k] by {
        assert(s[i + 8 + k] == ser_date(d)[8 + k]);
        assert(ser_date(d)[8 + k] == dd[k]);
    }
    assert(s.subrange(i + 8, i + 10) =~= dd);
    lemma_digits_val_of_pad(s, i + 8, 2, d.day as nat);
}

} // verus!
