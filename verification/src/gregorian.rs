use vstd::prelude::*;
use vstd::arithmetic::div_mod::{
    lemma_basic_div, lemma_div_is_ordered, lemma_div_pos_is_pos, lemma_fundamental_div_mod,
    lemma_fundamental_div_mod_converse_div, lemma_fundamental_div_mod_converse_mod,
    lemma_mod_division_less_than_divisor,
};
use crate::arith::{lemma_cycle_bounds, lemma_cycle_extract};
use crate::text::{padded_year, decimal_string, string_of_str};
use crate::{weekday_of_jdn, MAX_JDN, MAX_YEAR};
use vstd::string::StringExecFns;

verus! {

/// JDN of 1 March of proleptic Gregorian year 0, the first supported day.
pub const GREGORIAN_FIRST_JDN: usize = 1721120;

/// The JDN of a proleptic Gregorian date, by the classical astronomical
/// formula: shift the year to start in March, then count the days before it
/// with one leap day per 4 years, skipped each century, restored each 4th
/// century, and the days before the month by the 153-days-per-5-months rule.
pub open spec fn gregorian_jdn(y: int, m: int, d: int) -> int {
    let a: int = (14 - m) / 12;
    let yy: int = y + 4800 - a;
    let mm: int = m + 12 * a - 3;
    d + (153 * mm + 2) / 5 + 365 * yy + yy / 4 - yy / 100 + yy / 400 - 32045
}

/// The proleptic Gregorian date of a JDN, inverting the formula cycle by
/// cycle: 400-year eras of 146097 days, centuries, 4-year cycles, months.
pub open spec fn gregorian_from_jdn_spec(j: int) -> (int, int, int) {
    let a: int = j + 32044;
    let b: int = (4 * a + 3) / 146097;
    let c: int = a - 146097 * b / 4;
    let dd: int = (4 * c + 3) / 1461;
    let e: int = c - 1461 * dd / 4;
    let mm: int = (5 * e + 2) / 153;
    (100 * b + dd - 4800 + mm / 10, mm + 3 - 12 * (mm / 10), e - (153 * mm + 2) / 5 + 1)
}

/// The proleptic Gregorian leap-year rule.
pub open spec fn gregorian_leap_year(y: int) -> bool {
    (y % 4 == 0 && y % 100 != 0) || y % 400 == 0
}

/// Month lengths of the proleptic Gregorian calendar.
pub open spec fn gregorian_days_in_month_spec(y: int, m: int) -> int {
    if m == 2 {
        if gregorian_leap_year(y) {
            29
        } else {
            28
        }
    } else if m == 4 || m == 6 || m == 9 || m == 11 {
        30
    } else {
        31
    }
}

/// A well-formed proleptic Gregorian date of year 0 or later.
pub open spec fn gregorian_valid(y: int, m: int, d: int) -> bool {
    0 <= y && 1 <= m <= 12 && 1 <= d <= gregorian_days_in_month_spec(y, m)
}

/// A Gregorian calendar date: a plain (year, month, day) triple.
/// Construction performs no validation; the conversions state in their
/// contracts which triples they accept and produce.
#[derive(Debug, PartialEq, Eq, Structural, Clone, Copy)]
pub struct GregorianYear {
    pub year: usize,
    pub month: usize,
    pub day: usize,
}

impl GregorianYear {
    /// The stored triple as mathematical integers.
    pub open spec fn triple(self) -> (int, int, int) {
        (self.year as int, self.month as int, self.day as int)
    }

    /// Whether the stored triple is a well-formed Gregorian date.
    pub open spec fn valid(self) -> bool {
        gregorian_valid(self.year as int, self.month as int, self.day as int)
    }

    pub fn new(year: usize, month: usize, day: usize) -> (r: Self)
        ensures
            r.year == year && r.month == month && r.day == day,
    {
        Self { year, month, day }
    }

    pub fn year(&self) -> (r: usize)
        ensures
            r == self.year,
    {
        self.year
    }

    pub fn month(&self) -> (r: usize)
        ensures
            r == self.month,
    {
        self.month
    }

    pub fn day(&self) -> (r: usize)
        ensures
            r == self.day,
    {
        self.day
    }

    /// Inverts the closed-form JDN formula cycle by cycle.  The result is
    /// always a well-formed date whose JDN is `jdn` again.
    pub fn from_jdn(jdn: usize) -> (r: Self)
        requires
            GREGORIAN_FIRST_JDN <= jdn <= MAX_JDN,
        ensures
            r.triple() == gregorian_from_jdn_spec(jdn as int),
            r.valid(),
            gregorian_jdn(r.year as int, r.month as int, r.day as int) == jdn,
    {
        proof {
            lemma_gregorian_from_jdn_facts(jdn as int);
        }
        let a: usize = jdn + 32044;
        let b: usize = (4 * a + 3) / 146097;
        proof {
            lemma_div_is_ordered(4 * (a as int) + 3, 2000128179int, 146097);
            lemma_fundamental_div_mod_converse_div(2000128179int, 146097, 13690, 60249);
        }
        let c: usize = a - 146097 * b / 4;
        let dd: usize = (4 * c + 3) / 1461;
        let e: usize = c - 1461 * dd / 4;
        let mm: usize = (5 * e + 2) / 153;
        proof {
            if mm >= 10 {
                lemma_fundamental_div_mod_converse_div(mm as int, 10, 1, mm as int - 10);
            } else {
                lemma_basic_div(mm as int, 10);
            }
        }
        let day: usize = e - (153 * mm + 2) / 5 + 1;
        let month: usize = mm + 3 - 12 * (mm / 10);
        let year: usize = 100 * b + dd + mm / 10 - 4800;
        Self { year, month, day }
    }

    /// The closed-form JDN of the stored date.
    pub fn to_jdn(&self) -> (r: usize)
        requires
            1 <= self.year <= MAX_YEAR,
            1 <= self.month <= 12,
            1 <= self.day <= 31,
        ensures
            r == gregorian_jdn(self.year as int, self.month as int, self.day as int),
    {
        let a: usize = (14 - self.month) / 12;
        proof {
            if self.month <= 2 {
                lemma_fundamental_div_mod_converse_div(
                    14 - self.month as int,
                    12,
                    1,
                    2 - self.month as int,
                );
            } else {
                lemma_basic_div(14 - self.month as int, 12);
            }
        }
        let yy: usize = self.year + 4800 - a;
        let mm: usize = self.month + 12 * a - 3;
        proof {
            lemma_div_is_ordered(yy as int, 1004800, 4);
            lemma_div_is_ordered(yy as int, 1004800, 100);
            lemma_div_is_ordered(yy as int, 1004800, 400);
            lemma_div_pos_is_pos(yy as int, 4);
            lemma_div_pos_is_pos(yy as int, 100);
            lemma_div_pos_is_pos(yy as int, 400);
            lemma_div_is_ordered(153 * (mm as int) + 2, 1685, 5);
            lemma_div_pos_is_pos(153 * (mm as int) + 2, 5);
        }
        self.day + (153 * mm + 2) / 5 + 365 * yy + yy / 4 + yy / 400 - yy / 100 - 32045
    }

    /// The weekday of the stored date, with Sunday as 0.
    pub fn weekday(&self) -> (r: usize)
        requires
            1 <= self.year <= MAX_YEAR,
            1 <= self.month <= 12,
            1 <= self.day <= 31,
        ensures
            r == weekday_of_jdn(gregorian_jdn(self.year as int, self.month as int, self.day as int)),
            r < 7,
    {
        proof {
            lemma_gregorian_jdn_range(self.year as int, self.month as int, self.day as int);
        }
        let j: usize = self.to_jdn();
        proof {
            lemma_mod_division_less_than_divisor(j as int + 1, 7);
        }
        (j + 1) % 7
    }

    /// The English name of the stored date's weekday.
    pub fn english_weekday(&self) -> (r: &'static str)
        requires
            1 <= self.year <= MAX_YEAR,
            1 <= self.month <= 12,
            1 <= self.day <= 31,
        ensures
            r@ == english_weekday_name(
                weekday_of_jdn(gregorian_jdn(self.year as int, self.month as int, self.day as int)),
            ),
    {
        let w: usize = self.weekday();
        if w == 0 {
            "Sunday"
        } else if w == 1 {
            "Monday"
        } else if w == 2 {
            "Tuesday"
        } else if w == 3 {
            "Wednesday"
        } else if w == 4 {
            "Thursday"
        } else if w == 5 {
            "Friday"
        } else {
            "Saturday"
        }
    }

    /// The English name of the stored month.
    pub fn english_month(&self) -> (r: &'static str)
        requires
            1 <= self.month <= 12,
        ensures
            r@ == english_month_name(self.month as int),
    {
        if self.month == 1 {
            "January"
        } else if self.month == 2 {
            "February"
        } else if self.month == 3 {
            "March"
        } else if self.month == 4 {
            "April"
        } else if self.month == 5 {
            "May"
        } else if self.month == 6 {
            "June"
        } else if self.month == 7 {
            "July"
        } else if self.month == 8 {
            "August"
        } else if self.month == 9 {
            "September"
        } else if self.month == 10 {
            "October"
        } else if self.month == 11 {
            "November"
        } else {
            "December"
        }
    }

    /// The year, in decimal, zero-padded to at least four digits.
    pub fn formatted_year(&self) -> (r: String)
        ensures
            r@ == padded_year(self.year as int),
    {
        let digits: String = decimal_string(self.year);
        if self.year < 10 {
            let mut s: String = string_of_str("000");
            s.append(digits.as_str());
            proof {
                reveal_strlit("000");
                assert(s@ =~= padded_year(self.year as int));
            }
            s
        } else if self.year < 100 {
            let mut s: String = string_of_str("00");
            s.append(digits.as_str());
            proof {
                reveal_strlit("00");
                assert(s@ =~= padded_year(self.year as int));
            }
            s
        } else if self.year < 1000 {
            let mut s: String = string_of_str("0");
            s.append(digits.as_str());
            proof {
                reveal_strlit("0");
                assert(s@ =~= padded_year(self.year as int));
            }
            s
        } else {
            digits
        }
    }
}

/// The English weekday names, Sunday first.
pub open spec fn english_weekday_name(w: int) -> Seq<char> {
    if w == 0 {
        "Sunday"@
    } else if w == 1 {
        "Monday"@
    } else if w == 2 {
        "Tuesday"@
    } else if w == 3 {
        "Wednesday"@
    } else if w == 4 {
        "Thursday"@
    } else if w == 5 {
        "Friday"@
    } else {
        "Saturday"@
    }
}

/// The English month names.
pub open spec fn english_month_name(m: int) -> Seq<char> {
    if m == 1 {
        "January"@
    } else if m == 2 {
        "February"@
    } else if m == 3 {
        "March"@
    } else if m == 4 {
        "April"@
    } else if m == 5 {
        "May"@
    } else if m == 6 {
        "June"@
    } else if m == 7 {
        "July"@
    } else if m == 8 {
        "August"@
    } else if m == 9 {
        "September"@
    } else if m == 10 {
        "October"@
    } else if m == 11 {
        "November"@
    } else {
        "December"@
    }
}

/// Bounded dates give bounded JDNs, so the executable formula cannot
/// overflow.
pub proof fn lemma_gregorian_jdn_range(y: int, m: int, d: int)
    requires
        0 <= y <= 1000000,
        1 <= m <= 12,
        1 <= d <= 31,
    ensures
        0 <= gregorian_jdn(y, m, d) <= 368000000,
{
    let a: int = (14 - m) / 12;
    if m <= 2 {
        lemma_fundamental_div_mod_converse_div(14 - m, 12, 1, 2 - m);
    } else {
        lemma_basic_div(14 - m, 12);
    }
    let yy: int = y + 4800 - a;
    let mm: int = m + 12 * a - 3;
    lemma_div_is_ordered(yy, 1004800, 4);
    lemma_div_is_ordered(yy, 1004800, 100);
    lemma_div_is_ordered(yy, 1004800, 400);
    lemma_div_pos_is_pos(yy, 4);
    lemma_div_pos_is_pos(yy, 100);
    lemma_div_pos_is_pos(yy, 400);
    lemma_div_is_ordered(4799, yy, 4);
    lemma_div_is_ordered(153 * mm + 2, 1685, 5);
    lemma_div_pos_is_pos(153 * mm + 2, 5);
}

/// The full set of facts about inverting a JDN: every intermediate quotient
/// stays in its cycle's range, the resulting date is well formed, and its
/// JDN is the starting value again.
pub(crate) proof fn lemma_gregorian_from_jdn_facts(j: int)
    requires
        1721120 <= j,
    ensures
        ({
            let a: int = j + 32044;
            let b: int = (4 * a + 3) / 146097;
            let c: int = a - 146097 * b / 4;
            let dd: int = (4 * c + 3) / 1461;
            let e: int = c - 1461 * dd / 4;
            let mm: int = (5 * e + 2) / 153;
            48 <= b && 146097 * b / 4 <= a && 0 <= c <= 36524 && 0 <= dd <= 99 && 1461 * dd / 4
                <= c && 0 <= e <= 365 && 0 <= mm <= 11 && (153 * mm + 2) / 5 <= e
        }),
        gregorian_valid(
            gregorian_from_jdn_spec(j).0,
            gregorian_from_jdn_spec(j).1,
            gregorian_from_jdn_spec(j).2,
        ),
        gregorian_jdn(
            gregorian_from_jdn_spec(j).0,
            gregorian_from_jdn_spec(j).1,
            gregorian_from_jdn_spec(j).2,
        ) == j,
{
    let a: int = j + 32044;
    lemma_cycle_bounds(146097, 4, 0, a);
    let b: int = (4 * a + 3) / 146097;
    assert(146097 * b / 4 <= a && a < 146097 * (b + 1) / 4 && b >= 0);
    assert(b >= 48) by {
        lemma_div_is_ordered(7012659, 4 * a + 3, 146097);
        lemma_fundamental_div_mod_converse_div(7012659, 146097, 48, 3);
    }
    let c: int = a - 146097 * b / 4;
    let k: int = b / 4;
    let s: int = b % 4;
    lemma_fundamental_div_mod(b, 4);
    lemma_mod_division_less_than_divisor(b, 4);
    lemma_fundamental_div_mod_converse_div(146097 * b, 4, 36524 * b + k, s);
    if s == 3 {
        lemma_fundamental_div_mod_converse_div(146097 * (b + 1), 4, 36524 * b + k + 36525, 0);
        assert(146097 * (b + 1) / 4 == 146097 * b / 4 + 36525);
    } else {
        lemma_fundamental_div_mod_converse_div(146097 * (b + 1), 4, 36524 * b + k + 36524, s + 1);
        assert(146097 * (b + 1) / 4 == 146097 * b / 4 + 36524);
    }
    assert(0 <= c && c <= 36523 + if s == 3 { 1int } else { 0int });
    lemma_cycle_bounds(1461, 4, 0, c);
    let dd: int = (4 * c + 3) / 1461;
    assert(1461 * dd / 4 <= c && c < 1461 * (dd + 1) / 4 && dd >= 0);
    assert(dd <= 99) by {
        lemma_div_is_ordered(4 * c + 3, 146099, 1461);
        lemma_fundamental_div_mod_converse_div(146099, 1461, 99, 1460);
    }
    let kd: int = dd / 4;
    let sd: int = dd % 4;
    lemma_fundamental_div_mod(dd, 4);
    lemma_mod_division_less_than_divisor(dd, 4);
    lemma_fundamental_div_mod_converse_div(1461 * dd, 4, 365 * dd + kd, sd);
    let e: int = c - 1461 * dd / 4;
    if sd == 3 {
        lemma_fundamental_div_mod_converse_div(1461 * (dd + 1), 4, 365 * dd + kd + 366, 0);
        assert(1461 * (dd + 1) / 4 == 1461 * dd / 4 + 366);
    } else {
        lemma_fundamental_div_mod_converse_div(1461 * (dd + 1), 4, 365 * dd + kd + 365, sd + 1);
        assert(1461 * (dd + 1) / 4 == 1461 * dd / 4 + 365);
    }
    assert(0 <= e && e <= 364 + if sd == 3 { 1int } else { 0int });
    lemma_cycle_bounds(153, 5, 2, e);
    let mm: int = (5 * e + 2) / 153;
    assert((153 * mm + 2) / 5 <= e && e < (153 * (mm + 1) + 2) / 5 && mm >= 0);
    assert(mm <= 11) by {
        lemma_div_is_ordered(5 * e + 2, 1827, 153);
        lemma_fundamental_div_mod_converse_div(1827, 153, 11, 144);
    }
    let day: int = e - (153 * mm + 2) / 5 + 1;
    if mm >= 10 {
        lemma_fundamental_div_mod_converse_div(mm, 10, 1, mm - 10);
    } else {
        lemma_basic_div(mm, 10);
    }
    let month: int = mm + 3 - 12 * (mm / 10);
    let year: int = 100 * b + dd - 4800 + mm / 10;
    assert(year >= 0);
    // The month table of the March-shifted year.
    if mm == 0 {
        assert(month == 3 && 1 <= day <= 31);
    } else if mm == 1 {
        assert(month == 4 && 1 <= day <= 30);
    } else if mm == 2 {
        assert(month == 5 && 1 <= day <= 31);
    } else if mm == 3 {
        assert(month == 6 && 1 <= day <= 30);
    } else if mm == 4 {
        assert(month == 7 && 1 <= day <= 31);
    } else if mm == 5 {
        assert(month == 8 && 1 <= day <= 31);
    } else if mm == 6 {
        assert(month == 9 && 1 <= day <= 30);
    } else if mm == 7 {
        assert(month == 10 && 1 <= day <= 31);
    } else if mm == 8 {
        assert(month == 11 && 1 <= day <= 30);
    } else if mm == 9 {
        assert(month == 12 && 1 <= day <= 31);
    } else if mm == 10 {
        assert(month == 1 && 1 <= day <= 31);
    } else {
        // February of the shifted year; a 29th day forces both leap slots.
        assert(mm == 11 && month == 2);
        assert(day == e - 336);
        assert(1 <= day <= 28 + if sd == 3 { 1int } else { 0int });
        if day == 29 {
            assert(e == 365 && sd == 3);
            assert(year == 100 * b + dd - 4799);
            lemma_fundamental_div_mod_converse_mod(year, 4, 25 * b + kd - 1199, 0);
            assert(year % 4 == 0);
            if dd == 99 {
                assert(c == 36524);
                assert(s == 3);
                assert(year == 100 * b - 4700);
                lemma_fundamental_div_mod_converse_mod(year, 400, k - 11, 0);
                assert(year % 400 == 0);
            } else {
                lemma_fundamental_div_mod_converse_mod(year, 100, b - 48, dd + 1);
                assert(year % 100 != 0);
            }
            assert(gregorian_leap_year(year));
        }
        assert(1 <= day <= gregorian_days_in_month_spec(year, month));
    }
    // Reassembling the JDN from the recovered date.
    let yy: int = 100 * b + dd;
    lemma_fundamental_div_mod_converse_div(yy, 100, b, dd);
    lemma_fundamental_div_mod_converse_div(yy, 4, 25 * b + kd, sd);
    lemma_fundamental_div_mod_converse_div(yy, 400, k, 100 * s + dd);
    assert(365 * yy + yy / 4 - yy / 100 + yy / 400 == 146097 * b / 4 + 1461 * dd / 4);
    if mm >= 10 {
        lemma_fundamental_div_mod_converse_div(14 - month, 12, 1, 2 - month);
    } else {
        lemma_basic_div(14 - month, 12);
    }
    assert((14 - month) / 12 == mm / 10);
    assert(year + 4800 - (14 - month) / 12 == yy);
    assert(month + 12 * ((14 - month) / 12) - 3 == mm);
    assert(gregorian_jdn(year, month, day) == j);
}

/// Round trip from a day count: for every JDN `j` at or after 1 March of
/// year 0, the Gregorian date of `j` is well formed and its JDN is `j`.
pub proof fn lemma_gregorian_round_trip_jdn(j: int)
    requires
        1721120 <= j,
    ensures
        gregorian_valid(
            gregorian_from_jdn_spec(j).0,
            gregorian_from_jdn_spec(j).1,
            gregorian_from_jdn_spec(j).2,
        ),
        gregorian_jdn(
            gregorian_from_jdn_spec(j).0,
            gregorian_from_jdn_spec(j).1,
            gregorian_from_jdn_spec(j).2,
        ) == j,
{
    lemma_gregorian_from_jdn_facts(j);
}

/// Round trip from a date: converting any well-formed Gregorian date of
/// year 1 or later to a JDN and back yields the same date.
pub proof fn lemma_gregorian_round_trip_date(y: int, m: int, d: int)
    requires
        gregorian_valid(y, m, d),
        1 <= y,
    ensures
        gregorian_from_jdn_spec(gregorian_jdn(y, m, d)) == (y, m, d),
{
    let aa: int = (14 - m) / 12;
    if m <= 2 {
        lemma_fundamental_div_mod_converse_div(14 - m, 12, 1, 2 - m);
    } else {
        lemma_basic_div(14 - m, 12);
    }
    let mm: int = m + 12 * aa - 3;
    let yy: int = y + 4800 - aa;
    assert(0 <= mm <= 11);
    assert(yy >= 4800);
    let b: int = yy / 100;
    let dd: int = yy % 100;
    lemma_fundamental_div_mod(yy, 100);
    lemma_mod_division_less_than_divisor(yy, 100);
    assert(b >= 48) by {
        lemma_div_is_ordered(4800, yy, 100);
    }
    let kd: int = dd / 4;
    let sd: int = dd % 4;
    lemma_fundamental_div_mod(dd, 4);
    lemma_mod_division_less_than_divisor(dd, 4);
    lemma_fundamental_div_mod_converse_div(1461 * dd, 4, 365 * dd + kd, sd);
    let k: int = b / 4;
    let s: int = b % 4;
    lemma_fundamental_div_mod(b, 4);
    lemma_mod_division_less_than_divisor(b, 4);
    lemma_fundamental_div_mod_converse_div(146097 * b, 4, 36524 * b + k, s);
    let md: int = (153 * mm + 2) / 5;
    let e: int = md + d - 1;
    let c: int = 1461 * dd / 4 + e;
    let a: int = 146097 * b / 4 + c;
    // The month table of the March-shifted year.
    if m == 1 {
        assert(mm == 10 && md == 306 && 0 <= e <= 336);
    } else if m == 2 {
        assert(mm == 11 && md == 337 && 0 <= e <= 365);
    } else if m == 3 {
        assert(mm == 0 && md == 0 && 0 <= e <= 30);
    } else if m == 4 {
        assert(mm == 1 && md == 31 && 0 <= e <= 60);
    } else if m == 5 {
        assert(mm == 2 && md == 61 && 0 <= e <= 91);
    } else if m == 6 {
        assert(mm == 3 && md == 92 && 0 <= e <= 121);
    } else if m == 7 {
        assert(mm == 4 && md == 122 && 0 <= e <= 152);
    } else if m == 8 {
        assert(mm == 5 && md == 153 && 0 <= e <= 183);
    } else if m == 9 {
        assert(mm == 6 && md == 184 && 0 <= e <= 213);
    } else if m == 10 {
        assert(mm == 7 && md == 214 && 0 <= e <= 244);
    } else if m == 11 {
        assert(mm == 8 && md == 245 && 0 <= e <= 274);
    } else {
        assert(mm == 9 && md == 275 && 0 <= e <= 305);
    }
    assert(e < (153 * (mm + 1) + 2) / 5);
    lemma_cycle_extract(153, 5, 2, mm, e);
    if e == 365 {
        // 29 February: the year slot of the 4-year cycle must be its last.
        assert(m == 2 && d == 29);
        assert(gregorian_leap_year(y));
        if y % 400 == 0 {
            lemma_fundamental_div_mod(y, 400);
            lemma_fundamental_div_mod_converse_mod(yy, 4, 100 * (y / 400) + 1199, 3);
        } else {
            lemma_fundamental_div_mod(y, 4);
            lemma_fundamental_div_mod_converse_mod(yy, 4, y / 4 + 1199, 3);
        }
        lemma_fundamental_div_mod_converse_mod(yy, 4, 25 * b + kd, sd);
        assert(sd == 3);
    }
    if sd == 3 {
        lemma_fundamental_div_mod_converse_div(1461 * (dd + 1), 4, 365 * dd + kd + 366, 0);
        assert(1461 * (dd + 1) / 4 == 1461 * dd / 4 + 366);
    } else {
        lemma_fundamental_div_mod_converse_div(1461 * (dd + 1), 4, 365 * dd + kd + 365, sd + 1);
        assert(1461 * (dd + 1) / 4 == 1461 * dd / 4 + 365);
    }
    assert(e <= 364 + if sd == 3 { 1int } else { 0int });
    assert(c < 1461 * (dd + 1) / 4);
    lemma_cycle_extract(1461, 4, 0, dd, c);
    assert(kd <= 24) by {
        lemma_div_is_ordered(dd, 99, 4);
    }
    assert(c <= 36524);
    if c == 36524 {
        // The era's very last day: century and year slots are both last.
        assert(dd == 99 && e == 365);
        assert(sd == 3);
        assert(y == 100 * b - 4700);
        lemma_fundamental_div_mod_converse_mod(y, 100, b - 47, 0);
        assert(y % 100 == 0);
        assert(y % 400 == 0);
        lemma_fundamental_div_mod(y, 400);
        lemma_fundamental_div_mod_converse_mod(b, 4, y / 400 + 11, 3);
        assert(s == 3);
    }
    if s == 3 {
        lemma_fundamental_div_mod_converse_div(146097 * (b + 1), 4, 36524 * b + k + 36525, 0);
        assert(146097 * (b + 1) / 4 == 146097 * b / 4 + 36525);
    } else {
        lemma_fundamental_div_mod_converse_div(146097 * (b + 1), 4, 36524 * b + k + 36524, s + 1);
        assert(146097 * (b + 1) / 4 == 146097 * b / 4 + 36524);
    }
    assert(a < 146097 * (b + 1) / 4);
    lemma_cycle_extract(146097, 4, 0, b, a);
    // The JDN of the date is `a - 32044`, and the inversion recovers the date.
    lemma_fundamental_div_mod_converse_div(yy, 4, 25 * b + kd, sd);
    lemma_fundamental_div_mod_converse_div(yy, 400, k, 100 * s + dd);
    assert(365 * yy + yy / 4 - yy / 100 + yy / 400 == 146097 * b / 4 + 1461 * dd / 4);
    assert(gregorian_jdn(y, m, d) == a - 32044);
    if mm >= 10 {
        lemma_fundamental_div_mod_converse_div(mm, 10, 1, mm - 10);
    } else {
        lemma_basic_div(mm, 10);
    }
    assert(mm / 10 == aa);
    assert(gregorian_from_jdn_spec(gregorian_jdn(y, m, d)) == (y, m, d));
}

} // verus!
