use vstd::prelude::*;
use vstd::arithmetic::div_mod::{
    lemma_basic_div, lemma_div_is_ordered, lemma_div_is_ordered_by_denominator,
    lemma_div_pos_is_pos, lemma_fundamental_div_mod, lemma_fundamental_div_mod_converse_div,
    lemma_fundamental_div_mod_converse_mod, lemma_mod_division_less_than_divisor,
};
use crate::text::{padded_year, decimal_string, string_of_str};
use crate::{weekday_of_jdn, MAX_JDN, MAX_YEAR};
use vstd::string::StringExecFns;

verus! {

/// JDN of the day before Mäskäräm 1 of Ethiopian year 0 (Amete Mihret era).
pub const JDN_EPOCH_OFFSET_AMETE_MIHRET: usize = 1723856;

/// JDN of Mäskäräm 1 of Ethiopian year 1, the first supported day.
pub const ETHIOPIAN_FIRST_JDN: usize = 1724221;

/// The Julian Day Number of an Ethiopian date, in closed form.  The term
/// `y / 4` accumulates one intercalary day per 4-year leap cycle, so no
/// explicit leap-year branch is needed.
pub open spec fn ethiopian_jdn(y: int, m: int, d: int) -> int {
    1723856 + 365 + 365 * (y - 1) + y / 4 + 30 * m + d - 31
}

/// The Ethiopian date of a Julian Day Number, by floored quotients and
/// remainders over the 1461-day leap cycle.
pub open spec fn ethiopian_from_jdn_spec(j: int) -> (int, int, int) {
    let t: int = j - 1723856;
    let r: int = t % 1461;
    let n: int = r % 365 + 365 * (r / 1460);
    (4 * (t / 1461) + r / 365 - r / 1460, n / 30 + 1, n % 30 + 1)
}

/// Ethiopian year `y` is a leap year exactly when `y % 4 == 3`.
pub open spec fn ethiopian_leap_year(y: int) -> bool {
    y % 4 == 3
}

/// Months 1 to 12 have 30 days; Pagume (month 13) has 5, or 6 in a leap year.
pub open spec fn ethiopian_days_in_month_spec(y: int, m: int) -> int {
    if m == 13 {
        if ethiopian_leap_year(y) {
            6
        } else {
            5
        }
    } else {
        30
    }
}

/// A well-formed Ethiopian date of the current era.
pub open spec fn ethiopian_valid(y: int, m: int, d: int) -> bool {
    1 <= y && 1 <= m <= 13 && 1 <= d <= ethiopian_days_in_month_spec(y, m)
}

/// An Ethiopian calendar date: a plain (year, month, day) triple.
/// Construction performs no validation; the conversions state in their
/// contracts which triples they accept and produce.
#[derive(Debug, PartialEq, Eq, Structural, Clone, Copy)]
pub struct EthiopianYear {
    pub year: usize,
    pub month: usize,
    pub day: usize,
}

impl EthiopianYear {
    /// The stored triple as mathematical integers.
    pub open spec fn triple(self) -> (int, int, int) {
        (self.year as int, self.month as int, self.day as int)
    }

    /// Whether the stored triple is a well-formed Ethiopian date.
    pub open spec fn valid(self) -> bool {
        ethiopian_valid(self.year as int, self.month as int, self.day as int)
    }

    pub fn new(year: usize, month: usize, day: usize) -> (r: Self)
        ensures
            r.year == year && r.month == month && r.day == day,
    {
        Self { year, month, day }
    }

    pub fn year(&self) -> (r: usize)
        ensures
            r == self.year,
    {
        self.year
    }

    pub fn month(&self) -> (r: usize)
        ensures
            r == self.month,
    {
        self.month
    }

    pub fn day(&self) -> (r: usize)
        ensures
            r == self.day,
    {
        self.day
    }

    /// Inverts the closed-form JDN formula over the 1461-day leap cycle.
    /// The result is always a well-formed date whose JDN is `jdn` again.
    pub fn from_jdn(jdn: usize) -> (r: Self)
        requires
            ETHIOPIAN_FIRST_JDN <= jdn <= MAX_JDN,
        ensures
            r.triple() == ethiopian_from_jdn_spec(jdn as int),
            r.valid(),
            ethiopian_jdn(r.year as int, r.month as int, r.day as int) == jdn,
    {
        proof {
            lemma_ethiopian_round_trip_jdn(jdn as int);
        }
        let t: usize = jdn - JDN_EPOCH_OFFSET_AMETE_MIHRET;
        let r: usize = t % 1461;
        proof {
            lemma_mod_division_less_than_divisor(t as int, 1461);
            lemma_mod_division_less_than_divisor(r as int, 365);
            lemma_div_is_ordered(r as int, 1460, 1460);
            lemma_div_pos_is_pos(r as int, 1460);
            lemma_div_is_ordered(t as int, MAX_JDN as int, 1461);
            lemma_div_pos_is_pos(t as int, 1461);
            lemma_div_is_ordered_by_denominator(r as int, 365, 1460);
            lemma_div_pos_is_pos(r as int, 365);
        }
        let n: usize = r % 365 + 365 * (r / 1460);
        let year: usize = 4 * (t / 1461) + r / 365 - r / 1460;
        proof {
            lemma_mod_division_less_than_divisor(n as int, 30);
            lemma_div_pos_is_pos(n as int, 30);
            lemma_div_is_ordered(n as int, 365, 30);
        }
        let month: usize = n / 30 + 1;
        let day: usize = n % 30 + 1;
        Self { year, month, day }
    }

    /// The closed-form JDN of the stored date.
    pub fn to_jdn(&self) -> (r: usize)
        requires
            1 <= self.year <= MAX_YEAR,
            1 <= self.month <= 13,
            1 <= self.day <= 30,
        ensures
            r == ethiopian_jdn(self.year as int, self.month as int, self.day as int),
    {
        proof {
            lemma_div_is_ordered(self.year as int, MAX_YEAR as int, 4);
            lemma_div_pos_is_pos(self.year as int, 4);
        }
        JDN_EPOCH_OFFSET_AMETE_MIHRET + 365 + 365 * (self.year - 1) + self.year / 4
            + (30 * self.month + self.day - 31)
    }

    /// Month lengths, including the 5- or 6-day Pagume.
    pub fn days_in_month(&self) -> (r: usize)
        requires
            1 <= self.month <= 13,
        ensures
            r == ethiopian_days_in_month_spec(self.year as int, self.month as int),
            self.month <= 12 ==> r == 30,
            self.month == 13 ==> (r == 6 <==> ethiopian_leap_year(self.year as int)),
            self.month == 13 ==> (r == 5 <==> !ethiopian_leap_year(self.year as int)),
    {
        if self.month == 13 {
            proof {
                lemma_mod_division_less_than_divisor(self.year as int, 4);
            }
            if self.year % 4 == 3 {
                6
            } else {
                5
            }
        } else {
            30
        }
    }

    /// The weekday of the stored date, with Sunday as 0.
    pub fn weekday(&self) -> (r: usize)
        requires
            1 <= self.year <= MAX_YEAR,
            1 <= self.month <= 13,
            1 <= self.day <= 30,
        ensures
            r == weekday_of_jdn(ethiopian_jdn(self.year as int, self.month as int, self.day as int)),
            r < 7,
    {
        proof {
            lemma_div_is_ordered(self.year as int, MAX_YEAR as int, 4);
            lemma_div_pos_is_pos(self.year as int, 4);
        }
        let j: usize = self.to_jdn();
        proof {
            lemma_mod_division_less_than_divisor(j as int + 1, 7);
        }
        (j + 1) % 7
    }

    /// The Amharic name of the stored month.
    pub fn amharic_month(&self) -> (r: &'static str)
        requires
            1 <= self.month <= 13,
        ensures
            r@ == amharic_month_name(self.month as int),
    {
        if self.month == 1 {
            "መስከረም"
        } else if self.month == 2 {
            "ጥቅምት"
        } else if self.month == 3 {
            "ኅዳር"
        } else if self.month == 4 {
            "ታኅሣሥ"
        } else if self.month == 5 {
            "ጥር"
        } else if self.month == 6 {
            "የካቲት"
        } else if self.month == 7 {
            "መጋቢት"
        } else if self.month == 8 {
            "ሚያዝያ"
        } else if self.month == 9 {
            "ግንቦት"
        } else if self.month == 10 {
            "ሰኔ"
        } else if self.month == 11 {
            "ሐምሌ"
        } else if self.month == 12 {
            "ነሐሴ"
        } else {
            "ጳጉሜ"
        }
    }

    /// The Amharic name of the stored date's weekday.
    pub fn amharic_weekday(&self) -> (r: &'static str)
        requires
            1 <= self.year <= MAX_YEAR,
            1 <= self.month <= 13,
            1 <= self.day <= 30,
        ensures
            r@ == amharic_weekday_name(
                weekday_of_jdn(ethiopian_jdn(self.year as int, self.month as int, self.day as int)),
            ),
    {
        let w: usize = self.weekday();
        if w == 0 {
            "እሁድ"
        } else if w == 1 {
            "ሰኞ"
        } else if w == 2 {
            "ማክሰኞ"
        } else if w == 3 {
            "ረቡዕ"
        } else if w == 4 {
            "ሐሙስ"
        } else if w == 5 {
            "ዓርብ"
        } else {
            "ቅዳሜ"
        }
    }

    /// The year, in decimal, zero-padded to at least four digits.
    pub fn formatted_year(&self) -> (r: String)
        ensures
            r@ == padded_year(self.year as int),
    {
        let digits: String = decimal_string(self.year);
        if self.year < 10 {
            let mut s: String = string_of_str("000");
            s.append(digits.as_str());
            proof {
                reveal_strlit("000");
                assert(s@ =~= padded_year(self.year as int));
            }
            s
        } else if self.year < 100 {
            let mut s: String = string_of_str("00");
            s.append(digits.as_str());
            proof {
                reveal_strlit("00");
                assert(s@ =~= padded_year(self.year as int));
            }
            s
        } else if self.year < 1000 {
            let mut s: String = string_of_str("0");
            s.append(digits.as_str());
            proof {
                reveal_strlit("0");
                assert(s@ =~= padded_year(self.year as int));
            }
            s
        } else {
            digits
        }
    }
}

/// The Amharic month names, month 13 being the intercalary Pagume.
pub open spec fn amharic_month_name(m: int) -> Seq<char> {
    if m == 1 {
        "መስከረም"@
    } else if m == 2 {
        "ጥቅምት"@
    } else if m == 3 {
        "ኅዳር"@
    } else if m == 4 {
        "ታኅሣሥ"@
    } else if m == 5 {
        "ጥር"@
    } else if m == 6 {
        "የካቲት"@
    } else if m == 7 {
        "መጋቢት"@
    } else if m == 8 {
        "ሚያዝያ"@
    } else if m == 9 {
        "ግንቦት"@
    } else if m == 10 {
        "ሰኔ"@
    } else if m == 11 {
        "ሐምሌ"@
    } else if m == 12 {
        "ነሐሴ"@
    } else {
        "ጳጉሜ"@
    }
}

/// The Amharic weekday names, Sunday first.
pub open spec fn amharic_weekday_name(w: int) -> Seq<char> {
    if w == 0 {
        "እሁድ"@
    } else if w == 1 {
        "ሰኞ"@
    } else if w == 2 {
        "ማክሰኞ"@
    } else if w == 3 {
        "ረቡዕ"@
    } else if w == 4 {
        "ሐሙስ"@
    } else if w == 5 {
        "ዓርብ"@
    } else {
        "ቅዳሜ"@
    }
}

/// Any Ethiopian date from year 1 on lies at or after the epoch JDN, and
/// bounded years give bounded JDNs.
pub proof fn lemma_ethiopian_jdn_range(y: int, m: int, d: int)
    requires
        ethiopian_valid(y, m, d),
    ensures
        1724221 <= ethiopian_jdn(y, m, d),
        y <= 1000000 ==> ethiopian_jdn(y, m, d) <= 367000000,
{
    lemma_div_pos_is_pos(y, 4);
    if y <= 1000000 {
        lemma_div_is_ordered(y, 1000000, 4);
    }
}

/// Round trip from a day count: for every JDN `j` at or after the epoch,
/// the Ethiopian date of `j` is well formed and its JDN is `j` again.
pub proof fn lemma_ethiopian_round_trip_jdn(j: int)
    requires
        1724221 <= j,
    ensures
        ethiopian_valid(
            ethiopian_from_jdn_spec(j).0,
            ethiopian_from_jdn_spec(j).1,
            ethiopian_from_jdn_spec(j).2,
        ),
        ethiopian_jdn(
            ethiopian_from_jdn_spec(j).0,
            ethiopian_from_jdn_spec(j).1,
            ethiopian_from_jdn_spec(j).2,
        ) == j,
{
    let t: int = j - 1723856;
    let q: int = t / 1461;
    let r: int = t % 1461;
    lemma_fundamental_div_mod(t, 1461);
    lemma_mod_division_less_than_divisor(t, 1461);
    lemma_div_pos_is_pos(t, 1461);
    if r == 1460 {
        let y: int = 4 * q + 3;
        lemma_fundamental_div_mod_converse_mod(y, 4, q, 3);
        lemma_fundamental_div_mod_converse_div(y, 4, q, 3);
        assert(ethiopian_from_jdn_spec(j).0 == y);
        assert(ethiopian_from_jdn_spec(j).1 == 13);
        assert(ethiopian_from_jdn_spec(j).2 == 6);
    } else {
        let s: int = r / 365;
        let n: int = r % 365;
        lemma_fundamental_div_mod(r, 365);
        lemma_mod_division_less_than_divisor(r, 365);
        lemma_div_pos_is_pos(r, 365);
        lemma_div_is_ordered(r, 1459, 365);
        lemma_basic_div(r, 1460);
        let y: int = 4 * q + s;
        lemma_fundamental_div_mod_converse_mod(y, 4, q, s);
        lemma_fundamental_div_mod_converse_div(y, 4, q, s);
        if q == 0 {
            lemma_div_is_ordered(365, r, 365);
        }
        assert(y >= 1);
        lemma_fundamental_div_mod(n, 30);
        lemma_mod_division_less_than_divisor(n, 30);
        lemma_div_pos_is_pos(n, 30);
        lemma_div_is_ordered(n, 364, 30);
        assert(ethiopian_from_jdn_spec(j).0 == y);
        assert(ethiopian_jdn(y, n / 30 + 1, n % 30 + 1) == j);
    }
}

/// Round trip from a date: converting any well-formed Ethiopian date to a
/// JDN and back yields the same date.
pub proof fn lemma_ethiopian_round_trip_date(y: int, m: int, d: int)
    requires
        ethiopian_valid(y, m, d),
    ensures
        ethiopian_from_jdn_spec(ethiopian_jdn(y, m, d)) == (y, m, d),
{
    let a: int = y / 4;
    let b: int = y % 4;
    lemma_fundamental_div_mod(y, 4);
    lemma_mod_division_less_than_divisor(y, 4);
    let n: int = 30 * (m - 1) + (d - 1);
    let j: int = ethiopian_jdn(y, m, d);
    let t: int = j - 1723856;
    assert(t == 1461 * a + 365 * b + n);
    if m == 13 && d == 6 {
        assert(b == 3);
        lemma_fundamental_div_mod_converse_div(t, 1461, a, 1460);
        lemma_fundamental_div_mod_converse_mod(t, 1461, a, 1460);
    } else {
        assert(0 <= n <= 364);
        let rr: int = 365 * b + n;
        lemma_fundamental_div_mod_converse_div(t, 1461, a, rr);
        lemma_fundamental_div_mod_converse_mod(t, 1461, a, rr);
        lemma_basic_div(rr, 1460);
        lemma_fundamental_div_mod_converse_div(rr, 365, b, n);
        lemma_fundamental_div_mod_converse_mod(rr, 365, b, n);
        lemma_fundamental_div_mod_converse_div(n, 30, m - 1, d - 1);
        lemma_fundamental_div_mod_converse_mod(n, 30, m - 1, d - 1);
    }
}

} // verus!
