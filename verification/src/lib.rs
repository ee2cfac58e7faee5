use vstd::prelude::*;

mod arith;
mod ethiopian;
mod gregorian;
mod text;

pub use ethiopian::{
    EthiopianYear, JDN_EPOCH_OFFSET_AMETE_MIHRET, ETHIOPIAN_FIRST_JDN,
    amharic_month_name, amharic_weekday_name, ethiopian_days_in_month_spec, ethiopian_from_jdn_spec,
    ethiopian_jdn, ethiopian_leap_year, ethiopian_valid, lemma_ethiopian_jdn_range,
    lemma_ethiopian_round_trip_date, lemma_ethiopian_round_trip_jdn,
};
pub use gregorian::{
    GregorianYear, GREGORIAN_FIRST_JDN, english_month_name, english_weekday_name,
    gregorian_days_in_month_spec, gregorian_from_jdn_spec, gregorian_jdn, gregorian_leap_year,
    gregorian_valid, lemma_gregorian_jdn_range, lemma_gregorian_round_trip_date,
    lemma_gregorian_round_trip_jdn,
};
pub use text::{decimal_digits, decimal_string, digit_char, padded_year, string_of_str};

verus! {

/// Largest year accepted by the executable conversions, far beyond any civil
/// date; it keeps every intermediate product inside a 32-bit `usize`.
pub const MAX_YEAR: usize = 1000000;

/// Largest JDN accepted by the executable conversions.
pub const MAX_JDN: usize = 500000000;

/// The weekday of a Julian Day Number, with Sunday as 0.
pub open spec fn weekday_of_jdn(j: int) -> int {
    (j + 1) % 7
}

/// The bridge between the calendars: convert an Ethiopian date to its JDN
/// and read that JDN back as a Gregorian date.  This is the only path by
/// which the two calendars communicate.
pub fn ethiopian_to_gregorian(e: &EthiopianYear) -> (g: GregorianYear)
    requires
        e.valid(),
        e.year <= MAX_YEAR,
    ensures
        g.triple() == gregorian_from_jdn_spec(
            ethiopian_jdn(e.year as int, e.month as int, e.day as int),
        ),
        g.valid(),
        gregorian_jdn(g.year as int, g.month as int, g.day as int) == ethiopian_jdn(
            e.year as int,
            e.month as int,
            e.day as int,
        ),
{
    proof {
        lemma_ethiopian_jdn_range(e.year as int, e.month as int, e.day as int);
    }
    let j: usize = e.to_jdn();
    GregorianYear::from_jdn(j)
}

/// The bridge in the other direction: convert a Gregorian date to its JDN
/// and read that JDN back as an Ethiopian date.  The date must lie at or
/// after the Ethiopian epoch.
pub fn gregorian_to_ethiopian(g: &GregorianYear) -> (e: EthiopianYear)
    requires
        g.valid(),
        1 <= g.year <= MAX_YEAR,
        ETHIOPIAN_FIRST_JDN <= gregorian_jdn(g.year as int, g.month as int, g.day as int),
    ensures
        e.triple() == ethiopian_from_jdn_spec(
            gregorian_jdn(g.year as int, g.month as int, g.day as int),
        ),
        e.valid(),
        ethiopian_jdn(e.year as int, e.month as int, e.day as int) == gregorian_jdn(
            g.year as int,
            g.month as int,
            g.day as int,
        ),
{
    proof {
        lemma_gregorian_jdn_range(g.year as int, g.month as int, g.day as int);
    }
    let j: usize = g.to_jdn();
    EthiopianYear::from_jdn(j)
}

/// Cross-calendar round trip: taking any well-formed Ethiopian date over
/// the bridge to the Gregorian calendar and back yields the same date.
pub proof fn lemma_cross_round_trip_ethiopian(y: int, m: int, d: int)
    requires
        ethiopian_valid(y, m, d),
    ensures
        ({
            let j: int = ethiopian_jdn(y, m, d);
            let g: (int, int, int) = gregorian_from_jdn_spec(j);
            ethiopian_from_jdn_spec(gregorian_jdn(g.0, g.1, g.2)) == (y, m, d)
        }),
{
    lemma_ethiopian_jdn_range(y, m, d);
    lemma_gregorian_round_trip_jdn(ethiopian_jdn(y, m, d));
    lemma_ethiopian_round_trip_date(y, m, d);
}

/// Cross-calendar round trip the other way: taking any well-formed
/// Gregorian date at or after the Ethiopian epoch over the bridge to the
/// Ethiopian calendar and back yields the same date.
pub proof fn lemma_cross_round_trip_gregorian(y: int, m: int, d: int)
    requires
        gregorian_valid(y, m, d),
        1 <= y,
        1724221 <= gregorian_jdn(y, m, d),
    ensures
        ({
            let j: int = gregorian_jdn(y, m, d);
            let e: (int, int, int) = ethiopian_from_jdn_spec(j);
            gregorian_from_jdn_spec(ethiopian_jdn(e.0, e.1, e.2)) == (y, m, d)
        }),
{
    lemma_ethiopian_round_trip_jdn(gregorian_jdn(y, m, d));
    lemma_gregorian_round_trip_date(y, m, d);
}

/// Weekday consistency: an Ethiopian date and the Gregorian date reached
/// over the bridge fall on the same weekday.
pub proof fn lemma_weekday_consistency(y: int, m: int, d: int)
    requires
        ethiopian_valid(y, m, d),
    ensures
        ({
            let j: int = ethiopian_jdn(y, m, d);
            let g: (int, int, int) = gregorian_from_jdn_spec(j);
            weekday_of_jdn(gregorian_jdn(g.0, g.1, g.2)) == weekday_of_jdn(j)
        }),
{
    lemma_ethiopian_jdn_range(y, m, d);
    lemma_gregorian_round_trip_jdn(ethiopian_jdn(y, m, d));
}

} // verus!

