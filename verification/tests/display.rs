use ethiopic_calendar::{EthiopianYear, GregorianYear};

#[test]
fn pagume_length_follows_leap_cycle() {
    // Ethiopian year y has a 6-day Pagume exactly when y % 4 == 3.
    assert_eq!(EthiopianYear::new(1999, 13, 1).days_in_month(), 6);
    assert_eq!(EthiopianYear::new(2003, 13, 1).days_in_month(), 6);
    assert_eq!(EthiopianYear::new(2000, 13, 1).days_in_month(), 5);
    assert_eq!(EthiopianYear::new(2001, 13, 1).days_in_month(), 5);
    assert_eq!(EthiopianYear::new(2002, 13, 1).days_in_month(), 5);
    for month in 1..13 {
        assert_eq!(EthiopianYear::new(2000, month, 1).days_in_month(), 30);
        assert_eq!(EthiopianYear::new(1999, month, 1).days_in_month(), 30);
    }
}

#[test]
fn amharic_month_names() {
    assert_eq!(EthiopianYear::new(2000, 1, 1).amharic_month(), "መስከረም");
    assert_eq!(EthiopianYear::new(2000, 4, 1).amharic_month(), "ታኅሣሥ");
    assert_eq!(EthiopianYear::new(2000, 12, 1).amharic_month(), "ነሐሴ");
    assert_eq!(EthiopianYear::new(2000, 13, 1).amharic_month(), "ጳጉሜ");
}

#[test]
fn english_month_names() {
    assert_eq!(GregorianYear::new(2008, 1, 1).english_month(), "January");
    assert_eq!(GregorianYear::new(2008, 9, 1).english_month(), "September");
    assert_eq!(GregorianYear::new(2008, 12, 1).english_month(), "December");
}

#[test]
fn weekday_names() {
    // 10 September 2008 was a Wednesday.
    assert_eq!(GregorianYear::new(2008, 9, 10).english_weekday(), "Wednesday");
    assert_eq!(EthiopianYear::new(2000, 13, 5).amharic_weekday(), "ረቡዕ");
    // 1 January 2005 was a Saturday.
    assert_eq!(GregorianYear::new(2005, 1, 1).english_weekday(), "Saturday");
    assert_eq!(EthiopianYear::new(1997, 4, 23).amharic_weekday(), "ቅዳሜ");
}

#[test]
fn formatted_year_pads_to_four_digits() {
    assert_eq!(EthiopianYear::new(5, 1, 1).formatted_year(), "0005");
    assert_eq!(EthiopianYear::new(42, 1, 1).formatted_year(), "0042");
    assert_eq!(EthiopianYear::new(333, 1, 1).formatted_year(), "0333");
    assert_eq!(EthiopianYear::new(2000, 1, 1).formatted_year(), "2000");
    assert_eq!(GregorianYear::new(12345, 1, 1).formatted_year(), "12345");
    assert_eq!(GregorianYear::new(2008, 9, 10).formatted_year(), "2008");
}

#[test]
fn accessors_return_fields() {
    let e = EthiopianYear::new(1855, 2, 20);
    assert_eq!(e.year(), 1855);
    assert_eq!(e.month(), 2);
    assert_eq!(e.day(), 20);
    let g = GregorianYear::new(1862, 10, 29);
    assert_eq!(g.year(), 1862);
    assert_eq!(g.month(), 10);
    assert_eq!(g.day(), 29);
}
