use ethiopic_calendar::{ethiopian_to_gregorian, gregorian_to_ethiopian, EthiopianYear, GregorianYear};

#[test]
fn test_from_jdn() {
    let year = EthiopianYear::from_jdn(2401443);
    assert_eq!(
        year,
        EthiopianYear {
            year: 1855,
            month: 2,
            day: 20
        }
    );
}

#[test]
fn test_to_jdn() {
    let year = EthiopianYear {
        year: 1855,
        month: 2,
        day: 20,
    };
    assert_eq!(year.to_jdn(), 2401443);
}

#[test]
fn tests() {
    let tests: [(usize, usize, usize, usize); 28] = [
        (1724221, 1, 1, 1),
        (1724586, 2, 1, 1),
        (1724951, 3, 1, 1),
        (1724585, 1, 13, 5),
        (1724950, 2, 13, 5),
        (1725315, 3, 13, 5),
        (1725316, 3, 13, 6),
        (2299159, 1575, 2, 6),
        (2299160, 1575, 2, 7),
        (2299161, 1575, 2, 8),
        (2299162, 1575, 2, 9),
        (2401443, 1855, 2, 20),
        (2402423, 1857, 10, 29),
        (2402631, 1858, 5, 22),
        (2402709, 1858, 8, 10),
        (2402972, 1859, 4, 28),
        (2403345, 1860, 5, 5),
        (2415021, 1892, 4, 23),
        (2453372, 1997, 4, 23),
        (2454720, 2000, 13, 5),
        (2415385, 1893, 4, 22),
        (2448988, 1985, 4, 22),
        (2450449, 1989, 4, 22),
        (2451910, 1993, 4, 22),
        (2453371, 1997, 4, 22),
        (2817152, 2993, 4, 14),
        (3182395, 3993, 4, 7),
        (3912880, 5993, 3, 22),
    ];

    for test in tests.iter() {
        let year = EthiopianYear::from_jdn(test.0);
        assert_eq!(
            year,
            EthiopianYear {
                year: test.1,
                month: test.2,
                day: test.3,
            }
        );
    }
}

#[test]
fn ethiopian_jdn_vectors() {
    assert_eq!(EthiopianYear::from_jdn(2401443), EthiopianYear::new(1855, 2, 20));
    assert_eq!(EthiopianYear::from_jdn(2453372), EthiopianYear::new(1997, 4, 23));
    assert_eq!(EthiopianYear::from_jdn(2454720), EthiopianYear::new(2000, 13, 5));
}

#[test]
fn gregorian_jdn_vectors() {
    assert_eq!(GregorianYear::from_jdn(2299161), GregorianYear::new(1582, 10, 15));
    assert_eq!(GregorianYear::from_jdn(2453372), GregorianYear::new(2005, 1, 1));
    assert_eq!(GregorianYear::from_jdn(2454720), GregorianYear::new(2008, 9, 10));
}

#[test]
fn gregorian_jdn_vectors_inverse() {
    assert_eq!(GregorianYear::new(1582, 10, 15).to_jdn(), 2299161);
    assert_eq!(GregorianYear::new(2005, 1, 1).to_jdn(), 2453372);
    assert_eq!(GregorianYear::new(2008, 9, 10).to_jdn(), 2454720);
}

#[test]
fn jdn_round_trips() {
    // A run across an Ethiopian leap-cycle boundary and scattered days.
    for jdn in 1724221..1727200 {
        assert_eq!(EthiopianYear::from_jdn(jdn).to_jdn(), jdn);
        assert_eq!(GregorianYear::from_jdn(jdn).to_jdn(), jdn);
    }
    let scattered: [usize; 6] = [2299161, 2401443, 2453372, 2454720, 3912880, 5373484];
    for &jdn in scattered.iter() {
        assert_eq!(EthiopianYear::from_jdn(jdn).to_jdn(), jdn);
        assert_eq!(GregorianYear::from_jdn(jdn).to_jdn(), jdn);
    }
}

#[test]
fn cross_round_trips() {
    let ethiopian_dates: [(usize, usize, usize); 5] = [
        (1, 1, 1),
        (1855, 2, 20),
        (1999, 13, 6),
        (2000, 13, 5),
        (2017, 1, 1),
    ];
    for &(y, m, d) in ethiopian_dates.iter() {
        let e = EthiopianYear::new(y, m, d);
        let g = ethiopian_to_gregorian(&e);
        let back = gregorian_to_ethiopian(&g);
        assert_eq!(back, e);
    }
    let gregorian_dates: [(usize, usize, usize); 5] = [
        (1582, 10, 15),
        (2000, 2, 29),
        (2005, 1, 1),
        (2008, 9, 10),
        (2024, 12, 31),
    ];
    for &(y, m, d) in gregorian_dates.iter() {
        let g = GregorianYear::new(y, m, d);
        let e = gregorian_to_ethiopian(&g);
        let back = ethiopian_to_gregorian(&e);
        assert_eq!(back, g);
    }
}

#[test]
fn end_to_end_scenario() {
    let gregorian = GregorianYear::new(2008, 9, 10);
    let ethiopian = gregorian_to_ethiopian(&gregorian);
    assert_eq!(ethiopian.year(), 2000);
    assert_eq!(ethiopian.month(), 13);
    assert_eq!(ethiopian.day(), 5);
    assert_eq!(ethiopian.amharic_month(), "ጳጉሜ");
    let back = ethiopian_to_gregorian(&ethiopian);
    assert_eq!(back.year(), 2008);
    assert_eq!(back.month(), 9);
    assert_eq!(back.day(), 10);
}

#[test]
fn weekday_consistency() {
    let pairs: [((usize, usize, usize), (usize, usize, usize)); 3] = [
        ((2000, 13, 5), (2008, 9, 10)),
        ((1855, 2, 20), (1862, 10, 29)),
        ((1997, 4, 23), (2005, 1, 1)),
    ];
    for &((ey, em, ed), (gy, gm, gd)) in pairs.iter() {
        let e = EthiopianYear::new(ey, em, ed);
        let g = GregorianYear::new(gy, gm, gd);
        assert_eq!(e.to_jdn(), g.to_jdn());
        assert_eq!(e.weekday(), g.weekday());
    }
    // 10 September 2008 was a Wednesday.
    assert_eq!(GregorianYear::new(2008, 9, 10).weekday(), 3);
    assert_eq!(EthiopianYear::new(2000, 13, 5).weekday(), 3);
}
