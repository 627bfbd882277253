use crony::at::At;
use crony::moment::{leap_year, month_length, Moment, MAX_YEAR, MIN_YEAR};
use crony::upcoming::{get_upcoming_moment, month_with_day, next_month, next_year};

fn moment(year: i32, month: u8, day: u8, hour: u8, minute: u8, second: u8) -> Moment {
    Moment::new(year, month, day, hour, minute, second, 0).unwrap()
}

fn day_after(year: i32, month: u8, day: u8) -> Option<(i32, u8, u8)> {
    if day < month_length(year, month) {
        Some((year, month, day + 1))
    } else if month < 12 {
        Some((year, month + 1, 1))
    } else if year < MAX_YEAR {
        Some((year + 1, 1, 1))
    } else {
        None
    }
}

#[test]
fn every_month_is_followed_by_the_next() {
    for year in MIN_YEAR..=MAX_YEAR {
        for month in 1..=12u8 {
            let found = next_month(&moment(year, month, 15, 12, 34, 56));
            let expected = if month < 12 {
                Some(moment(year, month + 1, 15, 12, 34, 56))
            } else if year < MAX_YEAR {
                Some(moment(year + 1, 1, 15, 12, 34, 56))
            } else {
                None
            };
            assert_eq!(found, expected, "{year}-{month}");
        }
    }
}

#[test]
fn every_february_has_its_length() {
    for year in MIN_YEAR..=MAX_YEAR {
        let found = month_with_day(&moment(year, 2, 1, 0, 0, 0), 29, true);
        let expected = if leap_year(year) { moment(year, 2, 29, 0, 0, 0) } else { moment(year, 3, 29, 0, 0, 0) };
        assert_eq!(found, Some(expected), "{year}");
        assert_eq!(leap_year(year), year % 4 == 0 && (year % 100 != 0 || year % 400 == 0), "{year}");
    }
}

#[test]
fn every_leap_day_comes_again() {
    for year in MIN_YEAR..=MAX_YEAR {
        if !leap_year(year) {
            continue;
        }
        let mut expected = year + 1;
        while expected <= MAX_YEAR && !leap_year(expected) {
            expected += 1;
        }
        let found = next_year(&moment(year, 2, 29, 6, 7, 8));
        if expected <= MAX_YEAR {
            assert_eq!(found, Some(moment(expected, 2, 29, 6, 7, 8)), "{year}");
        } else {
            assert_eq!(found, None, "{year}");
        }
        assert_eq!(next_year(&moment(year, 3, 1, 6, 7, 8)), if year < MAX_YEAR { Some(moment(year + 1, 3, 1, 6, 7, 8)) } else { None });
    }
}

#[test]
fn every_year_ends_into_the_next() {
    let midnight = At::parse("s=0").unwrap();
    for year in MIN_YEAR..=MAX_YEAR {
        let found = get_upcoming_moment(moment(year, 12, 31, 23, 59, 59), &midnight);
        if year < MAX_YEAR {
            assert_eq!(found, Ok(moment(year + 1, 1, 1, 0, 0, 0)), "{year}");
        } else {
            assert!(found.is_err());
        }
        let (_, month, day) = day_after(year, 2, 28).unwrap();
        assert_eq!(
            get_upcoming_moment(moment(year, 2, 28, 23, 59, 59), &midnight),
            Ok(moment(year, month, day, 0, 0, 0)),
            "{year}"
        );
    }
}

#[test]
fn every_day_ends_into_the_next() {
    let midnight = At::parse("h=0").unwrap();
    let minute = At::parse("m=*").unwrap();
    for year in [-9999, -401, -400, -100, -4, -1, 0, 1, 4, 100, 400, 1900, 1999, 2000, 2023, 2024, 2100, 9998] {
        for month in 1..=12u8 {
            for day in 1..=month_length(year, month) {
                let (y, m, d) = day_after(year, month, day).unwrap();
                assert_eq!(
                    get_upcoming_moment(moment(year, month, day, 0, 0, 1), &midnight),
                    Ok(moment(y, m, d, 0, 0, 0)),
                    "{year}-{month}-{day}"
                );
                assert_eq!(
                    get_upcoming_moment(moment(year, month, day, 23, 59, 1), &minute),
                    Ok(moment(y, m, d, 0, 0, 0)),
                    "{year}-{month}-{day}"
                );
                assert_eq!(
                    moment(y, m, d, 0, 0, 0).seconds_since(&moment(year, month, day, 0, 0, 0)),
                    86400,
                    "{year}-{month}-{day}"
                );
            }
        }
    }
}

#[test]
fn every_month_can_be_asked_for() {
    for year in [-9999, -1, 0, 1, 1999, 2000, 2024, 9998] {
        for from in 1..=12u8 {
            for wanted in 1..=12u8 {
                let at = At::parse(&format!("M={wanted}")).unwrap();
                let found = get_upcoming_moment(moment(year, from, 2, 3, 4, 5), &at);
                let expected = if wanted > from {
                    moment(year, wanted, 1, 0, 0, 0)
                } else {
                    moment(year + 1, wanted, 1, 0, 0, 0)
                };
                assert_eq!(found, Ok(expected), "{year}-{from} M={wanted}");
            }
        }
    }
}

#[test]
fn every_day_of_the_month_can_be_asked_for() {
    for (year, month) in [(2023, 2), (2024, 2), (2024, 4), (2024, 12), (1900, 2), (2000, 2)] {
        for wanted in 1..=31u8 {
            let at = At::parse(&format!("D={wanted}")).unwrap();
            let found = get_upcoming_moment(moment(year, month, 1, 0, 0, 0), &at).unwrap();
            assert_eq!(found.day, wanted);
            assert_eq!((found.hour, found.minute, found.second), (0, 0, 0));
            if wanted <= month_length(year, month) {
                assert_eq!((found.year, found.month), (year, month));
            } else {
                assert_eq!((found.year, found.month), if month < 12 { (year, month + 1) } else { (year + 1, 1) });
            }
        }
    }
}
