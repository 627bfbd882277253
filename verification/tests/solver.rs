use crony::at::{At, Occurrences};
use crony::error::Error;
use crony::moment::{leap_year, month_length, second_precision, Moment};
use crony::upcoming::{
    days_in_current_month, distance_from, get_new_upcoming_moment, get_upcoming_moment,
    month_with_day, nearest_value, next_month, next_year, resolve, Step,
};

fn moment(year: i32, month: u8, day: u8, hour: u8, minute: u8, second: u8) -> Moment {
    Moment::new(year, month, day, hour, minute, second, 0).unwrap()
}

fn solve(after: Moment, pattern: &str) -> Result<Moment, Error> {
    get_upcoming_moment(after, &At::parse(pattern).unwrap())
}

#[test]
fn solver_hourly() {
    assert_eq!(solve(moment(2024, 1, 1, 0, 30, 15), "m=0"), Ok(moment(2024, 1, 1, 1, 0, 0)));
}

#[test]
fn solver_multi() {
    assert_eq!(solve(moment(2024, 2, 15, 12, 0, 0), "D=1,15 h=6"), Ok(moment(2024, 3, 1, 6, 0, 0)));
}

#[test]
fn solver_leap() {
    assert_eq!(solve(moment(2023, 1, 10, 0, 0, 0), "M=2 D=29"), Ok(moment(2024, 2, 29, 0, 0, 0)));
}

#[test]
fn solver_keeps_a_matching_moment() {
    assert_eq!(solve(moment(2024, 1, 1, 10, 0, 0), "h=10"), Ok(moment(2024, 1, 1, 10, 0, 0)));
    assert_eq!(solve(moment(2024, 1, 1, 10, 0, 1), "h=10"), Ok(moment(2024, 1, 2, 10, 0, 0)));
    assert_eq!(solve(moment(2024, 5, 17, 3, 4, 5), "s=*"), Ok(moment(2024, 5, 17, 3, 4, 5)));
}

#[test]
fn solver_drops_the_fraction() {
    let after = Moment::new(2024, 1, 1, 0, 0, 30, 500_000_000).unwrap();
    assert_eq!(solve(after, "s=30"), Ok(moment(2024, 1, 1, 0, 0, 30)));
    assert_eq!(second_precision(after), moment(2024, 1, 1, 0, 0, 30));
}

#[test]
fn solver_resets_finer_fields_after_a_carry() {
    assert_eq!(solve(moment(2024, 1, 1, 10, 30, 45), "m=15,40 s=10,50"), Ok(moment(2024, 1, 1, 10, 40, 10)));
    assert_eq!(solve(moment(2024, 1, 1, 10, 40, 45), "m=15,40 s=10,50"), Ok(moment(2024, 1, 1, 10, 40, 50)));
    assert_eq!(solve(moment(2024, 1, 1, 10, 40, 51), "m=15,40 s=10,50"), Ok(moment(2024, 1, 1, 11, 15, 10)));
}

#[test]
fn solver_carries_over_the_ends() {
    assert_eq!(solve(moment(2023, 12, 31, 23, 59, 59), "s=0"), Ok(moment(2024, 1, 1, 0, 0, 0)));
    assert_eq!(solve(moment(2024, 2, 28, 23, 59, 30), "s=15"), Ok(moment(2024, 2, 29, 0, 0, 15)));
    assert_eq!(solve(moment(2023, 2, 28, 23, 59, 30), "s=15"), Ok(moment(2023, 3, 1, 0, 0, 15)));
    assert_eq!(solve(moment(2024, 1, 31, 0, 0, 1), "D=31"), Ok(moment(2024, 3, 31, 0, 0, 0)));
    assert_eq!(solve(moment(2024, 4, 1, 0, 0, 0), "D=31"), Ok(moment(2024, 5, 31, 0, 0, 0)));
    assert_eq!(solve(moment(2024, 3, 1, 0, 0, 0), "M=1"), Ok(moment(2025, 1, 1, 0, 0, 0)));
    assert_eq!(solve(moment(2024, 3, 1, 0, 0, 0), "M=2,11 D=30"), Ok(moment(2024, 11, 30, 0, 0, 0)));
}

#[test]
fn solver_no_such_date() {
    assert_eq!(solve(moment(2024, 1, 1, 0, 0, 0), "M=2 D=30"), Err(Error::NoSuchDate));
    assert_eq!(solve(moment(2024, 1, 1, 0, 0, 0), "M=2,4,6 D=31"), Err(Error::NoSuchDate));
    assert_eq!(solve(moment(2096, 3, 1, 0, 0, 0), "M=2 D=29"), Err(Error::NoSuchDate));
    assert_eq!(solve(moment(2100, 1, 1, 0, 0, 0), "M=2 D=29"), Ok(moment(2104, 2, 29, 0, 0, 0)));
    assert_eq!(solve(moment(9999, 12, 31, 23, 59, 59), "s=0"), Err(Error::NoSuchDate));
    assert_eq!(solve(moment(9999, 12, 31, 23, 59, 59), "s=59"), Ok(moment(9999, 12, 31, 23, 59, 59)));
}

#[test]
fn solver_result_is_not_before_after() {
    let patterns = ["s=*", "s=30", "m=0", "h=10", "D=1,15 h=6", "M=2 D=29", "M=6,12 D=31 h=23 m=59 s=59"];
    let starts = [
        moment(2024, 1, 1, 0, 0, 0),
        moment(2024, 2, 29, 23, 59, 59),
        moment(2023, 12, 31, 23, 59, 59),
        moment(1999, 6, 15, 12, 30, 30),
    ];
    for pattern in patterns {
        let at = At::parse(pattern).unwrap();
        for start in starts {
            let found = get_upcoming_moment(start, &at).unwrap();
            assert!(found.is_valid());
            assert!(found.seconds() >= start.seconds(), "{pattern}");
            assert!(!start.is_after(&found), "{pattern}");
            assert_eq!(get_upcoming_moment(found, &at), Ok(found), "{pattern}");
        }
    }
}

#[test]
fn new_upcoming_makes_progress() {
    let every = At::parse("s=*").unwrap();
    let now = moment(2024, 1, 1, 0, 0, 0);
    assert_eq!(get_new_upcoming_moment(now, &every, now), Ok(moment(2024, 1, 1, 0, 0, 1)));
    let half = At::parse("s=30").unwrap();
    let planned = moment(2024, 1, 1, 0, 0, 30);
    assert_eq!(get_new_upcoming_moment(planned, &half, planned), Ok(moment(2024, 1, 1, 0, 1, 30)));
    assert_eq!(get_new_upcoming_moment(moment(2024, 1, 1, 0, 0, 31), &half, planned), Ok(moment(2024, 1, 1, 0, 1, 30)));
    assert_eq!(get_new_upcoming_moment(moment(2024, 1, 1, 0, 0, 10), &half, moment(2023, 1, 1, 0, 0, 30)), Ok(planned));
    assert_eq!(get_new_upcoming_moment(moment(9999, 12, 31, 23, 59, 59), &every, moment(9999, 12, 31, 23, 59, 59)), Err(Error::NoSuchDate));
}

#[test]
fn next_occurrence_is_the_upcoming_moment() {
    let at = At::parse("m=0").unwrap();
    assert_eq!(at.next_occurrence(moment(2024, 1, 1, 0, 30, 15)), Ok(moment(2024, 1, 1, 1, 0, 0)));
}

#[test]
fn ring_distances() {
    assert_eq!(distance_from(10, 5, 60), (5, false));
    assert_eq!(distance_from(5, 10, 60), (55, true));
    assert_eq!(distance_from(7, 7, 60), (0, false));
    assert_eq!(distance_from(1, 31, 31), (1, true));
    assert_eq!(nearest_value(&[10, 50], 45, 60), (50, false));
    assert_eq!(nearest_value(&[10, 50], 51, 60), (10, true));
    assert_eq!(nearest_value(&[10, 50], 50, 60), (10, true));
    assert_eq!(nearest_value(&[3, 3, 9], 3, 12), (9, false));
    assert_eq!(nearest_value(&[12, 1], 6, 12), (12, false));
}

#[test]
fn resolve_steps() {
    assert_eq!(resolve(&Occurrences::Every, 7, 0, 59), Step::Keep);
    assert_eq!(resolve(&Occurrences::First, 0, 0, 59), Step::Keep);
    assert_eq!(resolve(&Occurrences::First, 1, 1, 31), Step::Keep);
    assert_eq!(resolve(&Occurrences::First, 7, 0, 59), Step::Carry);
    assert_eq!(resolve(&Occurrences::Once(7), 7, 0, 59), Step::Keep);
    assert_eq!(resolve(&Occurrences::Once(9), 7, 0, 59), Step::Jump(9));
    assert_eq!(resolve(&Occurrences::Once(5), 7, 0, 59), Step::Carry);
    assert_eq!(resolve(&Occurrences::Multiple(vec![5, 9, 30]), 7, 0, 59), Step::Jump(9));
    assert_eq!(resolve(&Occurrences::Multiple(vec![5, 9, 30]), 30, 0, 59), Step::Keep);
    assert_eq!(resolve(&Occurrences::Multiple(vec![5, 9, 30]), 31, 0, 59), Step::Carry);
}

#[test]
fn calendar_helpers() {
    assert!(leap_year(2024));
    assert!(leap_year(2000));
    assert!(!leap_year(1900));
    assert!(!leap_year(2023));
    assert!(leap_year(-4));
    assert!(leap_year(0));
    assert_eq!(month_length(2024, 2), 29);
    assert_eq!(month_length(2023, 2), 28);
    assert_eq!(month_length(2023, 4), 30);
    assert_eq!(month_length(2023, 12), 31);
    assert_eq!(days_in_current_month(&moment(2024, 2, 10, 1, 2, 3)), 29);
    assert_eq!(next_year(&moment(2024, 2, 29, 1, 2, 3)), Some(moment(2028, 2, 29, 1, 2, 3)));
    assert_eq!(next_year(&moment(2096, 2, 29, 1, 2, 3)), Some(moment(2104, 2, 29, 1, 2, 3)));
    assert_eq!(next_year(&moment(2024, 3, 1, 1, 2, 3)), Some(moment(2025, 3, 1, 1, 2, 3)));
    assert_eq!(next_year(&moment(9999, 3, 1, 1, 2, 3)), None);
    assert_eq!(next_month(&moment(2024, 1, 15, 1, 2, 3)), Some(moment(2024, 2, 15, 1, 2, 3)));
    assert_eq!(next_month(&moment(2024, 1, 31, 1, 2, 3)), Some(moment(2024, 3, 31, 1, 2, 3)));
    assert_eq!(next_month(&moment(2023, 1, 29, 1, 2, 3)), Some(moment(2023, 3, 29, 1, 2, 3)));
    assert_eq!(next_month(&moment(2024, 1, 29, 1, 2, 3)), Some(moment(2024, 2, 29, 1, 2, 3)));
    assert_eq!(next_month(&moment(2024, 12, 31, 1, 2, 3)), Some(moment(2025, 1, 31, 1, 2, 3)));
    assert_eq!(next_month(&moment(2024, 12, 5, 1, 2, 3)), Some(moment(2025, 1, 5, 1, 2, 3)));
    assert_eq!(next_month(&moment(9999, 12, 5, 1, 2, 3)), None);
    assert_eq!(month_with_day(&moment(2024, 2, 10, 1, 2, 3), 30, true), Some(moment(2024, 3, 30, 1, 2, 3)));
    assert_eq!(month_with_day(&moment(2024, 1, 10, 1, 2, 3), 30, true), Some(moment(2024, 1, 30, 1, 2, 3)));
    assert_eq!(month_with_day(&moment(2024, 1, 10, 1, 2, 3), 30, false), Some(moment(2024, 3, 30, 1, 2, 3)));
    assert_eq!(month_with_day(&moment(9999, 12, 10, 1, 2, 3), 30, false), None);
}

#[test]
fn moments() {
    assert_eq!(Moment::new(2023, 2, 29, 0, 0, 0, 0), None);
    assert_eq!(Moment::new(2024, 2, 29, 0, 0, 0, 0).map(|m| m.day), Some(29));
    assert_eq!(Moment::new(2024, 13, 1, 0, 0, 0, 0), None);
    assert_eq!(Moment::new(2024, 1, 1, 24, 0, 0, 0), None);
    assert_eq!(Moment::new(10000, 1, 1, 0, 0, 0, 0), None);
    assert_eq!(Moment::new(2024, 1, 1, 0, 0, 0, 1_000_000_000), None);
    assert_eq!(moment(1, 1, 1, 0, 0, 0).day_count(), 0);
    assert_eq!(moment(1, 1, 1, 0, 0, 0).seconds(), 0);
    assert_eq!(moment(1970, 1, 1, 0, 0, 0).day_count(), 719_162);
    assert_eq!(moment(2024, 1, 1, 0, 0, 0).seconds() - moment(1970, 1, 1, 0, 0, 0).seconds(), 1_704_067_200);
    assert_eq!(moment(0, 12, 31, 23, 59, 59).seconds(), -1);
    assert_eq!(moment(2024, 3, 1, 0, 0, 0).seconds_since(&moment(2024, 2, 28, 0, 0, 0)), 2 * 86400);
    assert!(moment(2024, 3, 1, 0, 0, 0).is_after(&moment(2024, 2, 29, 23, 59, 59)));
    assert!(!moment(2024, 3, 1, 0, 0, 0).is_after(&moment(2024, 3, 1, 0, 0, 0)));
    assert!(Moment::new(2024, 3, 1, 0, 0, 0, 1).unwrap().is_after(&moment(2024, 3, 1, 0, 0, 0)));
}
