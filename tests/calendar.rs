use nj_volume::{page_url, Day, DayRange};

fn day(year: i32, month: u8, d: u8) -> Day {
    Day::new(year, month, d).expect("a calendar date")
}

fn collect(start: Day, end: Day) -> Vec<Day> {
    let mut range = DayRange::new(start, end);
    let mut out = Vec::new();
    while let Some(d) = range.next() {
        out.push(d);
    }
    out
}

#[test]
fn range_over_leap_february() {
    let days = collect(day(2020, 1, 1), day(2020, 3, 1));
    assert_eq!(days.len(), 60);
    assert_eq!(days[0], day(2020, 1, 1));
    assert_eq!(days[30], day(2020, 1, 31));
    assert_eq!(days[31], day(2020, 2, 1));
    assert_eq!(days[59], day(2020, 2, 29));
}

#[test]
fn range_across_year_end() {
    let days = collect(day(2019, 12, 30), day(2020, 1, 2));
    assert_eq!(days, vec![day(2019, 12, 30), day(2019, 12, 31), day(2020, 1, 1)]);
}

#[test]
fn range_of_the_job_counts_every_day_once() {
    let days = collect(day(2020, 1, 1), day(2023, 6, 27));
    assert_eq!(days.len(), 1273);
    for w in days.windows(2) {
        assert!(w[0].before(&w[1]));
    }
    assert_eq!(days[days.len() - 1], day(2023, 6, 26));
}

#[test]
fn empty_range_when_start_is_not_before_end() {
    assert!(collect(day(2021, 5, 5), day(2021, 5, 5)).is_empty());
    assert!(collect(day(2021, 5, 6), day(2021, 5, 5)).is_empty());
}

#[test]
fn range_stops_and_stays_done() {
    let mut range = DayRange::new(day(2021, 2, 28), day(2021, 3, 1));
    assert_eq!(range.next(), Some(day(2021, 2, 28)));
    assert_eq!(range.next(), None);
    assert_eq!(range.next(), None);
}

#[test]
fn range_up_to_the_last_date() {
    let days = collect(day(9999, 12, 30), day(9999, 12, 31));
    assert_eq!(days, vec![day(9999, 12, 30)]);
}

#[test]
fn calendar_dates_are_checked() {
    assert!(Day::new(2023, 2, 29).is_none());
    assert!(Day::new(2024, 2, 29).is_some());
    assert!(Day::new(1900, 2, 29).is_none());
    assert!(Day::new(2000, 2, 29).is_some());
    assert!(Day::new(2023, 4, 31).is_none());
    assert!(Day::new(2023, 13, 1).is_none());
    assert!(Day::new(2023, 0, 1).is_none());
    assert!(Day::new(2023, 1, 0).is_none());
    assert!(Day::new(-1, 1, 1).is_none());
    assert!(Day::new(10000, 1, 1).is_none());
    assert_eq!(Day::new(2023, 6, 20), Some(Day { year: 2023, month: 6, day: 20 }));
}

#[test]
fn day_strings_have_eight_digits() {
    assert_eq!(day(2023, 6, 20).day_string(), "20230620");
    assert_eq!(day(2020, 1, 1).day_string(), "20200101");
    assert_eq!(day(999, 12, 5).day_string(), "09991205");
}

#[test]
fn page_address_of_a_day() {
    assert_eq!(
        page_url(2023, "20230620"),
        "https://www.njhouse.com.cn/include/everyday/2023/dist20230620.htm"
    );
    let d = day(2020, 1, 1);
    assert_eq!(
        page_url(d.year, &d.day_string()),
        "https://www.njhouse.com.cn/include/everyday/2020/dist20200101.htm"
    );
}
