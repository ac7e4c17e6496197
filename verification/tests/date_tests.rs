use timespent::date::Date;
use timespent::date::DateTime;

fn day(year: i32, month: u8, day: u8) -> Date {
    Date { year, month, day }
}

#[test]
fn test_date_new_validity() {
    assert!(Date::new(2020, 2, 29).is_some());
    assert!(Date::new(2021, 2, 29).is_none());
    assert!(Date::new(1900, 2, 29).is_none());
    assert!(Date::new(2000, 2, 29).is_some());
    assert!(Date::new(2022, 4, 31).is_none());
    assert!(Date::new(2022, 0, 1).is_none());
    assert!(Date::new(2022, 1, 0).is_none());
    assert!(Date::new(-1, 1, 1).is_none());
    assert!(Date::new(10000, 1, 1).is_none());
}

#[test]
fn test_day_number_differences() {
    let a = day(2022, 12, 31).day_number();
    let b = day(2023, 1, 1).day_number();
    assert_eq!(b - a, 1);

    let c = day(2020, 2, 28).day_number();
    let d = day(2020, 3, 1).day_number();
    assert_eq!(d - c, 2);

    let e = day(2021, 2, 28).day_number();
    let f = day(2021, 3, 1).day_number();
    assert_eq!(f - e, 1);

    let g = day(2015, 7, 22).day_number();
    let h = day(2030, 7, 27).day_number();
    assert_eq!(h - g, 5484);
}

#[test]
fn test_next_and_prev_day() {
    assert_eq!(day(2022, 12, 31).next_day(), day(2023, 1, 1));
    assert_eq!(day(2020, 2, 28).next_day(), day(2020, 2, 29));
    assert_eq!(day(2023, 3, 1).prev_day(), day(2023, 2, 28));
    assert_eq!(day(2023, 1, 1).prev_day(), day(2022, 12, 31));
}

#[test]
fn test_weekday_and_week_start() {
    // 2023-01-02 is a Monday.
    assert_eq!(day(2023, 1, 2).weekday(), 0);
    // 2022-03-14 is also a Monday; the 17th is its Thursday.
    assert_eq!(day(2022, 3, 17).weekday(), 3);
    assert_eq!(day(2022, 3, 17).week_start(), day(2022, 3, 14));
    assert_eq!(day(2023, 1, 1).week_start(), day(2022, 12, 26));
}

#[test]
fn test_iso_week() {
    assert_eq!(day(2022, 3, 14).iso_week(), (2022, 11));
    assert_eq!(day(2023, 1, 1).iso_week(), (2022, 52));
    assert_eq!(day(2023, 1, 2).iso_week(), (2023, 1));
    assert_eq!(day(2021, 1, 1).iso_week(), (2020, 53));
}

#[test]
fn test_minutes_until() {
    let a = DateTime { date: day(2022, 7, 22), hour: 12, minute: 0 };
    let b = DateTime { date: day(2022, 7, 22), hour: 13, minute: 1 };
    assert_eq!(a.minutes_until(&b), 61);
    assert_eq!(b.minutes_until(&a), -61);
    let c = DateTime { date: day(2022, 7, 23), hour: 0, minute: 0 };
    assert_eq!(a.minutes_until(&c), 12 * 60);
}
