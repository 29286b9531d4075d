use datetime_now::{
    current_timestamp, format_timestamp, get_current_datetime, Timestamp, FIRST_YEAR, LAST_YEAR,
};

fn at(year: i32, month: u32, day: u32, hour: u32, minute: u32, second: u32) -> Timestamp {
    Timestamp { year, month, day, hour, minute, second }
}

fn text(t: Timestamp) -> Option<String> {
    format_timestamp(&t)
}

fn has_layout(s: &str) -> bool {
    let b = s.as_bytes();
    b.len() == 19
        && b.iter().enumerate().all(|(i, c)| match i {
            2 | 5 => *c == b'-',
            10 => *c == b' ',
            13 | 16 => *c == b':',
            _ => c.is_ascii_digit(),
        })
}

fn field(s: &str, from: usize, to: usize) -> u32 {
    s[from..to].parse().unwrap()
}

#[test]
fn fixed_instant_renders_exactly() {
    assert_eq!(text(at(2023, 3, 5, 14, 7, 9)), Some("05-03-2023 14:07:09".to_string()));
}

#[test]
fn current_datetime_has_layout() {
    let s = get_current_datetime();
    assert!(has_layout(&s), "{s}");
}

#[test]
fn current_datetime_fields_in_range() {
    let s = get_current_datetime();
    assert!((1..=31).contains(&field(&s, 0, 2)));
    assert!((1..=12).contains(&field(&s, 3, 5)));
    assert!(field(&s, 11, 13) <= 23);
    assert!(field(&s, 14, 16) <= 59);
    assert!(field(&s, 17, 19) <= 59);
}

#[test]
fn current_timestamp_fields_in_range() {
    let t = current_timestamp();
    assert!((1..=12).contains(&t.month));
    assert!((1..=31).contains(&t.day));
    assert!(t.hour <= 23 && t.minute <= 59 && t.second <= 59);
    assert!(t.year >= 1970);
}

#[test]
fn current_datetime_is_the_clock_reading() {
    let before = current_timestamp();
    let s = get_current_datetime();
    let after = current_timestamp();
    assert!(Some(s.clone()) == text(before) || Some(s) == text(after));
}

#[test]
fn one_second_apart_gives_different_text() {
    let a = text(at(2023, 3, 5, 14, 7, 9)).unwrap();
    let b = text(at(2023, 3, 5, 14, 7, 10)).unwrap();
    assert_ne!(a, b);
    assert_eq!(b, "05-03-2023 14:07:10");
}

#[test]
fn year_rollover_gives_different_text() {
    let a = text(at(2023, 12, 31, 23, 59, 59)).unwrap();
    let b = text(at(2024, 1, 1, 0, 0, 0)).unwrap();
    assert_eq!(a, "31-12-2023 23:59:59");
    assert_eq!(b, "01-01-2024 00:00:00");
}

#[test]
fn repeated_calls_each_give_valid_text() {
    for _ in 0..100 {
        let s = get_current_datetime();
        assert!(has_layout(&s), "{s}");
    }
}

#[test]
fn leap_day_exists_only_in_leap_years() {
    assert_eq!(text(at(2024, 2, 29, 0, 0, 0)), Some("29-02-2024 00:00:00".to_string()));
    assert_eq!(text(at(2000, 2, 29, 12, 0, 0)), Some("29-02-2000 12:00:00".to_string()));
    assert_eq!(text(at(2023, 2, 29, 0, 0, 0)), None);
    assert_eq!(text(at(1900, 2, 29, 0, 0, 0)), None);
}

#[test]
fn day_past_month_end_is_rejected() {
    assert_eq!(text(at(2023, 4, 31, 0, 0, 0)), None);
    assert_eq!(text(at(2023, 4, 30, 0, 0, 0)), Some("30-04-2023 00:00:00".to_string()));
    assert_eq!(text(at(2023, 1, 0, 0, 0, 0)), None);
    assert_eq!(text(at(2023, 1, 32, 0, 0, 0)), None);
}

#[test]
fn field_out_of_range_is_rejected() {
    assert_eq!(text(at(2023, 0, 1, 0, 0, 0)), None);
    assert_eq!(text(at(2023, 13, 1, 0, 0, 0)), None);
    assert_eq!(text(at(2023, 1, 1, 24, 0, 0)), None);
    assert_eq!(text(at(2023, 1, 1, 0, 60, 0)), None);
    assert_eq!(text(at(2023, 1, 1, 0, 0, 60)), None);
    assert_eq!(text(at(2023, 1, 1, 23, 59, 59)), Some("01-01-2023 23:59:59".to_string()));
}

#[test]
fn short_years_are_zero_padded() {
    assert_eq!(text(at(42, 7, 4, 1, 2, 3)), Some("04-07-0042 01:02:03".to_string()));
    assert_eq!(text(at(0, 1, 1, 0, 0, 0)), Some("01-01-0000 00:00:00".to_string()));
    assert_eq!(text(at(9999, 12, 31, 23, 59, 59)), Some("31-12-9999 23:59:59".to_string()));
}

#[test]
fn years_outside_four_digits_carry_a_sign() {
    assert_eq!(text(at(-5, 1, 1, 0, 0, 0)), Some("01-01--0005 00:00:00".to_string()));
    assert_eq!(text(at(12345, 1, 1, 0, 0, 0)), Some("01-01-+12345 00:00:00".to_string()));
}

#[test]
fn year_range_ends_where_chrono_ends() {
    assert!(text(at(FIRST_YEAR, 1, 1, 0, 0, 0)).is_some());
    assert!(text(at(LAST_YEAR, 12, 31, 23, 59, 59)).is_some());
    assert_eq!(text(at(FIRST_YEAR - 1, 12, 31, 0, 0, 0)), None);
    assert_eq!(text(at(LAST_YEAR + 1, 1, 1, 0, 0, 0)), None);
}
