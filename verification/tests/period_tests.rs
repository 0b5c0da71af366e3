use gitnapped::period::{
    find_period, parse_period, period_start, read_period, read_unit, Period, PeriodUnit,
};

fn groups(list: &[Option<&str>]) -> Option<Vec<Option<String>>> {
    Some(list.iter().map(|g| g.map(String::from)).collect())
}

#[test]
fn period_is_an_amount_and_a_unit() {
    let found = find_period("6M").unwrap();
    assert_eq!((found.amount, found.unit), (6, PeriodUnit::Months));
    let found = find_period("2Y").unwrap();
    assert_eq!((found.amount, found.unit), (2, PeriodUnit::Years));
    let found = find_period("3W").unwrap();
    assert_eq!((found.amount, found.unit), (3, PeriodUnit::Weeks));
    let found = find_period("5D").unwrap();
    assert_eq!((found.amount, found.unit), (5, PeriodUnit::Days));
    let found = find_period("012H").unwrap();
    assert_eq!((found.amount, found.unit), (12, PeriodUnit::Hours));
}

#[test]
fn text_that_spells_no_period_gives_none() {
    for text in ["", "6", "M", "6m", "6 M", " 6M", "6M ", "6M\n", "-6M", "+6M", "6.5M", "6MM", "6X", "٣D"] {
        assert!(find_period(text).is_none(), "{:?}", text);
        assert!(parse_period(text).is_none(), "{:?}", text);
    }
    assert!(find_period("9223372036854775808D").is_none());
    assert!(find_period("9223372036854775807D").is_some());
}

#[test]
fn period_is_read_from_capture_groups() {
    let read = read_period(&groups(&[Some("6M"), Some("6"), Some("M")])).unwrap();
    assert_eq!((read.amount, read.unit), (6, PeriodUnit::Months));
    let read = read_period(&groups(&[None, Some("-3"), Some("H"), Some("more")])).unwrap();
    assert_eq!((read.amount, read.unit), (-3, PeriodUnit::Hours));
    assert!(read_period(&None).is_none());
    assert!(read_period(&groups(&[])).is_none());
    assert!(read_period(&groups(&[Some("6M"), Some("6")])).is_none());
    assert!(read_period(&groups(&[Some("6M"), None, Some("M")])).is_none());
    assert!(read_period(&groups(&[Some("6M"), Some("6"), None])).is_none());
    assert!(read_period(&groups(&[Some("6M"), Some("six"), Some("M")])).is_none());
    assert!(read_period(&groups(&[Some("6M"), Some("6"), Some("MM")])).is_none());
    assert!(read_period(&groups(&[Some("6M"), Some("6"), Some("")])).is_none());
}

#[test]
fn units_are_single_letters() {
    assert_eq!(read_unit("Y"), Some(PeriodUnit::Years));
    assert_eq!(read_unit("M"), Some(PeriodUnit::Months));
    assert_eq!(read_unit("W"), Some(PeriodUnit::Weeks));
    assert_eq!(read_unit("D"), Some(PeriodUnit::Days));
    assert_eq!(read_unit("H"), Some(PeriodUnit::Hours));
    assert_eq!(read_unit("h"), None);
    assert_eq!(read_unit(""), None);
    assert_eq!(read_unit("YY"), None);
}

#[test]
fn period_starts_so_many_seconds_before_now() {
    let now = 1_700_000_000;
    let at = |amount, unit| period_start(now, Period { amount, unit });
    assert_eq!(at(1, PeriodUnit::Hours), Some(now - 3_600));
    assert_eq!(at(12, PeriodUnit::Hours), Some(now - 43_200));
    assert_eq!(at(5, PeriodUnit::Days), Some(now - 432_000));
    assert_eq!(at(2, PeriodUnit::Weeks), Some(now - 1_209_600));
    assert_eq!(at(6, PeriodUnit::Months), Some(now - 15_552_000));
    assert_eq!(at(2, PeriodUnit::Years), Some(now - 63_072_000));
    assert_eq!(at(0, PeriodUnit::Years), Some(now));
    assert_eq!(at(-1, PeriodUnit::Days), Some(now + 86_400));
}

#[test]
fn period_that_starts_out_of_range_has_no_start() {
    let at = |now, amount, unit| period_start(now, Period { amount, unit });
    assert_eq!(at(0, i64::MAX, PeriodUnit::Hours), None);
    assert_eq!(at(i64::MIN, 1, PeriodUnit::Hours), None);
    assert_eq!(at(i64::MIN + 3_600, 1, PeriodUnit::Hours), Some(i64::MIN));
    assert_eq!(at(i64::MAX, -1, PeriodUnit::Days), None);
    assert_eq!(at(0, i64::MIN, PeriodUnit::Years), None);
    assert_eq!(at(-1, 2_562_047_788_015_215, PeriodUnit::Hours), Some(i64::MIN + 1_807));
}

#[test]
fn period_that_ends_now_began_before_now() {
    let before = std::time::SystemTime::now()
        .duration_since(std::time::UNIX_EPOCH)
        .unwrap()
        .as_secs() as i64;
    let start = parse_period("1H").unwrap();
    assert!(before - 3_600 <= start && start <= before - 3_600 + 60);
    assert!(parse_period("99999999999999999Y").is_none());
}

#[test]
fn period_of_no_length_starts_now() {
    let before = std::time::SystemTime::now()
        .duration_since(std::time::UNIX_EPOCH)
        .unwrap()
        .as_secs() as i64;
    for text in ["0H", "0D", "0W", "0M", "0Y", "000D"] {
        let start = parse_period(text).unwrap();
        assert!(before <= start && start <= before + 60, "{:?}", text);
    }
}
