use segment_backup::{
    base_filename, parse_segment_size, resolve_config, segment_file_name, CalendarDate, ConfigError,
    DEFAULT_SEGMENT_SIZE,
};

fn day(year: i32, month: u32, day: u32) -> CalendarDate {
    CalendarDate::new(year, month, day).unwrap()
}

#[test]
fn base_name_for_project_under_home() {
    let name = base_filename("/home/u/proj", "/home/u", &day(2024, 1, 15));
    assert_eq!(name, "/home/u#proj-2024-01-15");
}

#[test]
fn part_names_for_project_under_home() {
    let base = base_filename("/home/u/proj", "/home/u", &day(2024, 1, 15));
    assert_eq!(segment_file_name(&base, 0), "/home/u#proj-2024-01-15.part0");
    assert_eq!(segment_file_name(&base, 1), "/home/u#proj-2024-01-15.part1");
    assert_eq!(segment_file_name(&base, 12), "/home/u#proj-2024-01-15.part12");
}

#[test]
fn part_name_of_largest_index() {
    assert_eq!(segment_file_name("b", u64::MAX), "b.part18446744073709551615");
}

#[test]
fn naming_is_reproducible() {
    let a = base_filename("/home/u/proj/sub", "/home/u", &day(2024, 1, 15));
    let b = base_filename("/home/u/proj/sub", "/home/u", &day(2024, 1, 15));
    assert_eq!(a, b);
    assert_eq!(a, "/home/u#proj#sub-2024-01-15");
}

#[test]
fn cwd_outside_home_keeps_whole_path() {
    let name = base_filename("/tmp/work", "/home/u", &day(2023, 12, 3));
    assert_eq!(name, "/home/u#tmp#work-2023-12-03");
}

#[test]
fn only_first_occurrence_of_home_is_removed() {
    let name = base_filename("/a/x/a/y", "/a", &day(2024, 2, 29));
    assert_eq!(name, "/a#x#a#y-2024-02-29");
}

#[test]
fn cwd_equal_to_home() {
    let name = base_filename("/home/u", "/home/u", &day(999, 7, 4));
    assert_eq!(name, "/home/u-0999-07-04");
}

#[test]
fn non_ascii_path_is_kept() {
    let name = base_filename("/home/ü/проект", "/home/ü", &day(2024, 1, 15));
    assert_eq!(name, "/home/ü#проект-2024-01-15");
}

#[test]
fn iso_text_pads_fields() {
    assert_eq!(day(2024, 1, 5).iso_text(), "2024-01-05");
    assert_eq!(day(7, 11, 30).iso_text(), "0007-11-30");
}

#[test]
fn invalid_dates_are_refused() {
    assert!(CalendarDate::new(2023, 2, 29).is_none());
    assert!(CalendarDate::new(1900, 2, 29).is_none());
    assert!(CalendarDate::new(2000, 2, 29).is_some());
    assert!(CalendarDate::new(2024, 4, 31).is_none());
    assert!(CalendarDate::new(2024, 13, 1).is_none());
    assert!(CalendarDate::new(2024, 0, 1).is_none());
    assert!(CalendarDate::new(2024, 1, 0).is_none());
    assert!(CalendarDate::new(10000, 1, 1).is_none());
    assert!(CalendarDate::new(-1, 1, 1).is_none());
}

#[test]
fn today_is_a_valid_date_when_given() {
    if let Some(d) = CalendarDate::today() {
        assert!(CalendarDate::new(d.year, d.month, d.day).is_some());
        assert_eq!(d.iso_text().len(), 10);
    }
}

#[test]
fn malformed_segment_size_falls_back_to_default() {
    assert_eq!(parse_segment_size(Some("notanumber")), 4 * 1024 * 1024 * 1024);
    assert_eq!(parse_segment_size(Some("notanumber")), DEFAULT_SEGMENT_SIZE);
}

#[test]
fn absent_segment_size_uses_default() {
    assert_eq!(parse_segment_size(None), 4294967296);
}

#[test]
fn segment_size_override_is_read() {
    assert_eq!(parse_segment_size(Some("4194304")), 4194304);
    assert_eq!(parse_segment_size(Some("+17")), 17);
    assert_eq!(parse_segment_size(Some("007")), 7);
    assert_eq!(parse_segment_size(Some("18446744073709551615")), u64::MAX);
}

#[test]
fn unusable_segment_sizes_fall_back_to_default() {
    assert_eq!(parse_segment_size(Some("")), DEFAULT_SEGMENT_SIZE);
    assert_eq!(parse_segment_size(Some("+")), DEFAULT_SEGMENT_SIZE);
    assert_eq!(parse_segment_size(Some("0")), DEFAULT_SEGMENT_SIZE);
    assert_eq!(parse_segment_size(Some("-5")), DEFAULT_SEGMENT_SIZE);
    assert_eq!(parse_segment_size(Some(" 5")), DEFAULT_SEGMENT_SIZE);
    assert_eq!(parse_segment_size(Some("12a")), DEFAULT_SEGMENT_SIZE);
    assert_eq!(parse_segment_size(Some("18446744073709551616")), DEFAULT_SEGMENT_SIZE);
}

#[test]
fn config_without_home_is_an_error() {
    let r = resolve_config("/home/u/proj", None, None, day(2024, 1, 15));
    assert_eq!(r.unwrap_err(), ConfigError::MissingHome);
}

#[test]
fn config_for_project_under_home() {
    let c = resolve_config("/home/u/proj", Some("/home/u"), None, day(2024, 1, 15)).unwrap();
    assert_eq!(c.base_filename, "/home/u#proj-2024-01-15");
    assert_eq!(c.segment_size, 4294967296);
    assert_eq!(c.working_directory, "/home/u/proj");
    assert_eq!(c.home_directory, "/home/u");
    assert_eq!(c.date, day(2024, 1, 15));
}

#[test]
fn config_with_malformed_override() {
    let c = resolve_config("/home/u/proj", Some("/home/u"), Some("notanumber"), day(2024, 1, 15)).unwrap();
    assert_eq!(c.segment_size, DEFAULT_SEGMENT_SIZE);
    let c = resolve_config("/home/u/proj", Some("/home/u"), Some("1000"), day(2024, 1, 15)).unwrap();
    assert_eq!(c.segment_size, 1000);
}
