use workshop_downloader::display::{date_of, size_label, DATE_FORMAT};

#[test]
fn dates_are_shown_as_year_month_and_day_in_utc() {
    assert_eq!(DATE_FORMAT, "%Y/%m/%d");
    assert_eq!(date_of(0), Some("1970/01/01".to_string()));
    assert_eq!(date_of(86_399), Some("1970/01/01".to_string()));
    assert_eq!(date_of(86_400), Some("1970/01/02".to_string()));
    assert_eq!(date_of(1_431_648_000), Some("2015/05/15".to_string()));
    assert_eq!(date_of(1_582_934_400), Some("2020/02/29".to_string()));
}

#[test]
fn a_moment_beyond_all_dates_has_no_date() {
    assert_eq!(date_of(usize::MAX), None);
}

#[test]
fn sizes_are_read_from_text_and_shown_in_binary_units() {
    assert_eq!(size_label("15"), Some("15 B".to_string()));
    assert_eq!(size_label("1500"), Some("1.46 KiB".to_string()));
    assert_eq!(size_label("1500000"), Some("1.43 MiB".to_string()));
    assert_eq!(size_label("1500000000"), Some("1.40 GiB".to_string()));
    assert_eq!(size_label("0"), Some("0 B".to_string()));
}

#[test]
fn a_text_that_is_no_number_has_no_size() {
    assert_eq!(size_label(""), None);
    assert_eq!(size_label("12 MB"), None);
    assert_eq!(size_label("-1"), None);
    assert_eq!(size_label("1.5"), None);
    assert_eq!(size_label("18446744073709551616"), None);
}
