use workshop_downloader::binary::tenths_of;
use workshop_downloader::util::format_bytes;

/// The text that printing the quotient of two doubles with one decimal gives.
fn printed(bytes: u64) -> String {
    if bytes > 1000000000 {
        format!("{:.1} GB", bytes as f64 / 1000000000.0)
    } else if bytes > 1000000 {
        format!("{:.1} MB", bytes as f64 / 1000000.0)
    } else if bytes > 1000 {
        format!("{:.1} KB", bytes as f64 / 1000.0)
    } else {
        format!("{} B", bytes)
    }
}

fn same_as_printed(bytes: u64) {
    assert_eq!(format_bytes(bytes), printed(bytes), "for {} bytes", bytes);
}

#[test]
fn small_sizes_are_counted_in_bytes() {
    assert_eq!(format_bytes(0), "0 B");
    assert_eq!(format_bytes(1), "1 B");
    assert_eq!(format_bytes(999), "999 B");
    assert_eq!(format_bytes(1000), "1000 B");
}

#[test]
fn larger_sizes_are_shown_with_one_decimal() {
    assert_eq!(format_bytes(1001), "1.0 KB");
    assert_eq!(format_bytes(1500), "1.5 KB");
    assert_eq!(format_bytes(999_949), "999.9 KB");
    assert_eq!(format_bytes(999_950), "1000.0 KB");
    assert_eq!(format_bytes(1_000_000), "1000.0 KB");
    assert_eq!(format_bytes(1_000_001), "1.0 MB");
    assert_eq!(format_bytes(1_234_567), "1.2 MB");
    assert_eq!(format_bytes(1_000_000_000), "1000.0 MB");
    assert_eq!(format_bytes(1_000_000_001), "1.0 GB");
    assert_eq!(format_bytes(1_500_000_000), "1.5 GB");
    assert_eq!(format_bytes(123_456_789_012), "123.5 GB");
    assert_eq!(format_bytes(u64::MAX), "18446744073.7 GB");
}

#[test]
fn a_size_halfway_between_two_tenths_goes_as_its_double_goes() {
    assert_eq!(format_bytes(1050), "1.1 KB");
    assert_eq!(format_bytes(1150), "1.1 KB");
    assert_eq!(format_bytes(1250), "1.2 KB");
    assert_eq!(format_bytes(1350), "1.4 KB");
    assert_eq!(format_bytes(1450), "1.4 KB");
    assert_eq!(format_bytes(1750), "1.8 KB");
    assert_eq!(format_bytes(2_250_000), "2.2 MB");
    assert_eq!(format_bytes(2_750_000_000), "2.8 GB");
    for bytes in [1050, 1150, 1250, 1350, 1450, 1550, 1650, 1750, 1850, 1950] {
        same_as_printed(bytes);
    }
}

#[test]
fn every_size_in_kilobytes_is_shown_as_printed() {
    for bytes in 0..=1_000_001 {
        same_as_printed(bytes);
    }
}

#[test]
fn sizes_in_megabytes_are_shown_as_printed() {
    let mut bytes = 1_000_001;
    while bytes <= 1_000_000_001 {
        same_as_printed(bytes);
        bytes += 4_099;
    }
    for halves in 20..20_001 {
        same_as_printed(halves * 50_000);
        same_as_printed(halves * 50_000 + 1);
        same_as_printed(halves * 50_000 - 1);
    }
}

#[test]
fn sizes_in_gigabytes_are_shown_as_printed() {
    let mut bytes: u64 = 1_000_000_001;
    while bytes < 4_000_000_000_000_000_000 {
        same_as_printed(bytes);
        same_as_printed(bytes + 1);
        bytes += bytes / 997 + 50_000_000 - bytes % 50_000_000;
    }
    for halves in 20..50_001u64 {
        same_as_printed(halves * 50_000_000);
        same_as_printed(halves * 50_000_000 + 1);
        same_as_printed(halves * 50_000_000 - 1);
    }
}

#[test]
fn sizes_beyond_what_a_double_holds_exactly_are_shown_as_printed() {
    let exact: u64 = 1 << 53;
    for bytes in exact - 5..exact + 40 {
        same_as_printed(bytes);
    }
    for shift in 53..64 {
        let power: u64 = 1 << shift;
        for near in 0..2_100 {
            same_as_printed(power + near);
            same_as_printed(power - near);
            same_as_printed(power + (power >> 1) + near);
        }
    }
    for below in 0..5_000 {
        same_as_printed(u64::MAX - below);
    }
}

#[test]
fn scattered_sizes_are_shown_as_printed() {
    let mut state: u64 = 0x2545_f491_4f6c_dd1d;
    for _ in 0..60_000 {
        state ^= state << 13;
        state ^= state >> 7;
        state ^= state << 17;
        same_as_printed(state);
        same_as_printed(state >> 8);
        same_as_printed(state >> 20);
        same_as_printed(state >> 33);
        same_as_printed(state >> 44);
    }
}

#[test]
fn tenths_are_those_of_the_quotient_of_doubles() {
    assert_eq!(tenths_of(1500, 1000), 15);
    assert_eq!(tenths_of(1150, 1000), 11);
    assert_eq!(tenths_of(1250, 1000), 12);
    assert_eq!(tenths_of(999_950, 1000), 10_000);
    assert_eq!(tenths_of(u64::MAX, 1_000_000_000), 184_467_440_737);
    assert_eq!(tenths_of(7, 1), 70);
    assert_eq!(tenths_of(0, 1000), 0);
    assert_eq!(tenths_of(49, 1000), 0);
    assert_eq!(tenths_of(51, 1000), 1);
}
