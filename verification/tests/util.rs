use workshop_downloader::util::{workshop_page, ByteUnit, Regexes};

fn some(text: &str) -> Option<String> {
    Some(text.to_string())
}

#[test]
fn the_identifier_is_the_first_run_of_seven_or_more_digits() {
    assert_eq!(Regexes::get_filename_addonid("1558774205"), some("1558774205"));
    assert_eq!(Regexes::get_filename_addonid("1558774205.vpk"), some("1558774205"));
    assert_eq!(Regexes::get_filename_addonid("Night Sky = 1558774205"), some("1558774205"));
    assert_eq!(Regexes::get_filename_addonid("a1234567b7654321"), some("1234567"));
    assert_eq!(Regexes::get_filename_addonid("12 3456789 0000000"), some("3456789"));
}

#[test]
fn a_name_without_seven_digits_in_a_row_carries_no_identifier() {
    assert_eq!(Regexes::get_filename_addonid(""), None);
    assert_eq!(Regexes::get_filename_addonid("campaign.vpk"), None);
    assert_eq!(Regexes::get_filename_addonid("123456"), None);
    assert_eq!(Regexes::get_filename_addonid("123456-7890123"), some("7890123"));
    assert_eq!(Regexes::get_filename_addonid("123-456-789"), None);
}

#[test]
fn the_identifier_of_a_workshop_link_is_read() {
    assert_eq!(
        Regexes::get_id_from_workshop_url(
            "https://steamcommunity.com/sharedfiles/filedetails/?id=1558774205"
        ),
        some("1558774205")
    );
    assert_eq!(
        Regexes::get_id_from_workshop_url("http://steamcommunity.com/workshop/filedetails/?id=12"),
        some("12")
    );
    assert_eq!(
        Regexes::get_id_from_workshop_url(
            "see https://steamcommunity.com/workshop/filedetails/?id=987&searchtext=sky"
        ),
        some("987")
    );
}

#[test]
fn a_text_that_is_no_workshop_link_has_no_identifier() {
    assert_eq!(Regexes::get_id_from_workshop_url("night sky"), None);
    assert_eq!(Regexes::get_id_from_workshop_url("1558774205"), None);
    assert_eq!(
        Regexes::get_id_from_workshop_url("https://steamcommunity.com/sharedfiles/filedetails/?id="),
        None
    );
    assert_eq!(
        Regexes::get_id_from_workshop_url("https://steamcommunity.com/app/filedetails/?id=5"),
        None
    );
    assert_eq!(
        Regexes::get_id_from_workshop_url("https://steamcommunity.com/workshop/filedetails/id=5"),
        None
    );
}

#[test]
fn the_identifier_is_the_last_of_three_groups() {
    let groups = vec![some("whole"), some("workshop"), some("42")];
    assert_eq!(Regexes::id_from_groups(&groups), some("42"));
    assert_eq!(Regexes::id_from_groups(&vec![some("whole"), some("workshop"), None]), None);
    assert_eq!(Regexes::id_from_groups(&vec![some("whole"), some("42")]), None);
    assert_eq!(Regexes::id_from_groups(&vec![some("a"), some("b"), some("c"), some("d")]), None);
    assert_eq!(Regexes::id_from_groups(&Vec::new()), None);
}

#[test]
fn a_size_is_shown_in_the_largest_unit_that_it_exceeds() {
    assert_eq!(ByteUnit::of(0), ByteUnit::Bytes);
    assert_eq!(ByteUnit::of(999), ByteUnit::Bytes);
    assert_eq!(ByteUnit::of(1_000), ByteUnit::Bytes);
    assert_eq!(ByteUnit::of(1_001), ByteUnit::Kilobytes);
    assert_eq!(ByteUnit::of(1_000_000), ByteUnit::Kilobytes);
    assert_eq!(ByteUnit::of(1_000_001), ByteUnit::Megabytes);
    assert_eq!(ByteUnit::of(1_000_000_000), ByteUnit::Megabytes);
    assert_eq!(ByteUnit::of(1_000_000_001), ByteUnit::Gigabytes);
    assert_eq!(ByteUnit::of(u64::MAX), ByteUnit::Gigabytes);
}

#[test]
fn each_unit_has_its_size_and_its_abbreviation() {
    assert_eq!((ByteUnit::Bytes.size(), ByteUnit::Bytes.suffix()), (1, "B"));
    assert_eq!((ByteUnit::Kilobytes.size(), ByteUnit::Kilobytes.suffix()), (1_000, "KB"));
    assert_eq!((ByteUnit::Megabytes.size(), ByteUnit::Megabytes.suffix()), (1_000_000, "MB"));
    assert_eq!((ByteUnit::Gigabytes.size(), ByteUnit::Gigabytes.suffix()), (1_000_000_000, "GB"));
}

#[test]
fn the_page_of_an_item_is_linked_by_its_identifier() {
    assert_eq!(
        workshop_page("1558774205"),
        "https://steamcommunity.com/sharedfiles/filedetails/?id=1558774205"
    );
    assert_eq!(workshop_page(""), "https://steamcommunity.com/sharedfiles/filedetails/?id=");
}

#[test]
fn the_identifier_is_read_back_from_the_link_to_a_page() {
    for id in ["1", "1558774205", "000", "18446744073709551616"] {
        assert_eq!(Regexes::get_id_from_workshop_url(&workshop_page(id)), Some(id.to_string()));
    }
    assert_eq!(Regexes::get_id_from_workshop_url(&workshop_page("")), None);
    assert_eq!(Regexes::get_id_from_workshop_url(&workshop_page("12ab")), Some("12".to_string()));
}
