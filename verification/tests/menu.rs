use workshop_downloader::menu::{
    chosen_item, entries_at, found_action, FoundAction, import_unlisted, item_result, item_row, manage_action, overview,
    page_bounds, page_count, page_labels, split_by_id, total_size, ItemResult, ItemStatus,
    ManageAction, Menu, MAX_ITEMS_PER_PAGE,
};
use workshop_downloader::meta::{Config, DownloadEntry};
use workshop_downloader::workshop::WorkshopItem;

fn item(id: &str, title: &str, time_updated: usize) -> WorkshopItem {
    WorkshopItem {
        publishedfileid: id.to_string(),
        filename: format!("{}.vpk", id),
        file_size: 2048,
        file_url: format!("https://cdn.example/{}", id),
        title: title.to_string(),
        description: String::new(),
        time_created: 1,
        time_updated,
        tags: Vec::new(),
    }
}

fn numbered(count: usize) -> Vec<WorkshopItem> {
    (0..count).map(|i| item(&format!("{}", 500 + i), &format!("Item {}", i), 10 + i)).collect()
}

fn catalog() -> Config {
    let mut config = Config::new("/games/addons".to_string());
    config.add_download(DownloadEntry {
        title: "Owned, old".to_string(),
        publishedfileid: "1".to_string(),
        time_updated: 86_400,
    });
    config.add_download(DownloadEntry {
        title: "Owned, current".to_string(),
        publishedfileid: "2".to_string(),
        time_updated: 172_800,
    });
    config
}

#[test]
fn an_option_opens_the_menu_that_it_names() {
    for name in ["view", "v", "1", "addons"] {
        assert_eq!(Menu::number_of(name), 1);
        assert_eq!(Menu::for_option(name), Some(Menu::Manage));
    }
    for name in ["search", "s", "2"] {
        assert_eq!(Menu::number_of(name), 2);
        assert_eq!(Menu::for_option(name), Some(Menu::Search));
    }
    for name in ["import", "i", "3"] {
        assert_eq!(Menu::number_of(name), 3);
        assert_eq!(Menu::for_option(name), Some(Menu::Import));
    }
    for name in ["update", "u", "4"] {
        assert_eq!(Menu::number_of(name), 4);
        assert_eq!(Menu::for_option(name), Some(Menu::Update));
    }
    for name in ["settings", "c", "5"] {
        assert_eq!(Menu::number_of(name), 5);
        assert_eq!(Menu::for_option(name), Some(Menu::Exit));
    }
}

#[test]
fn an_unknown_option_opens_no_menu() {
    for name in ["", "0", "6", "View", "updates", " update", "exit"] {
        assert_eq!(Menu::number_of(name), 0);
        assert_eq!(Menu::for_option(name), None);
    }
}

#[test]
fn the_menus_are_numbered_in_the_order_of_the_list() {
    assert_eq!(Menu::at(0), Menu::Manage);
    assert_eq!(Menu::at(1), Menu::Search);
    assert_eq!(Menu::at(2), Menu::Import);
    assert_eq!(Menu::at(3), Menu::Update);
    assert_eq!(Menu::at(4), Menu::Exit);
    assert_eq!(Menu::at(5), Menu::Exit);
    assert_eq!(Menu::at(usize::MAX), Menu::Exit);
}

#[test]
fn a_line_tells_whether_an_item_is_owned_and_current() {
    let config = catalog();
    let old = item_row(&config, &item("1", "One", 86_401));
    assert_eq!(old.status, ItemStatus::UpdateAvailable);
    assert_eq!(old.time_shown, 86_400);
    assert_eq!(old.date, Some("1970/01/02".to_string()));
    let current = item_row(&config, &item("2", "Two", 172_800));
    assert_eq!(current.status, ItemStatus::UpToDate);
    assert_eq!(current.time_shown, 172_800);
    assert_eq!(current.date, Some("1970/01/03".to_string()));
    let ahead = item_row(&config, &item("2", "Two", 5));
    assert_eq!(ahead.status, ItemStatus::UpToDate);
    assert_eq!(ahead.time_shown, 172_800);
    let external = item_row(&config, &item("3", "Three", 1_431_648_000));
    assert_eq!(external.status, ItemStatus::Unimported);
    assert_eq!(external.time_shown, 1_431_648_000);
    assert_eq!(external.date, Some("2015/05/15".to_string()));
}

#[test]
fn the_list_knows_whether_there_is_something_to_update_or_to_import() {
    let config = catalog();
    let all = overview(
        &config,
        &[item("2", "Two", 172_800), item("1", "One", 90_000), item("3", "Three", 7)],
    );
    let statuses: Vec<ItemStatus> = all.rows.iter().map(|row| row.status).collect();
    assert_eq!(
        statuses,
        vec![ItemStatus::UpToDate, ItemStatus::UpdateAvailable, ItemStatus::Unimported]
    );
    assert!(all.update_available);
    assert!(all.external_files);
    let current = overview(&config, &[item("2", "Two", 172_800), item("1", "One", 86_400)]);
    assert!(!current.update_available);
    assert!(!current.external_files);
    let external = overview(&config, &[item("9", "Nine", 1)]);
    assert!(!external.update_available);
    assert!(external.external_files);
    let nothing = overview(&config, &[]);
    assert!(nothing.rows.is_empty());
    assert!(!nothing.update_available && !nothing.external_files);
}

#[test]
fn a_choice_acts_only_where_there_is_something_to_do() {
    assert_eq!(manage_action(0, false, true), ManageAction::ImportExternal);
    assert_eq!(manage_action(0, true, true), ManageAction::ImportExternal);
    assert_eq!(manage_action(0, true, false), ManageAction::NothingToImport);
    assert_eq!(manage_action(0, false, false), ManageAction::NothingToImport);
    assert_eq!(manage_action(1, true, false), ManageAction::Update);
    assert_eq!(manage_action(1, true, true), ManageAction::Update);
    assert_eq!(manage_action(1, false, true), ManageAction::NothingToUpdate);
    assert_eq!(manage_action(2, true, true), ManageAction::Echo);
    assert_eq!(manage_action(usize::MAX, true, true), ManageAction::Echo);
}

#[test]
fn items_without_an_entry_are_recorded_once_each() {
    let mut config = catalog();
    let added = import_unlisted(
        &mut config,
        &[
            item("3", "Three", 30),
            item("1", "One, newer", 999_999),
            item("4", "Four", 40),
            item("3", "Three again", 31),
        ],
    );
    assert_eq!(added, 2);
    let rows: Vec<(&str, &str, usize)> = config
        .downloads
        .iter()
        .map(|e| (e.publishedfileid.as_str(), e.title.as_str(), e.time_updated))
        .collect();
    assert_eq!(
        rows,
        vec![
            ("1", "Owned, old", 86_400),
            ("2", "Owned, current", 172_800),
            ("3", "Three", 30),
            ("4", "Four", 40)
        ]
    );
    assert_eq!(import_unlisted(&mut config, &[item("4", "Four", 41)]), 0);
    assert_eq!(import_unlisted(&mut config, &[]), 0);
    assert_eq!(config.downloads.len(), 4);
}

#[test]
fn file_names_are_told_apart_by_their_identifier() {
    let names: Vec<String> =
        ["1558774205", "campaign", "Night Sky = 2000000001", "123456", "0000000"]
            .iter()
            .map(|name| name.to_string())
            .collect();
    let files = split_by_id(&names);
    assert_eq!(files.ids, vec!["1558774205", "2000000001", "0000000"]);
    assert_eq!(files.unknown, vec!["campaign", "123456"]);
    let none = split_by_id(&[]);
    assert!(none.ids.is_empty() && none.unknown.is_empty());
}

#[test]
fn a_page_lists_twenty_items() {
    assert_eq!(MAX_ITEMS_PER_PAGE, 20);
    assert_eq!(page_count(0), 0);
    assert_eq!(page_count(1), 1);
    assert_eq!(page_count(19), 1);
    assert_eq!(page_count(20), 1);
    assert_eq!(page_count(21), 2);
    assert_eq!(page_count(40), 2);
    assert_eq!(page_count(41), 3);
    assert_eq!(page_count(usize::MAX), usize::MAX / 20 + 1);
}

#[test]
fn the_last_page_may_be_short() {
    assert_eq!(page_bounds(0, 45), (0, 20));
    assert_eq!(page_bounds(1, 45), (20, 40));
    assert_eq!(page_bounds(2, 45), (40, 45));
    assert_eq!(page_bounds(3, 45), (45, 45));
    assert_eq!(page_bounds(0, 20), (0, 20));
    assert_eq!(page_bounds(1, 20), (20, 20));
    assert_eq!(page_bounds(0, 0), (0, 0));
    assert_eq!(page_bounds(usize::MAX, 45), (45, 45));
}

#[test]
fn the_lines_of_a_page_are_numbered_through_all_pages() {
    let details = numbered(23);
    let first = page_labels(&details, 0);
    assert_eq!(first.len(), 20);
    assert_eq!(first[0], "1. Item 0 - 500");
    assert_eq!(first[9], "10. Item 9 - 509");
    assert_eq!(first[19], "20. Item 19 - 519");
    let second = page_labels(&details, 1);
    assert_eq!(second, vec!["21. Item 20 - 520", "22. Item 21 - 521", "23. Item 22 - 522"]);
    assert!(page_labels(&details, 2).is_empty());
    assert!(page_labels(&[], 0).is_empty());
}

#[test]
fn entries_are_made_for_the_items_at_the_chosen_positions() {
    let details = numbered(5);
    let entries = entries_at(&details, &[3, 0, 3]);
    let rows: Vec<(&str, &str, usize)> = entries
        .iter()
        .map(|e| (e.publishedfileid.as_str(), e.title.as_str(), e.time_updated))
        .collect();
    assert_eq!(rows, vec![("503", "Item 3", 13), ("500", "Item 0", 10), ("503", "Item 3", 13)]);
    assert!(entries_at(&details, &[]).is_empty());
}

#[test]
fn the_options_of_an_item_lead_on_or_back() {
    assert_eq!(item_result(0), ItemResult::Leave);
    assert_eq!(item_result(1), ItemResult::Leave);
    assert_eq!(item_result(2), ItemResult::SearchAnother);
    assert_eq!(item_result(3), ItemResult::SearchSame);
    assert_eq!(item_result(4), ItemResult::SearchAnother);
}

#[test]
fn the_line_after_the_results_picks_nothing() {
    assert_eq!(chosen_item(0, 3), Some(0));
    assert_eq!(chosen_item(2, 3), Some(2));
    assert_eq!(chosen_item(3, 3), None);
    assert_eq!(chosen_item(0, 0), None);
}

#[test]
fn the_sizes_of_the_items_are_added_up() {
    let mut items = numbered(3);
    assert_eq!(total_size(&items), Some(3 * 2048));
    assert_eq!(total_size(&[]), Some(0));
    items[1].file_size = usize::MAX - 4096;
    assert_eq!(total_size(&items), Some(usize::MAX));
    items[2].file_size = 2049;
    assert_eq!(total_size(&items), None);
}

#[test]
fn a_choice_at_a_found_addon_downloads_opens_or_goes_back() {
    assert_eq!(found_action(0), FoundAction::Download);
    assert_eq!(found_action(1), FoundAction::OpenInBrowser);
    assert_eq!(found_action(2), FoundAction::Return);
    assert_eq!(found_action(3), FoundAction::Return);
    assert_eq!(found_action(usize::MAX), FoundAction::Return);
}
