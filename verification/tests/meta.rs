use workshop_downloader::meta::{Config, DownloadEntry};
use workshop_downloader::workshop::{WorkshopItem, WorkshopItemTag};

fn entry(id: &str, title: &str, time_updated: usize) -> DownloadEntry {
    DownloadEntry { title: title.to_string(), publishedfileid: id.to_string(), time_updated }
}

fn item(id: &str, title: &str, time_updated: usize) -> WorkshopItem {
    WorkshopItem {
        publishedfileid: id.to_string(),
        filename: "file.vpk".to_string(),
        file_size: 12,
        file_url: "https://cdn.example/file".to_string(),
        title: title.to_string(),
        description: "About".to_string(),
        time_created: 3,
        time_updated,
        tags: vec![WorkshopItemTag { tag: "Survivors".to_string() }],
    }
}

#[test]
fn a_new_catalog_owns_nothing_and_wants_names() {
    let config = Config::new("/games/left4dead2/addons".to_string());
    assert_eq!(config.gamedir, "/games/left4dead2/addons");
    assert_eq!(config.apikey, None);
    assert!(config.downloads.is_empty());
    assert!(config.include_name);
    assert_eq!(config.get_game_path_str(), Some("/games/left4dead2/addons"));
}

#[test]
fn the_label_holds_title_and_identifier_where_names_are_wanted() {
    let mut config = Config::new(String::new());
    let item = item("1558774205", "Night Sky", 9);
    assert_eq!(config.format_file(&item), "Night Sky = 1558774205");
    config.include_name = false;
    assert_eq!(config.format_file(&item), "1558774205");
}

#[test]
fn an_entry_is_made_from_identifier_title_and_update_time() {
    let entry = DownloadEntry::from_item(&item("77", "Seventy-seven", 1234));
    assert_eq!(entry.publishedfileid, "77");
    assert_eq!(entry.title, "Seventy-seven");
    assert_eq!(entry.time_updated, 1234);
}

#[test]
fn the_first_entry_for_an_identifier_is_found() {
    let mut config = Config::new(String::new());
    config.add_download(entry("1", "one", 10));
    config.add_download(entry("2", "two", 20));
    config.add_download(entry("2", "two again", 30));
    assert_eq!(config.get_download("2").map(|e| e.title.as_str()), Some("two"));
    assert_eq!(config.get_download("1").map(|e| e.time_updated), Some(10));
    assert!(config.get_download("3").is_none());
    assert!(config.get_download("").is_none());
    assert_eq!(config.find_download(&entry("2", "", 0)), Some(1));
    assert_eq!(config.find_download(&entry("1", "", 0)), Some(0));
    assert_eq!(config.find_download(&entry("22", "", 0)), None);
}

#[test]
fn an_update_replaces_the_first_entry_for_the_identifier() {
    let mut config = Config::new(String::new());
    config.add_download(entry("1", "one", 10));
    config.add_download(entry("2", "two", 20));
    config.update_download(entry("2", "two, new", 25));
    assert_eq!(config.downloads.len(), 2);
    assert_eq!(config.downloads[0].title, "one");
    assert_eq!(config.downloads[1].title, "two, new");
    assert_eq!(config.downloads[1].time_updated, 25);
}

#[test]
fn an_update_for_an_identifier_that_is_not_owned_changes_nothing() {
    let mut config = Config::new(String::new());
    config.add_download(entry("1", "one", 10));
    config.update_download(entry("9", "nine", 90));
    assert_eq!(config.downloads.len(), 1);
    assert_eq!(config.downloads[0].publishedfileid, "1");
    assert_eq!(config.downloads[0].title, "one");
    assert_eq!(config.downloads[0].time_updated, 10);
}

#[test]
fn an_added_entry_goes_to_the_end() {
    let mut config = Config::new(String::new());
    config.add_download(entry("b", "B", 2));
    config.add_download(entry("a", "A", 1));
    let ids: Vec<&str> = config.downloads.iter().map(|e| e.publishedfileid.as_str()).collect();
    assert_eq!(ids, vec!["b", "a"]);
}

#[test]
fn a_copy_of_an_item_has_every_field() {
    let original = item("5", "Five", 55);
    let copy = original.clone();
    assert_eq!(copy.publishedfileid, "5");
    assert_eq!(copy.filename, "file.vpk");
    assert_eq!(copy.file_size, 12);
    assert_eq!(copy.file_url, "https://cdn.example/file");
    assert_eq!(copy.title, "Five");
    assert_eq!(copy.description, "About");
    assert_eq!(copy.time_created, 3);
    assert_eq!(copy.time_updated, 55);
    assert_eq!(copy.tags.len(), 1);
    assert_eq!(copy.tags[0].tag, "Survivors");
    let entry = entry("5", "Five", 55).clone();
    assert_eq!(entry.publishedfileid, "5");
    assert_eq!(entry.title, "Five");
    assert_eq!(entry.time_updated, 55);
}
