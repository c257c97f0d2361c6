use workshop_downloader::meta::{Config, DownloadEntry};
use workshop_downloader::staleness::{
    compute_outdated, compute_outdated_by_id, is_aligned, stale_notices, update_request,
};
use workshop_downloader::workshop::WorkshopItem;

fn owned(id: &str, time_updated: usize) -> DownloadEntry {
    DownloadEntry { title: format!("Owned {}", id), publishedfileid: id.to_string(), time_updated }
}

fn remote(id: &str, time_updated: usize) -> WorkshopItem {
    WorkshopItem {
        publishedfileid: id.to_string(),
        filename: format!("{}.vpk", id),
        file_size: 1000,
        file_url: format!("https://cdn.example/{}", id),
        title: format!("Remote {}", id),
        description: String::new(),
        time_created: 1,
        time_updated,
        tags: Vec::new(),
    }
}

fn ids(items: &[WorkshopItem]) -> Vec<String> {
    items.iter().map(|item| item.publishedfileid.clone()).collect()
}

#[test]
fn newer_remote_item_is_outdated_and_equal_timestamp_is_not() {
    let owned = vec![owned("A", 100), owned("B", 200)];
    let remote = vec![remote("A", 100), remote("B", 250)];
    let stale = compute_outdated(&owned, &remote);
    assert_eq!(stale.len(), 1);
    assert_eq!(stale[0].publishedfileid, "B");
    assert_eq!(stale[0].time_updated, 250);
    assert_eq!(stale[0].title, "Remote B");
    assert_eq!(stale[0].file_url, "https://cdn.example/B");
}

#[test]
fn nothing_owned_gives_nothing_outdated() {
    let remote = vec![remote("A", 100), remote("B", 250)];
    assert!(compute_outdated(&[], &remote).is_empty());
    assert!(compute_outdated(&[], &[]).is_empty());
}

#[test]
fn outdated_items_keep_the_order_of_the_fetch() {
    let owned = vec![owned("A", 10), owned("B", 10), owned("C", 10), owned("D", 10), owned("E", 10)];
    let remote =
        vec![remote("A", 11), remote("B", 10), remote("C", 99), remote("D", 9), remote("E", 12)];
    assert_eq!(ids(&compute_outdated(&owned, &remote)), vec!["A", "C", "E"]);
}

#[test]
fn a_remote_item_one_second_newer_is_outdated() {
    let stale = compute_outdated(&[owned("A", 100)], &[remote("A", 101)]);
    assert_eq!(ids(&stale), vec!["A"]);
}

#[test]
fn an_older_remote_item_is_not_outdated() {
    assert!(compute_outdated(&[owned("A", 100)], &[remote("A", 99)]).is_empty());
    assert!(compute_outdated(&[owned("A", 0)], &[remote("A", 0)]).is_empty());
}

#[test]
fn positions_that_only_one_list_has_are_left_out() {
    let owned = vec![owned("A", 1), owned("B", 1), owned("C", 1)];
    let shorter = vec![remote("A", 2), remote("B", 1)];
    assert_eq!(ids(&compute_outdated(&owned, &shorter)), vec!["A"]);
    let longer = vec![remote("A", 1), remote("B", 2), remote("C", 3), remote("D", 4)];
    assert_eq!(ids(&compute_outdated(&owned, &longer)), vec!["B", "C"]);
}

#[test]
fn items_are_matched_by_position_not_by_identifier() {
    let owned = vec![owned("A", 100), owned("B", 300)];
    let swapped = vec![remote("B", 200), remote("A", 200)];
    assert_eq!(ids(&compute_outdated(&owned, &swapped)), vec!["B"]);
}

#[test]
fn the_request_names_every_owned_identifier_in_order() {
    let owned = vec![owned("30", 1), owned("10", 2), owned("20", 3)];
    assert_eq!(update_request(&owned), Some(vec!["30".to_string(), "10".to_string(), "20".to_string()]));
}

#[test]
fn nothing_owned_makes_no_request() {
    assert_eq!(update_request(&[]), None);
}

#[test]
fn notices_tell_the_owned_title_and_how_far_it_is_behind() {
    let owned = vec![owned("A", 100), owned("B", 200), owned("C", 1_000)];
    let remote = vec![remote("A", 100), remote("B", 250), remote("C", 1_000 + 172_800)];
    let notices = stale_notices(&owned, &remote);
    assert_eq!(notices.len(), 2);
    assert_eq!(notices[0].title, "Owned B");
    assert_eq!(notices[0].behind_by, 50);
    assert_eq!(notices[0].age, "50 seconds");
    assert_eq!(notices[1].title, "Owned C");
    assert_eq!(notices[1].behind_by, 172_800);
    assert_eq!(notices[1].age, "2 days");
}

#[test]
fn notices_and_outdated_items_go_together() {
    let owned = vec![owned("A", 5), owned("B", 5), owned("C", 5)];
    let remote = vec![remote("A", 6), remote("B", 5), remote("C", 65)];
    let stale = compute_outdated(&owned, &remote);
    let notices = stale_notices(&owned, &remote);
    assert_eq!(stale.len(), notices.len());
    assert_eq!(notices[0].age, "1 second");
    assert_eq!(notices[1].age, "60 seconds");
    assert!(stale_notices(&[], &remote).is_empty());
}

#[test]
fn fetched_items_answer_the_owned_entries_one_for_one() {
    let owned = vec![owned("A", 1), owned("B", 2)];
    assert!(is_aligned(&owned, &[remote("A", 5), remote("B", 1)]));
    assert!(!is_aligned(&owned, &[remote("B", 5), remote("A", 1)]));
    assert!(!is_aligned(&owned, &[remote("A", 5)]));
    assert!(!is_aligned(&owned, &[remote("A", 5), remote("B", 1), remote("C", 1)]));
    assert!(!is_aligned(&owned, &[remote("A", 5), remote("b", 1)]));
    assert!(is_aligned(&[], &[]));
    assert!(!is_aligned(&[], &[remote("A", 5)]));
}

#[test]
fn matching_by_identifier_tolerates_items_left_out_added_or_moved() {
    let mut catalog = Config::new(String::new());
    catalog.add_download(owned("A", 100));
    catalog.add_download(owned("B", 200));
    catalog.add_download(owned("C", 300));
    let fetched =
        vec![remote("C", 301), remote("X", 999), remote("A", 100), remote("B", 250), remote("C", 1)];
    assert_eq!(ids(&compute_outdated_by_id(&catalog, &fetched)), vec!["C", "B"]);
    assert!(compute_outdated_by_id(&catalog, &[]).is_empty());
    assert!(compute_outdated_by_id(&Config::new(String::new()), &fetched).is_empty());
}

#[test]
fn both_ways_of_matching_agree_on_an_answer_in_order() {
    let entries = vec![owned("A", 10), owned("B", 20), owned("C", 30), owned("D", 40)];
    let fetched = vec![remote("A", 11), remote("B", 20), remote("C", 29), remote("D", 41)];
    let mut catalog = Config::new(String::new());
    for entry in entries.iter() {
        catalog.add_download(entry.clone());
    }
    assert_eq!(
        ids(&compute_outdated_by_id(&catalog, &fetched)),
        ids(&compute_outdated(&entries, &fetched))
    );
    assert_eq!(ids(&compute_outdated(&entries, &fetched)), vec!["A", "D"]);
}
