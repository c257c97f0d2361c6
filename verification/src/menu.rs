//! The decisions of the menus: which menu an option opens, what a choice in
//! a menu leads to, and what a menu shows of each item.

use vstd::prelude::*;

use crate::display::{date_of, date_text};
use crate::meta::{
    entries_of, entry_of, has_entry, lookup, Catalog, Config, DownloadEntry, OwnedEntry,
};
use crate::text::{decimal, decimal_of, same_text, text_of, texts_of};
use crate::util::{addon_id_in, Regexes};
use crate::workshop::{items_of, RemoteItem, WorkshopItem};

verus! {

/// The menus of the program, in the order in which they are listed.
#[derive(Clone, Copy, PartialEq, Eq, Debug)]
pub enum Menu {
    /// The installed addons.
    Manage,
    /// Search and download.
    Search,
    /// Import addons of the workshop directory.
    Import,
    /// Update the owned addons.
    Update,
    /// Leave the program.
    Exit,
}

/// The menu at position `number` of the list; every position past the
/// fourth leaves the program.
pub open spec fn menu_numbered(number: nat) -> Menu {
    if number == 0 {
        Menu::Manage
    } else if number == 1 {
        Menu::Search
    } else if number == 2 {
        Menu::Import
    } else if number == 3 {
        Menu::Update
    } else {
        Menu::Exit
    }
}

/// The position, counted from one, of the menu that the option `option`
/// names, and zero where it names none.
pub open spec fn option_number(option: Seq<char>) -> nat {
    if option == "view"@ || option == "v"@ || option == "1"@ || option == "addons"@ {
        1
    } else if option == "search"@ || option == "s"@ || option == "2"@ {
        2
    } else if option == "import"@ || option == "i"@ || option == "3"@ {
        3
    } else if option == "update"@ || option == "u"@ || option == "4"@ {
        4
    } else if option == "settings"@ || option == "c"@ || option == "5"@ {
        5
    } else {
        0
    }
}

impl Menu {
    /// The menu at position `number` of the list.
    pub fn at(number: usize) -> (menu: Menu)
        ensures
            menu == menu_numbered(number as nat),
    {
        match number {
            0 => Menu::Manage,
            1 => Menu::Search,
            2 => Menu::Import,
            3 => Menu::Update,
            _ => Menu::Exit,
        }
    }

    /// The menu that the option `option` opens, if it names one.
    pub fn for_option(option: &str) -> (menu: Option<Menu>)
        ensures
            menu == if option_number(option@) == 0 {
                None
            } else {
                Some(menu_numbered((option_number(option@) - 1) as nat))
            },
    {
        let number = Menu::number_of(option);
        if number > 0 {
            Some(Menu::at(number - 1))
        } else {
            None
        }
    }

    /// The position, counted from one, of the menu that `option` names, and
    /// zero where it names none.
    pub fn number_of(option: &str) -> (number: usize)
        ensures
            number == option_number(option@),
    {
        if same_text(option, "view") || same_text(option, "v") || same_text(option, "1")
            || same_text(option, "addons") {
            1
        } else if same_text(option, "search") || same_text(option, "s") || same_text(option, "2") {
            2
        } else if same_text(option, "import") || same_text(option, "i") || same_text(option, "3") {
            3
        } else if same_text(option, "update") || same_text(option, "u") || same_text(option, "4") {
            4
        } else if same_text(option, "settings") || same_text(option, "c") || same_text(
            option,
            "5",
        ) {
            5
        } else {
            0
        }
    }
}

/// What the list of installed addons says of an item.
#[derive(Clone, Copy, PartialEq, Eq, Debug)]
pub enum ItemStatus {
    /// The item is owned in an older version than the remote one.
    UpdateAvailable,
    /// The item is owned in the remote version, or a later one.
    UpToDate,
    /// The file is there, but the catalog has no entry for it.
    Unimported,
}

/// The status of `item` against the owned `entries`.
pub open spec fn status_of(entries: Seq<OwnedEntry>, item: RemoteItem) -> ItemStatus {
    match lookup(entries, item.id) {
        Some(entry) => if entry.last_updated_at < item.last_updated_at {
            ItemStatus::UpdateAvailable
        } else {
            ItemStatus::UpToDate
        },
        None => ItemStatus::Unimported,
    }
}

/// The time that the list shows for `item`: that of the owned version, and
/// for an item that is not owned, that of the remote version.
pub open spec fn shown_time(entries: Seq<OwnedEntry>, item: RemoteItem) -> nat {
    match lookup(entries, item.id) {
        Some(entry) => entry.last_updated_at,
        None => item.last_updated_at,
    }
}

/// One line of the list of installed addons.
pub struct ItemRow {
    /// Whether the item is owned, and in which version.
    pub status: ItemStatus,
    /// The time of the version that the line is about.
    pub time_shown: usize,
    /// The same time as a date, where it can be shown as one.
    pub date: Option<String>,
}

/// The line that the list of installed addons shows for `item`.
pub fn item_row(config: &Config, item: &WorkshopItem) -> (row: ItemRow)
    ensures
        row.status == status_of(config@.entries, item@),
        row.time_shown == shown_time(config@.entries, item@),
        text_of(row.date) == date_text(shown_time(config@.entries, item@)),
{
    match config.get_download(item.publishedfileid.as_str()) {
        Some(entry) => {
            let status = if entry.time_updated < item.time_updated {
                ItemStatus::UpdateAvailable
            } else {
                ItemStatus::UpToDate
            };
            ItemRow { status, time_shown: entry.time_updated, date: date_of(entry.time_updated) }
        },
        None => ItemRow {
            status: ItemStatus::Unimported,
            time_shown: item.time_updated,
            date: date_of(item.time_updated),
        },
    }
}

/// What the list of installed addons offers to do.
pub struct Overview {
    /// One line for each item, in order.
    pub rows: Vec<ItemRow>,
    /// Whether some item is owned in an older version than the remote one.
    pub update_available: bool,
    /// Whether some item is not in the catalog.
    pub external_files: bool,
}

/// The list of installed addons for the fetched `details`.
pub fn overview(config: &Config, details: &[WorkshopItem]) -> (list: Overview)
    ensures
        list.rows@.len() == details@.len(),
        forall|i: int|
            0 <= i < details@.len() ==> {
                &&& (#[trigger] list.rows@[i]).status == status_of(config@.entries, details@[i]@)
                &&& list.rows@[i].time_shown == shown_time(config@.entries, details@[i]@)
                &&& text_of(list.rows@[i].date) == date_text(
                    shown_time(config@.entries, details@[i]@),
                )
            },
        list.update_available <==> exists|i: int|
            0 <= i < details@.len() && status_of(config@.entries, (#[trigger] details@[i])@)
                == ItemStatus::UpdateAvailable,
        list.external_files <==> exists|i: int|
            0 <= i < details@.len() && status_of(config@.entries, (#[trigger] details@[i])@)
                == ItemStatus::Unimported,
{
    let mut rows: Vec<ItemRow> = Vec::new();
    let mut update_available = false;
    let mut external_files = false;
    let mut i: usize = 0;
    while i < details.len()
        invariant
            i <= details.len(),
            rows@.len() == i,
            forall|k: int|
                0 <= k < i ==> {
                    &&& (#[trigger] rows@[k]).status == status_of(config@.entries, details@[k]@)
                    &&& rows@[k].time_shown == shown_time(config@.entries, details@[k]@)
                    &&& text_of(rows@[k].date) == date_text(
                        shown_time(config@.entries, details@[k]@),
                    )
                },
            update_available <==> exists|k: int|
                0 <= k < i && status_of(config@.entries, (#[trigger] details@[k])@)
                    == ItemStatus::UpdateAvailable,
            external_files <==> exists|k: int|
                0 <= k < i && status_of(config@.entries, (#[trigger] details@[k])@)
                    == ItemStatus::Unimported,
        decreases details.len() - i,
    {
        let row = item_row(config, &details[i]);
        match row.status {
            ItemStatus::UpdateAvailable => {
                update_available = true;
            },
            ItemStatus::Unimported => {
                external_files = true;
            },
            ItemStatus::UpToDate => {},
        }
        rows.push(row);
        i += 1;
    }
    Overview { rows, update_available, external_files }
}

/// The identifiers that the names of `names` carry, in order; names that
/// carry none are left out.
pub open spec fn ids_among(names: Seq<Seq<char>>) -> Seq<Seq<char>>
    decreases names.len(),
{
    if names.len() == 0 {
        Seq::empty()
    } else {
        let before = ids_among(names.drop_last());
        match addon_id_in(names.last()) {
            Some(id) => before.push(id),
            None => before,
        }
    }
}

/// The names of `names` that carry no identifier, in order.
pub open spec fn unknown_among(names: Seq<Seq<char>>) -> Seq<Seq<char>>
    decreases names.len(),
{
    if names.len() == 0 {
        Seq::empty()
    } else {
        let before = unknown_among(names.drop_last());
        match addon_id_in(names.last()) {
            Some(id) => before,
            None => before.push(names.last()),
        }
    }
}

/// The addon files of a directory, told apart by whether their name carries
/// an identifier.
pub struct KnownFiles {
    /// The identifiers that were found, in the order of the names.
    pub ids: Vec<String>,
    /// The names in which none was found, in their order.
    pub unknown: Vec<String>,
}

/// Tells the file names of `names` apart: for a name that carries an
/// identifier the identifier is kept, every other name is kept as it is.
pub fn split_by_id(names: &[String]) -> (files: KnownFiles)
    ensures
        texts_of(files.ids@) == ids_among(texts_of(names@)),
        texts_of(files.unknown@) == unknown_among(texts_of(names@)),
{
    let ghost all = texts_of(names@);
    let mut ids: Vec<String> = Vec::new();
    let mut unknown: Vec<String> = Vec::new();
    let mut i: usize = 0;
    proof {
        assert(all.take(0) =~= Seq::<Seq<char>>::empty());
        assert(texts_of(ids@) =~= Seq::<Seq<char>>::empty());
        assert(texts_of(unknown@) =~= Seq::<Seq<char>>::empty());
    }
    while i < names.len()
        invariant
            i <= names.len(),
            all == texts_of(names@),
            texts_of(ids@) == ids_among(all.take(i as int)),
            texts_of(unknown@) == unknown_among(all.take(i as int)),
        decreases names.len() - i,
    {
        proof {
            assert(all.take(i + 1).drop_last() =~= all.take(i as int));
            assert(all.take(i + 1).last() == names@[i as int]@);
        }
        match Regexes::get_filename_addonid(names[i].as_str()) {
            Some(id) => {
                let ghost kept = ids@;
                ids.push(id);
                assert(texts_of(ids@) =~= texts_of(kept).push(id@));
            },
            None => {
                let ghost kept = unknown@;
                let name = names[i].clone();
                unknown.push(name);
                assert(texts_of(unknown@) =~= texts_of(kept).push(name@));
            },
        }
        i += 1;
    }
    assert(all.take(names@.len() as int) =~= all);
    KnownFiles { ids, unknown }
}

/// What a choice in the list of installed addons leads to.
#[derive(Clone, Copy, PartialEq, Eq, Debug)]
pub enum ManageAction {
    /// Record the files that are not in the catalog.
    ImportExternal,
    /// There is no file to record.
    NothingToImport,
    /// Open the update menu.
    Update,
    /// No owned addon has an update.
    NothingToUpdate,
    /// The choice names nothing; it is only echoed.
    Echo,
}

/// What the choice `choice` leads to: the first imports, the second updates,
/// each only where there is something to do.
pub open spec fn action_for(choice: nat, update_available: bool, external_files: bool)
    -> ManageAction {
    if choice == 0 {
        if external_files {
            ManageAction::ImportExternal
        } else {
            ManageAction::NothingToImport
        }
    } else if choice == 1 {
        if update_available {
            ManageAction::Update
        } else {
            ManageAction::NothingToUpdate
        }
    } else {
        ManageAction::Echo
    }
}

/// What the choice `choice` in the list of installed addons leads to.
pub fn manage_action(choice: usize, update_available: bool, external_files: bool) -> (action:
    ManageAction)
    ensures
        action == action_for(choice as nat, update_available, external_files),
{
    if choice == 0 {
        if external_files {
            ManageAction::ImportExternal
        } else {
            ManageAction::NothingToImport
        }
    } else if choice == 1 {
        if update_available {
            ManageAction::Update
        } else {
            ManageAction::NothingToUpdate
        }
    } else {
        ManageAction::Echo
    }
}

/// The entries after every item of `items` that has no entry yet was
/// recorded, one after the other.
pub open spec fn with_unlisted(entries: Seq<OwnedEntry>, items: Seq<RemoteItem>) -> Seq<OwnedEntry>
    decreases items.len(),
{
    if items.len() == 0 {
        entries
    } else {
        let before = with_unlisted(entries, items.drop_last());
        if has_entry(before, items.last().id) {
            before
        } else {
            before.push(entry_of(items.last()))
        }
    }
}

/// Records every item of `details` that the catalog has no entry for, in the
/// version that was fetched, and says how many entries were added. Entries
/// that exist are left as they are, and a catalog without duplicates stays
/// without duplicates.
pub fn import_unlisted(config: &mut Config, details: &[WorkshopItem]) -> (added: usize)
    ensures
        final(config)@ == (Catalog {
            entries: with_unlisted(old(config)@.entries, items_of(details@)),
            ..old(config)@
        }),
        final(config)@.entries.len() == old(config)@.entries.len() + added,
        old(config).wf() ==> final(config).wf(),
{
    let ghost items = items_of(details@);
    let mut added: usize = 0;
    let mut i: usize = 0;
    assert(items.take(0) =~= Seq::<RemoteItem>::empty());
    while i < details.len()
        invariant
            i <= details.len(),
            added <= i,
            items == items_of(details@),
            config@ == (Catalog {
                entries: with_unlisted(old(config)@.entries, items.take(i as int)),
                ..old(config)@
            }),
            config@.entries.len() == old(config)@.entries.len() + added,
            old(config).wf() ==> config.wf(),
        decreases details.len() - i,
    {
        proof {
            assert(items.take(i + 1).drop_last() =~= items.take(i as int));
            assert(items.take(i + 1).last() == details@[i as int]@);
        }
        let found = config.get_download(details[i].publishedfileid.as_str()).is_some();
        if !found {
            config.add_download(DownloadEntry::from_item(&details[i]));
            added += 1;
        }
        i += 1;
    }
    assert(items.take(details@.len() as int) =~= items);
    added
}

/// How many items a page of the import menu lists.
pub const MAX_ITEMS_PER_PAGE: usize = 20;

/// How many pages it takes to list `size` items.
pub open spec fn pages_for(size: nat) -> nat {
    ((size + MAX_ITEMS_PER_PAGE - 1) / (MAX_ITEMS_PER_PAGE as int)) as nat
}

/// How many pages it takes to list `size` items: the last page may be
/// short, and nothing takes no page.
pub fn page_count(size: usize) -> (pages: usize)
    ensures
        pages == pages_for(size as nat),
{
    if size % MAX_ITEMS_PER_PAGE == 0 {
        size / MAX_ITEMS_PER_PAGE
    } else {
        size / MAX_ITEMS_PER_PAGE + 1
    }
}

/// The first position of page `page` among `size` items, and the position
/// after its last: a full page where that many items are left, else what is
/// left. A page past the last one is empty.
pub open spec fn page_span(page: nat, size: nat) -> (nat, nat) {
    if page >= pages_for(size) {
        (size, size)
    } else if (page + 1) * MAX_ITEMS_PER_PAGE <= size {
        (page * MAX_ITEMS_PER_PAGE as nat, (page + 1) * MAX_ITEMS_PER_PAGE as nat)
    } else {
        (page * MAX_ITEMS_PER_PAGE as nat, size)
    }
}

/// The first position of page `page`, and the position after its last, among
/// `size` items.
pub fn page_bounds(page: usize, size: usize) -> (bounds: (usize, usize))
    ensures
        bounds.0 == page_span(page as nat, size as nat).0,
        bounds.1 == page_span(page as nat, size as nat).1,
        bounds.0 <= bounds.1 <= size,
        bounds.1 - bounds.0 <= MAX_ITEMS_PER_PAGE,
{
    if page >= page_count(size) {
        return (size, size);
    }
    let start = page * MAX_ITEMS_PER_PAGE;
    let end = if size - start > MAX_ITEMS_PER_PAGE {
        start + MAX_ITEMS_PER_PAGE
    } else {
        size
    };
    (start, end)
}

/// The line under which the import menu lists the item at `position`: its
/// number, counted from one, then its title and its identifier.
pub open spec fn import_label(position: nat, item: RemoteItem) -> Seq<char> {
    decimal_of(position + 1) + seq!['.', ' '] + item.title + seq![' ', '-', ' '] + item.id
}

/// The lines of page `page` of the import menu, one for each item of the
/// page, in order.
pub fn page_labels(details: &[WorkshopItem], page: usize) -> (labels: Vec<String>)
    ensures
        labels@.len() == page_span(page as nat, details@.len()).1 - page_span(
            page as nat,
            details@.len(),
        ).0,
        forall|k: int|
            0 <= k < labels@.len() ==> (#[trigger] labels@[k])@ == import_label(
                (page_span(page as nat, details@.len()).0 + k) as nat,
                details@[page_span(page as nat, details@.len()).0 + k]@,
            ),
{
    let (start, end) = page_bounds(page, details.len());
    let mut labels: Vec<String> = Vec::new();
    let mut i: usize = start;
    proof {
        reveal_strlit(". ");
        reveal_strlit(" - ");
    }
    assert(". "@ =~= seq!['.', ' ']);
    assert(" - "@ =~= seq![' ', '-', ' ']);
    while i < end
        invariant
            start <= i <= end <= details@.len(),
            labels@.len() == i - start,
            ". "@ == seq!['.', ' '],
            " - "@ == seq![' ', '-', ' '],
            forall|k: int|
                0 <= k < labels@.len() ==> (#[trigger] labels@[k])@ == import_label(
                    (start + k) as nat,
                    details@[start + k]@,
                ),
        decreases end - i,
    {
        let item = &details[i];
        let label = decimal((i + 1) as u128).concat(". ").concat(item.title.as_str()).concat(
            " - ",
        ).concat(item.publishedfileid.as_str());
        labels.push(label);
        i += 1;
    }
    labels
}

/// The entries that record the items of `details` at the `positions`, in the
/// order of `positions`.
pub fn entries_at(details: &[WorkshopItem], positions: &[usize]) -> (entries: Vec<DownloadEntry>)
    requires
        forall|k: int| 0 <= k < positions@.len() ==> #[trigger] positions@[k] < details@.len(),
    ensures
        entries_of(entries@) == positions@.map_values(
            |p: usize| entry_of(details@[p as int]@),
        ),
{
    let mut entries: Vec<DownloadEntry> = Vec::new();
    let mut i: usize = 0;
    while i < positions.len()
        invariant
            i <= positions.len(),
            entries@.len() == i,
            forall|k: int| 0 <= k < positions@.len() ==> #[trigger] positions@[k] < details@.len(),
            forall|k: int|
                0 <= k < i ==> (#[trigger] entries@[k])@ == entry_of(
                    details@[positions@[k] as int]@,
                ),
        decreases positions.len() - i,
    {
        entries.push(DownloadEntry::from_item(&details[positions[i]]));
        i += 1;
    }
    assert(entries_of(entries@) =~= positions@.map_values(
        |p: usize| entry_of(details@[p as int]@),
    ));
    entries
}

/// The sizes of `items`, added up.
pub open spec fn size_sum(items: Seq<RemoteItem>) -> nat
    decreases items.len(),
{
    if items.len() == 0 {
        0
    } else {
        size_sum(items.drop_last()) + items.last().byte_size
    }
}

/// The size of all of `items` together; nothing where it is more than can be
/// counted.
pub fn total_size(items: &[WorkshopItem]) -> (total: Option<usize>)
    ensures
        total == if size_sum(items_of(items@)) <= usize::MAX {
            Some(size_sum(items_of(items@)) as usize)
        } else {
            None
        },
{
    let ghost all = items_of(items@);
    let mut total: usize = 0;
    let mut i: usize = 0;
    assert(all.take(0) =~= Seq::<RemoteItem>::empty());
    while i < items.len()
        invariant
            i <= items.len(),
            all == items_of(items@),
            total == size_sum(all.take(i as int)),
        decreases items.len() - i,
    {
        proof {
            assert(all.take(i + 1).drop_last() =~= all.take(i as int));
            assert(all.take(i + 1).last() == items@[i as int]@);
        }
        if items[i].file_size > usize::MAX - total {
            proof {
                lemma_size_sum_grows(all, i + 1);
            }
            return None;
        }
        total = total + items[i].file_size;
        i += 1;
    }
    assert(all.take(items@.len() as int) =~= all);
    Some(total)
}

/// The sum over a part of a list is no more than the sum over all of it.
proof fn lemma_size_sum_grows(items: Seq<RemoteItem>, n: int)
    requires
        0 <= n <= items.len(),
    ensures
        size_sum(items.take(n)) <= size_sum(items),
    decreases items.len() - n,
{
    if n == items.len() {
        assert(items.take(n) =~= items);
    } else {
        lemma_size_sum_grows(items, n + 1);
        assert(items.take(n + 1).drop_last() =~= items.take(n));
    }
}

/// What a choice at a collection or at a single addon leads to.
#[derive(Clone, Copy, PartialEq, Eq, Debug)]
pub enum FoundAction {
    /// Download what was found.
    Download,
    /// Show it in the browser.
    OpenInBrowser,
    /// Go back to the main menu.
    Return,
}

/// What the choice `choice` leads to: the first downloads, the second opens
/// the browser, every other goes back.
pub open spec fn found_action_for(choice: nat) -> FoundAction {
    if choice == 0 {
        FoundAction::Download
    } else if choice == 1 {
        FoundAction::OpenInBrowser
    } else {
        FoundAction::Return
    }
}

/// What the choice `choice` at a collection or at a single addon leads to.
pub fn found_action(choice: usize) -> (action: FoundAction)
    ensures
        action == found_action_for(choice as nat),
{
    match choice {
        0 => FoundAction::Download,
        1 => FoundAction::OpenInBrowser,
        _ => FoundAction::Return,
    }
}

/// Where the search menu goes after an item was looked at.
#[derive(Clone, Copy, PartialEq, Eq, Debug)]
pub enum ItemResult {
    /// Ask for a new search.
    SearchAnother,
    /// Show the results of the last search again.
    SearchSame,
    /// Go back to the main menu.
    Leave,
}

/// Where the option `option` of an item leads: the first two (download, open
/// in the browser) end the search, the fourth shows the results again, and
/// every other starts a new search.
pub open spec fn result_for(option: nat) -> ItemResult {
    if option == 0 || option == 1 {
        ItemResult::Leave
    } else if option == 3 {
        ItemResult::SearchSame
    } else {
        ItemResult::SearchAnother
    }
}

/// Where the option `option` of an item leads.
pub fn item_result(option: usize) -> (result: ItemResult)
    ensures
        result == result_for(option as nat),
{
    match option {
        0 => ItemResult::Leave,
        1 => ItemResult::Leave,
        3 => ItemResult::SearchSame,
        _ => ItemResult::SearchAnother,
    }
}

/// The item that was picked from a list of `count` results that ends with a
/// line for leaving: the position itself, and nothing for the last line.
pub fn chosen_item(index: usize, count: usize) -> (item: Option<usize>)
    requires
        index <= count,
    ensures
        item == if index == count {
            None
        } else {
            Some(index)
        },
{
    if index == count {
        None
    } else {
        Some(index)
    }
}

} // verus!
