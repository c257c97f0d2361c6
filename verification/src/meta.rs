//! The catalog of owned addons: the one piece of state that is kept between
//! runs.

use vstd::prelude::*;
use vstd::string::StringExecFns;

use crate::text::same_text;
use crate::workshop::{RemoteItem, WorkshopItem};

verus! {

/// The mathematical value of a catalog entry: the claim that the addon `id`
/// is installed in the version that was current at `last_updated_at`.
pub ghost struct OwnedEntry {
    pub id: Seq<char>,
    pub title: Seq<char>,
    pub last_updated_at: nat,
}

/// The entry that records a successful download of `item`.
pub open spec fn entry_of(item: RemoteItem) -> OwnedEntry {
    OwnedEntry { id: item.id, title: item.title, last_updated_at: item.last_updated_at }
}

/// The position of the first entry for `id`, or `entries.len()` where there
/// is none.
pub open spec fn position_of(entries: Seq<OwnedEntry>, id: Seq<char>) -> nat
    decreases entries.len(),
{
    if entries.len() == 0 {
        0
    } else if entries[0].id == id {
        0
    } else {
        1 + position_of(entries.drop_first(), id)
    }
}

/// Whether some entry is recorded for `id`.
pub open spec fn has_entry(entries: Seq<OwnedEntry>, id: Seq<char>) -> bool {
    position_of(entries, id) < entries.len()
}

/// No identifier is recorded twice.
pub open spec fn unique_ids(entries: Seq<OwnedEntry>) -> bool {
    forall|i: int, j: int|
        0 <= i < j < entries.len() ==> (#[trigger] entries[i]).id != (#[trigger] entries[j]).id
}

/// Insert-or-replace by identifier: the first entry for the identifier of
/// `entry` is replaced where it stands; where there is none, `entry` is
/// appended.
pub open spec fn upsert(entries: Seq<OwnedEntry>, entry: OwnedEntry) -> Seq<OwnedEntry> {
    if has_entry(entries, entry.id) {
        entries.update(position_of(entries, entry.id) as int, entry)
    } else {
        entries.push(entry)
    }
}

/// `position_of` finds the first entry for `id`: it carries `id`, and no
/// entry before it does; where it is `entries.len()`, no entry carries `id`.
pub proof fn lemma_position_of(entries: Seq<OwnedEntry>, id: Seq<char>)
    ensures
        position_of(entries, id) <= entries.len(),
        has_entry(entries, id) ==> entries[position_of(entries, id) as int].id == id,
        forall|k: int| 0 <= k < position_of(entries, id) ==> (#[trigger] entries[k]).id != id,
    decreases entries.len(),
{
    if entries.len() > 0 && entries[0].id != id {
        let rest = entries.drop_first();
        lemma_position_of(rest, id);
        assert forall|k: int| 0 <= k < position_of(entries, id) implies (#[trigger] entries[k]).id
            != id by {
            if k > 0 {
                assert(entries[k] == rest[k - 1]);
            }
        }
    }
}

/// Whatever index is the first to carry `id` is `position_of`.
pub proof fn lemma_position_is_first(entries: Seq<OwnedEntry>, id: Seq<char>, i: int)
    requires
        0 <= i <= entries.len(),
        forall|k: int| 0 <= k < i ==> (#[trigger] entries[k]).id != id,
        i < entries.len() ==> entries[i].id == id,
    ensures
        position_of(entries, id) == i,
{
    lemma_position_of(entries, id);
    let p = position_of(entries, id) as int;
    if p < i {
        assert(entries[p].id == id);
    }
}

/// The entry recorded for `id`: the first one that carries it.
pub open spec fn lookup(entries: Seq<OwnedEntry>, id: Seq<char>) -> Option<OwnedEntry> {
    if has_entry(entries, id) {
        Some(entries[position_of(entries, id) as int])
    } else {
        None
    }
}

/// After an insert-or-replace the identifier of `entry` is recorded with
/// `entry`, and every other identifier with what was recorded before.
pub proof fn lemma_lookup_upsert(entries: Seq<OwnedEntry>, entry: OwnedEntry, id: Seq<char>)
    ensures
        lookup(upsert(entries, entry), id) == if id == entry.id {
            Some(entry)
        } else {
            lookup(entries, id)
        },
{
    lemma_position_of(entries, id);
    lemma_position_of(entries, entry.id);
    let after = upsert(entries, entry);
    let p = position_of(entries, id) as int;
    if has_entry(entries, entry.id) {
        let q = position_of(entries, entry.id) as int;
        if id == entry.id {
            lemma_position_is_first(after, id, q);
        } else {
            assert forall|k: int| 0 <= k < p implies (#[trigger] after[k]).id != id by {
                assert(entries[k].id != id);
            }
            lemma_position_is_first(after, id, p);
        }
    } else {
        if id == entry.id {
            assert forall|k: int| 0 <= k < entries.len() implies (#[trigger] after[k]).id
                != id by {
                assert(entries[k].id != id);
            }
            lemma_position_is_first(after, id, entries.len() as int);
        } else {
            let i = if p < entries.len() {
                p
            } else {
                after.len() as int
            };
            assert forall|k: int| 0 <= k < i implies (#[trigger] after[k]).id != id by {
                if k < entries.len() {
                    assert(entries[k].id != id);
                }
            }
            lemma_position_is_first(after, id, i);
        }
    }
}

/// An addon that the installation owns, with the version it was obtained in.
pub struct DownloadEntry {
    /// The title of the addon when it was obtained; kept for display only.
    pub title: String,
    /// The identifier of the addon: the key of the catalog.
    pub publishedfileid: String,
    /// When the owned version was last updated, in seconds since the epoch.
    pub time_updated: usize,
}

impl View for DownloadEntry {
    type V = OwnedEntry;

    open spec fn view(&self) -> OwnedEntry {
        OwnedEntry {
            id: self.publishedfileid@,
            title: self.title@,
            last_updated_at: self.time_updated as nat,
        }
    }
}

impl Clone for DownloadEntry {
    fn clone(&self) -> (res: Self)
        ensures
            res@ == self@,
    {
        DownloadEntry {
            title: self.title.clone(),
            publishedfileid: self.publishedfileid.clone(),
            time_updated: self.time_updated,
        }
    }
}

impl DownloadEntry {
    /// The entry that records `item` as owned in its current version.
    pub fn from_item(item: &WorkshopItem) -> (entry: DownloadEntry)
        ensures
            entry@ == entry_of(item@),
    {
        DownloadEntry {
            title: item.title.clone(),
            publishedfileid: item.publishedfileid.clone(),
            time_updated: item.time_updated,
        }
    }
}

/// The values of a list of entries, in order.
pub open spec fn entries_of(list: Seq<DownloadEntry>) -> Seq<OwnedEntry> {
    list.map_values(|e: DownloadEntry| e@)
}

/// The mathematical value of the catalog: where the addons are stored, the
/// optional credential, and the owned entries in the order they were recorded.
pub ghost struct Catalog {
    pub directory: Seq<char>,
    pub credential: Option<Seq<char>>,
    pub entries: Seq<OwnedEntry>,
    pub include_name: bool,
}

/// The persisted state: the addon directory, the optional API key and the
/// list of owned addons.
pub struct Config {
    /// The directory that holds the addon files.
    pub gamedir: String,
    /// The key for the remote catalog, where one is set.
    pub apikey: Option<String>,
    /// The owned addons, in the order in which they were recorded.
    pub downloads: Vec<DownloadEntry>,
    /// Whether labels hold the title beside the identifier.
    pub include_name: bool,
}

impl View for Config {
    type V = Catalog;

    open spec fn view(&self) -> Catalog {
        Catalog {
            directory: self.gamedir@,
            credential: match self.apikey {
                Some(key) => Some(key@),
                None => None,
            },
            entries: entries_of(self.downloads@),
            include_name: self.include_name,
        }
    }
}

/// What separates the title from the identifier in the label of an item.
pub open spec fn label_separator() -> Seq<char> {
    seq![' ', '=', ' ']
}

/// The label under which an item is filed: its title and its identifier
/// where names are wanted, else its identifier alone.
pub open spec fn label_of(include_name: bool, item: RemoteItem) -> Seq<char> {
    if include_name {
        item.title + label_separator() + item.id
    } else {
        item.id
    }
}

impl Config {
    /// At most one entry is recorded for each identifier.
    pub open spec fn wf(&self) -> bool {
        unique_ids(self@.entries)
    }

    /// A catalog for the addon directory `path`: no credential, nothing
    /// owned, names wanted in labels.
    pub fn new(path: String) -> (config: Config)
        ensures
            config@ == (Catalog {
                directory: path@,
                credential: None,
                entries: Seq::empty(),
                include_name: true,
            }),
            config.wf(),
    {
        let config = Config {
            gamedir: path,
            apikey: None,
            downloads: Vec::new(),
            include_name: true,
        };
        assert(config@.entries =~= Seq::<OwnedEntry>::empty());
        config
    }

    /// The addon directory as text.
    pub fn get_game_path_str(&self) -> (path: Option<&str>)
        ensures
            path matches Some(text) && text@ == self@.directory,
    {
        Some(self.gamedir.as_str())
    }

    /// The label under which `item` is filed.
    pub fn format_file(&self, item: &WorkshopItem) -> (label: String)
        ensures
            label@ == label_of(self@.include_name, item@),
    {
        if self.include_name {
            proof {
                reveal_strlit(" = ");
            }
            assert(" = "@ =~= label_separator());
            item.title.clone().concat(" = ").concat(item.publishedfileid.as_str())
        } else {
            item.publishedfileid.clone()
        }
    }

    /// The position of the first entry recorded for the identifier of
    /// `entry`, if there is one.
    pub fn find_download(&self, entry: &DownloadEntry) -> (found: Option<usize>)
        ensures
            found is Some <==> has_entry(self@.entries, entry@.id),
            found matches Some(i) ==> i == position_of(self@.entries, entry@.id),
    {
        let mut i: usize = 0;
        assert(self@.entries.skip(0) =~= self@.entries);
        while i < self.downloads.len()
            invariant
                i <= self.downloads.len(),
                position_of(self@.entries, entry@.id) == i + position_of(
                    self@.entries.skip(i as int),
                    entry@.id,
                ),
            decreases self.downloads.len() - i,
        {
            let ghost rest = self@.entries.skip(i as int);
            assert(rest[0] == self.downloads@[i as int]@);
            assert(rest.drop_first() == self@.entries.skip(i + 1));
            if self.downloads[i].publishedfileid == entry.publishedfileid {
                return Some(i);
            }
            i += 1;
        }
        None
    }

    /// The first entry recorded for `id`, if there is one.
    pub fn get_download(&self, id: &str) -> (found: Option<&DownloadEntry>)
        ensures
            found is Some <==> has_entry(self@.entries, id@),
            found matches Some(e) ==> e@ == self@.entries[position_of(self@.entries, id@) as int],
    {
        let mut i: usize = 0;
        assert(self@.entries.skip(0) =~= self@.entries);
        while i < self.downloads.len()
            invariant
                i <= self.downloads.len(),
                position_of(self@.entries, id@) == i + position_of(
                    self@.entries.skip(i as int),
                    id@,
                ),
            decreases self.downloads.len() - i,
        {
            let ghost rest = self@.entries.skip(i as int);
            assert(rest[0] == self.downloads@[i as int]@);
            assert(rest.drop_first() == self@.entries.skip(i + 1));
            if same_text(self.downloads[i].publishedfileid.as_str(), id) {
                return Some(&self.downloads[i]);
            }
            i += 1;
        }
        None
    }

    /// Replaces the first entry recorded for the identifier of `item` by
    /// `item`; where none is recorded, nothing changes.
    pub fn update_download(&mut self, item: DownloadEntry)
        ensures
            has_entry(old(self)@.entries, item@.id) ==> final(self)@ == (Catalog {
                entries: old(self)@.entries.update(
                    position_of(old(self)@.entries, item@.id) as int,
                    item@,
                ),
                ..old(self)@
            }),
            !has_entry(old(self)@.entries, item@.id) ==> final(self)@ == old(self)@,
            old(self).wf() ==> final(self).wf(),
    {
        proof {
            lemma_position_of(self@.entries, item@.id);
        }
        match self.find_download(&item) {
            Some(i) => {
                self.downloads[i] = item;
                assert(entries_of(self.downloads@) =~= entries_of(old(self).downloads@).update(
                    i as int,
                    item@,
                ));
            },
            None => {},
        }
    }

    /// Appends `item` to the owned entries.
    ///
    /// The catalog stays free of duplicates where it was so before and held
    /// no entry for the identifier of `item`.
    pub fn add_download(&mut self, item: DownloadEntry)
        ensures
            final(self)@ == (Catalog { entries: old(self)@.entries.push(item@), ..old(self)@ }),
            old(self).wf() && !has_entry(old(self)@.entries, item@.id) ==> final(self).wf(),
    {
        proof {
            lemma_position_of(self@.entries, item@.id);
        }
        self.downloads.push(item);
        assert(entries_of(self.downloads@) =~= entries_of(old(self).downloads@).push(item@));
    }
}

} // verus!
