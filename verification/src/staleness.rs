//! Which owned addons are out of date.
//!
//! The remote catalog promises to answer a request for the owned identifiers
//! with one item for each, in the order of the request. Where it keeps that
//! promise, owned entries and fetched items are matched by position; where it
//! does not, they can be matched by identifier.

use vstd::prelude::*;

use crate::display::{duration_text, human_duration};
use crate::meta::{
    entries_of, lemma_position_is_first, lookup, unique_ids, Config, DownloadEntry, OwnedEntry,
};
use crate::text::{same_text, texts_of};
use crate::workshop::{items_of, RemoteItem, WorkshopItem};

verus! {

/// An owned entry is out of date when the remote item was updated strictly
/// after the version that is owned. Equal timestamps are up to date.
pub open spec fn is_outdated(owned: OwnedEntry, remote: RemoteItem) -> bool {
    remote.last_updated_at > owned.last_updated_at
}

/// How many positions have both an owned entry and a fetched item.
pub open spec fn matched(owned: Seq<OwnedEntry>, remote: Seq<RemoteItem>) -> nat {
    if owned.len() <= remote.len() {
        owned.len()
    } else {
        remote.len()
    }
}

/// Of the first `n` positions, those at which the owned entry is out of
/// date, in increasing order.
pub open spec fn stale_before(owned: Seq<OwnedEntry>, remote: Seq<RemoteItem>, n: int) -> Seq<
    int,
> {
    Seq::new(n as nat, |i: int| i).filter(|i: int| is_outdated(owned[i], remote[i]))
}

/// The matched positions at which the owned entry is out of date, in
/// increasing order.
pub open spec fn stale_positions(owned: Seq<OwnedEntry>, remote: Seq<RemoteItem>) -> Seq<int> {
    stale_before(owned, remote, matched(owned, remote) as int)
}

/// The fetched items that have to be downloaded: those at the stale
/// positions, in the order in which they were fetched.
pub open spec fn outdated(owned: Seq<OwnedEntry>, remote: Seq<RemoteItem>) -> Seq<RemoteItem> {
    stale_positions(owned, remote).map_values(|i: int| remote[i])
}

/// The items of `remote` that are newer than the entry of `owned` at the same
/// position, in their order in `remote`.
///
/// Positions that only one of the two lists has are left out; with nothing
/// owned the answer is empty whatever `remote` holds.
pub fn compute_outdated(owned: &[DownloadEntry], remote: &[WorkshopItem]) -> (stale: Vec<
    WorkshopItem,
>)
    ensures
        items_of(stale@) == outdated(entries_of(owned@), items_of(remote@)),
        owned@.len() == 0 ==> stale@.len() == 0,
{
    let ghost entries = entries_of(owned@);
    let ghost items = items_of(remote@);
    let n = if owned.len() <= remote.len() {
        owned.len()
    } else {
        remote.len()
    };
    let mut stale: Vec<WorkshopItem> = Vec::new();
    let mut i: usize = 0;
    proof {
        lemma_stale_before_step(entries, items, 0);
        assert(items_of(stale@) =~= Seq::<RemoteItem>::empty());
    }
    while i < n
        invariant
            i <= n,
            n == matched(entries, items),
            entries == entries_of(owned@),
            items == items_of(remote@),
            n <= owned@.len(),
            n <= remote@.len(),
            items_of(stale@) == stale_before(entries, items, i as int).map_values(
                |k: int| items[k],
            ),
        decreases n - i,
    {
        proof {
            lemma_stale_before_step(entries, items, i as int);
        }
        if remote[i].time_updated > owned[i].time_updated {
            let ghost kept = stale@;
            let item = remote[i].clone();
            stale.push(item);
            proof {
                let positions = stale_before(entries, items, i as int);
                assert(item@ == items[i as int]);
                assert(items_of(stale@) =~= items_of(kept).push(item@));
                assert(positions.push(i as int).map_values(|k: int| items[k])
                    =~= positions.map_values(|k: int| items[k]).push(items[i as int]));
            }
        }
        i += 1;
    }
    stale
}

/// The stale positions are exactly the matched positions at which the remote
/// item is strictly newer than the owned entry, each once and in increasing
/// order: the outdated items keep the order in which they were fetched.
pub proof fn lemma_stale_positions(owned: Seq<OwnedEntry>, remote: Seq<RemoteItem>)
    ensures
        forall|k: int|
            0 <= k < stale_positions(owned, remote).len() ==> {
                let p = #[trigger] stale_positions(owned, remote)[k];
                0 <= p < matched(owned, remote) && remote[p].last_updated_at
                    > owned[p].last_updated_at
            },
        forall|k: int, l: int|
            0 <= k < l < stale_positions(owned, remote).len() ==> #[trigger] stale_positions(
                owned,
                remote,
            )[k] < #[trigger] stale_positions(owned, remote)[l],
        forall|i: int|
            0 <= i < matched(owned, remote) && remote[i].last_updated_at
                > owned[i].last_updated_at ==> #[trigger] stale_positions(owned, remote).contains(
                i,
            ),
{
    lemma_stale_before(owned, remote, matched(owned, remote) as int);
}

/// The identifiers of `owned`, in order.
pub open spec fn ids_of(owned: Seq<OwnedEntry>) -> Seq<Seq<char>> {
    owned.map_values(|e: OwnedEntry| e.id)
}

/// The identifiers to ask the remote catalog about: one for each owned
/// entry, in order. With nothing owned there is nothing to ask, and the
/// remote catalog is not called at all.
pub fn update_request(owned: &[DownloadEntry]) -> (request: Option<Vec<String>>)
    ensures
        request is None <==> owned@.len() == 0,
        request matches Some(ids) ==> texts_of(ids@) == ids_of(entries_of(owned@)),
{
    if owned.len() == 0 {
        return None;
    }
    let mut ids: Vec<String> = Vec::new();
    let mut i: usize = 0;
    while i < owned.len()
        invariant
            i <= owned.len(),
            ids@.len() == i,
            forall|k: int| 0 <= k < i ==> (#[trigger] ids@[k])@ == owned@[k]@.id,
        decreases owned.len() - i,
    {
        ids.push(owned[i].publishedfileid.clone());
        i += 1;
    }
    assert(texts_of(ids@) =~= ids_of(entries_of(owned@)));
    Some(ids)
}

/// The mathematical value of a notice.
pub ghost struct Notice {
    pub title: Seq<char>,
    pub behind_by: nat,
    pub age: Seq<char>,
}

/// What is said of an owned addon that is out of date.
pub struct StaleNotice {
    /// The title under which the addon is owned.
    pub title: String,
    /// How many seconds the owned version is behind the remote one.
    pub behind_by: u64,
    /// The same span in words.
    pub age: String,
}

impl View for StaleNotice {
    type V = Notice;

    open spec fn view(&self) -> Notice {
        Notice { title: self.title@, behind_by: self.behind_by as nat, age: self.age@ }
    }
}

/// The notice for the stale position `i`.
pub open spec fn notice_at(owned: Seq<OwnedEntry>, remote: Seq<RemoteItem>, i: int) -> Notice {
    let behind_by = (remote[i].last_updated_at - owned[i].last_updated_at) as nat;
    Notice { title: owned[i].title, behind_by, age: duration_text(behind_by) }
}

/// The values of a list of notices, in order.
pub open spec fn notices_of(list: Seq<StaleNotice>) -> Seq<Notice> {
    list.map_values(|n: StaleNotice| n@)
}

/// One notice for each outdated item, in the order of `compute_outdated`:
/// the title of the owned entry and how far it is behind.
pub fn stale_notices(owned: &[DownloadEntry], remote: &[WorkshopItem]) -> (notices: Vec<
    StaleNotice,
>)
    ensures
        notices_of(notices@) == stale_positions(
            entries_of(owned@),
            items_of(remote@),
        ).map_values(|i: int| notice_at(entries_of(owned@), items_of(remote@), i)),
{
    let ghost entries = entries_of(owned@);
    let ghost items = items_of(remote@);
    let n = if owned.len() <= remote.len() {
        owned.len()
    } else {
        remote.len()
    };
    let mut notices: Vec<StaleNotice> = Vec::new();
    let mut i: usize = 0;
    proof {
        lemma_stale_before_step(entries, items, 0);
        assert(notices_of(notices@) =~= Seq::<Notice>::empty());
    }
    while i < n
        invariant
            i <= n,
            n == matched(entries, items),
            entries == entries_of(owned@),
            items == items_of(remote@),
            n <= owned@.len(),
            n <= remote@.len(),
            notices_of(notices@) == stale_before(entries, items, i as int).map_values(
                |k: int| notice_at(entries, items, k),
            ),
        decreases n - i,
    {
        proof {
            lemma_stale_before_step(entries, items, i as int);
        }
        if remote[i].time_updated > owned[i].time_updated {
            let ghost kept = notices@;
            let behind_by = (remote[i].time_updated - owned[i].time_updated) as u64;
            let notice = StaleNotice {
                title: owned[i].title.clone(),
                behind_by,
                age: human_duration(behind_by),
            };
            notices.push(notice);
            proof {
                let positions = stale_before(entries, items, i as int);
                assert(notice@ == notice_at(entries, items, i as int));
                assert(notices_of(notices@) =~= notices_of(kept).push(notice@));
                assert(positions.push(i as int).map_values(|k: int| notice_at(entries, items, k))
                    =~= positions.map_values(|k: int| notice_at(entries, items, k)).push(
                    notice_at(entries, items, i as int),
                ));
            }
        }
        i += 1;
    }
    notices
}

/// Whether the fetched items answer the owned entries one for one: as many
/// items as entries, and at each position the item for the identifier of the
/// entry.
pub open spec fn aligned(owned: Seq<OwnedEntry>, remote: Seq<RemoteItem>) -> bool {
    &&& owned.len() == remote.len()
    &&& forall|i: int| 0 <= i < owned.len() ==> (#[trigger] owned[i]).id == remote[i].id
}

/// Whether `remote` answers `owned` one for one. Where it does not, the
/// remote catalog has broken its promise, and matching by position would pair
/// entries with items of other addons.
pub fn is_aligned(owned: &[DownloadEntry], remote: &[WorkshopItem]) -> (ok: bool)
    ensures
        ok == aligned(entries_of(owned@), items_of(remote@)),
{
    if owned.len() != remote.len() {
        return false;
    }
    let mut i: usize = 0;
    while i < owned.len()
        invariant
            i <= owned.len(),
            owned@.len() == remote@.len(),
            forall|k: int|
                0 <= k < i ==> (#[trigger] entries_of(owned@)[k]).id == items_of(remote@)[k].id,
        decreases owned.len() - i,
    {
        if !same_text(owned[i].publishedfileid.as_str(), remote[i].publishedfileid.as_str()) {
            assert(entries_of(owned@)[i as int].id != items_of(remote@)[i as int].id);
            return false;
        }
        i += 1;
    }
    true
}

/// Whether `item` is newer than the entry that is owned for its identifier.
/// An item that is not owned is not out of date.
pub open spec fn outdated_for(owned: Seq<OwnedEntry>, item: RemoteItem) -> bool {
    match lookup(owned, item.id) {
        Some(entry) => is_outdated(entry, item),
        None => false,
    }
}

/// The fetched items that are newer than the entry owned for their
/// identifier, in the order in which they were fetched.
pub open spec fn outdated_by_id(owned: Seq<OwnedEntry>, remote: Seq<RemoteItem>) -> Seq<
    RemoteItem,
> {
    remote.filter(|item: RemoteItem| outdated_for(owned, item))
}

/// The items of `remote` that are newer than the entry that `catalog` holds
/// for their identifier, in their order in `remote`.
///
/// Each item is matched with its entry by identifier, so that items which
/// the remote catalog left out, added or moved do no harm.
pub fn compute_outdated_by_id(catalog: &Config, remote: &[WorkshopItem]) -> (stale: Vec<
    WorkshopItem,
>)
    ensures
        items_of(stale@) == outdated_by_id(catalog@.entries, items_of(remote@)),
{
    let ghost owned = catalog@.entries;
    let ghost items = items_of(remote@);
    let mut stale: Vec<WorkshopItem> = Vec::new();
    let mut i: usize = 0;
    proof {
        reveal(Seq::filter);
        assert(items.take(0) =~= Seq::<RemoteItem>::empty());
        assert(items_of(stale@) =~= Seq::<RemoteItem>::empty());
    }
    while i < remote.len()
        invariant
            i <= remote.len(),
            owned == catalog@.entries,
            items == items_of(remote@),
            items_of(stale@) == outdated_by_id(owned, items.take(i as int)),
        decreases remote.len() - i,
    {
        proof {
            reveal(Seq::filter);
            assert(items.take(i + 1).drop_last() =~= items.take(i as int));
            assert(items.take(i + 1).last() == remote@[i as int]@);
        }
        let newer = match catalog.get_download(remote[i].publishedfileid.as_str()) {
            Some(entry) => remote[i].time_updated > entry.time_updated,
            None => false,
        };
        if newer {
            let ghost kept = stale@;
            let item = remote[i].clone();
            stale.push(item);
            assert(items_of(stale@) =~= items_of(kept).push(item@));
        }
        i += 1;
    }
    assert(items.take(remote@.len() as int) =~= items);
    stale
}

/// Matching by identifier and matching by position agree wherever the remote
/// catalog keeps its promise: for owned entries without duplicates and
/// fetched items that answer them one for one, both find the same outdated
/// items in the same order.
pub proof fn lemma_matching_agrees(owned: Seq<OwnedEntry>, remote: Seq<RemoteItem>)
    requires
        unique_ids(owned),
        aligned(owned, remote),
    ensures
        outdated_by_id(owned, remote) == outdated(owned, remote),
{
    lemma_matching_agrees_before(owned, remote, remote.len() as int);
    assert(remote.take(remote.len() as int) =~= remote);
}

proof fn lemma_stale_before_step(owned: Seq<OwnedEntry>, remote: Seq<RemoteItem>, n: int)
    requires
        0 <= n,
    ensures
        stale_before(owned, remote, n + 1) == if is_outdated(owned[n], remote[n]) {
            stale_before(owned, remote, n).push(n)
        } else {
            stale_before(owned, remote, n)
        },
        stale_before(owned, remote, 0) == Seq::<int>::empty(),
{
    reveal(Seq::filter);
    let longer = Seq::new((n + 1) as nat, |i: int| i);
    assert(longer.drop_last() =~= Seq::new(n as nat, |i: int| i));
}

proof fn lemma_stale_before(owned: Seq<OwnedEntry>, remote: Seq<RemoteItem>, n: int)
    requires
        0 <= n,
    ensures
        forall|k: int|
            0 <= k < stale_before(owned, remote, n).len() ==> {
                let p = #[trigger] stale_before(owned, remote, n)[k];
                0 <= p < n && is_outdated(owned[p], remote[p])
            },
        forall|k: int, l: int|
            0 <= k < l < stale_before(owned, remote, n).len() ==> #[trigger] stale_before(
                owned,
                remote,
                n,
            )[k] < #[trigger] stale_before(owned, remote, n)[l],
        forall|i: int|
            0 <= i < n && is_outdated(owned[i], remote[i]) ==> #[trigger] stale_before(
                owned,
                remote,
                n,
            ).contains(i),
    decreases n,
{
    if n == 0 {
        lemma_stale_before_step(owned, remote, 0);
    } else {
        lemma_stale_before_step(owned, remote, n - 1);
        lemma_stale_before(owned, remote, n - 1);
        let shorter = stale_before(owned, remote, n - 1);
        let longer = stale_before(owned, remote, n);
        assert forall|i: int|
            0 <= i < n && is_outdated(owned[i], remote[i]) implies longer.contains(i) by {
            if i == n - 1 {
                assert(longer[longer.len() - 1] == i);
            } else {
                assert(shorter.contains(i));
                let k = choose|k: int| 0 <= k < shorter.len() && shorter[k] == i;
                assert(longer[k] == i);
            }
        }
    }
}

proof fn lemma_matching_agrees_before(owned: Seq<OwnedEntry>, remote: Seq<RemoteItem>, n: int)
    requires
        unique_ids(owned),
        aligned(owned, remote),
        0 <= n <= remote.len(),
    ensures
        outdated_by_id(owned, remote.take(n)) == stale_before(owned, remote, n).map_values(
            |i: int| remote[i],
        ),
    decreases n,
{
    reveal(Seq::filter);
    if n == 0 {
        lemma_stale_before_step(owned, remote, 0);
        assert(remote.take(0) =~= Seq::<RemoteItem>::empty());
        assert(stale_before(owned, remote, 0).map_values(|i: int| remote[i]) =~= Seq::<
            RemoteItem,
        >::empty());
    } else {
        let m = n - 1;
        lemma_matching_agrees_before(owned, remote, m);
        lemma_stale_before_step(owned, remote, m);
        assert(remote.take(n).drop_last() =~= remote.take(m));
        assert(remote.take(n).last() == remote[m]);
        assert forall|k: int| 0 <= k < m implies (#[trigger] owned[k]).id != remote[m].id by {
            assert(owned[k].id != owned[m].id);
        }
        lemma_position_is_first(owned, remote[m].id, m);
        assert(lookup(owned, remote[m].id) == Some(owned[m]));
        let positions = stale_before(owned, remote, m);
        assert(positions.push(m).map_values(|i: int| remote[i]) =~= positions.map_values(
            |i: int| remote[i],
        ).push(remote[m]));
    }
}

} // verus!
