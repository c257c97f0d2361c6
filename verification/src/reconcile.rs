//! Folding finished downloads into the catalog.

use vstd::prelude::*;

use crate::download::{DownloadTask, Task};
use crate::meta::{
    entry_of, has_entry, lemma_lookup_upsert, lemma_position_of, lookup, position_of, unique_ids,
    upsert, Catalog, Config, DownloadEntry, OwnedEntry,
};

verus! {

/// The entries after one finished task has been folded in: a failed task
/// leaves them as they are, a successful one inserts or replaces its entry.
pub open spec fn reconcile(entries: Seq<OwnedEntry>, task: Task) -> Seq<OwnedEntry> {
    if task.succeeded {
        upsert(entries, entry_of(task.item))
    } else {
        entries
    }
}

/// The entries after the tasks of `done` have been folded in, one after the
/// other, in the order in which they finished.
pub open spec fn reconcile_all(entries: Seq<OwnedEntry>, done: Seq<Task>) -> Seq<OwnedEntry>
    decreases done.len(),
{
    if done.len() == 0 {
        entries
    } else {
        reconcile(reconcile_all(entries, done.drop_last()), done.last())
    }
}

/// Folds the finished `task` into `catalog` and says whether the catalog has
/// to be written to stable storage before the next task is looked at.
///
/// A failed task changes nothing and asks for no write. A successful task
/// replaces the entry recorded for its item where it stands, or appends one
/// where none is recorded, and asks for a write of the whole catalog.
pub fn on_task_complete(catalog: &mut Config, task: &DownloadTask) -> (persist: bool)
    ensures
        persist == task.succeeded,
        !task.succeeded ==> *final(catalog) == *old(catalog),
        final(catalog)@ == (Catalog {
            entries: reconcile(old(catalog)@.entries, task@),
            ..old(catalog)@
        }),
        old(catalog).wf() ==> final(catalog).wf(),
{
    if !task.succeeded {
        return false;
    }
    proof {
        lemma_reconcile_success(catalog@.entries, task@);
    }
    let entry = DownloadEntry::from_item(&task.item);
    match catalog.find_download(&entry) {
        Some(index) => {
            catalog.downloads[index] = entry;
            assert(catalog@.entries =~= old(catalog)@.entries.update(index as int, entry@));
        },
        None => {
            catalog.add_download(entry);
        },
    }
    true
}

/// A successful task for an identifier that is already recorded replaces
/// that entry where it stands and leaves the number of entries as it is; for
/// an identifier that is not recorded it appends exactly one entry. Either
/// way a catalog without duplicates stays without duplicates, and folding the
/// same task in a second time changes nothing.
pub proof fn lemma_reconcile_success(entries: Seq<OwnedEntry>, task: Task)
    requires
        task.succeeded,
    ensures
        has_entry(entries, task.item.id) ==> reconcile(entries, task) == entries.update(
            position_of(entries, task.item.id) as int,
            entry_of(task.item),
        ) && reconcile(entries, task).len() == entries.len(),
        !has_entry(entries, task.item.id) ==> reconcile(entries, task) == entries.push(
            entry_of(task.item),
        ) && reconcile(entries, task).len() == entries.len() + 1,
        unique_ids(entries) ==> unique_ids(reconcile(entries, task)),
        reconcile(reconcile(entries, task), task) == reconcile(entries, task),
{
    let entry = entry_of(task.item);
    let once = reconcile(entries, task);
    lemma_position_of(entries, entry.id);
    lemma_lookup_upsert(entries, entry, entry.id);
    lemma_position_of(once, entry.id);
    assert(once.update(position_of(once, entry.id) as int, entry) =~= once);
}

/// A failed task leaves every entry as it was.
pub proof fn lemma_reconcile_failure(entries: Seq<OwnedEntry>, task: Task)
    requires
        !task.succeeded,
    ensures
        reconcile(entries, task) == entries,
{
}

/// Folding in tasks that failed changes nothing: where every task of `done`
/// from position `n` on has failed, the entries are those after the first
/// `n` tasks.
pub proof fn lemma_failures_change_nothing(entries: Seq<OwnedEntry>, done: Seq<Task>, n: int)
    requires
        0 <= n <= done.len(),
        forall|k: int| n <= k < done.len() ==> !(#[trigger] done[k]).succeeded,
    ensures
        reconcile_all(entries, done) == reconcile_all(entries, done.take(n)),
    decreases done.len() - n,
{
    if n == done.len() {
        assert(done.take(n) =~= done);
    } else {
        assert(!done[done.len() - 1].succeeded);
        lemma_failures_change_nothing(entries, done.drop_last(), n);
        assert(done.drop_last().take(n) =~= done.take(n));
    }
}

/// A catalog without duplicates stays without duplicates, whatever tasks
/// are folded into it.
pub proof fn lemma_reconcile_all_keeps_unique(entries: Seq<OwnedEntry>, done: Seq<Task>)
    requires
        unique_ids(entries),
    ensures
        unique_ids(reconcile_all(entries, done)),
    decreases done.len(),
{
    if done.len() > 0 {
        lemma_reconcile_all_keeps_unique(entries, done.drop_last());
        if done.last().succeeded {
            lemma_reconcile_success(reconcile_all(entries, done.drop_last()), done.last());
        }
    }
}

/// No two tasks are for the same addon.
pub open spec fn distinct_items(tasks: Seq<Task>) -> bool {
    forall|i: int, j: int|
        0 <= i < j < tasks.len() ==> (#[trigger] tasks[i]).item.id != (#[trigger] tasks[j]).item.id
}

/// The last task of `done` that succeeded for `id`, if there is one.
pub open spec fn last_success(done: Seq<Task>, id: Seq<char>) -> Option<Task>
    decreases done.len(),
{
    if done.len() == 0 {
        None
    } else if done.last().succeeded && done.last().item.id == id {
        Some(done.last())
    } else {
        last_success(done.drop_last(), id)
    }
}

/// After the tasks of `done` have been folded in, an identifier is recorded
/// with the entry of the last task that succeeded for it, and where no task
/// succeeded for it, with what was recorded before.
pub proof fn lemma_lookup_reconcile_all(entries: Seq<OwnedEntry>, done: Seq<Task>, id: Seq<char>)
    ensures
        lookup(reconcile_all(entries, done), id) == match last_success(done, id) {
            Some(task) => Some(entry_of(task.item)),
            None => lookup(entries, id),
        },
    decreases done.len(),
{
    if done.len() > 0 {
        lemma_lookup_reconcile_all(entries, done.drop_last(), id);
        if done.last().succeeded {
            lemma_lookup_upsert(
                reconcile_all(entries, done.drop_last()),
                entry_of(done.last().item),
                id,
            );
        }
    }
}

/// Where the tasks of a batch are for different addons, the last task that
/// succeeded for the addon of a successful task is that task itself, and no
/// task succeeded for an addon that no successful task is for.
proof fn lemma_last_success_distinct(done: Seq<Task>, id: Seq<char>)
    requires
        distinct_items(done),
    ensures
        forall|k: int|
            0 <= k < done.len() && (#[trigger] done[k]).succeeded && done[k].item.id == id
                ==> last_success(done, id) == Some(done[k]),
        (forall|k: int|
            0 <= k < done.len() && (#[trigger] done[k]).succeeded ==> done[k].item.id != id)
            ==> last_success(done, id) is None,
    decreases done.len(),
{
    if done.len() > 0 {
        let rest = done.drop_last();
        assert forall|i: int, j: int| 0 <= i < j < rest.len() implies (#[trigger] rest[i]).item.id
            != (#[trigger] rest[j]).item.id by {
            assert(rest[i] == done[i] && rest[j] == done[j]);
        }
        lemma_last_success_distinct(rest, id);
        assert forall|k: int|
            0 <= k < done.len() && (#[trigger] done[k]).succeeded && done[k].item.id
                == id implies last_success(done, id) == Some(done[k]) by {
            if k < done.len() - 1 {
                assert(rest[k] == done[k]);
                assert(done[k].item.id != done[done.len() - 1].item.id);
            }
        }
        if forall|k: int|
            0 <= k < done.len() && (#[trigger] done[k]).succeeded ==> done[k].item.id != id {
            assert forall|k: int|
                0 <= k < rest.len() && (#[trigger] rest[k]).succeeded implies rest[k].item.id
                != id by {
                assert(rest[k] == done[k]);
            }
        }
    }
}

/// Completion order does not matter: in whatever order the tasks of a batch
/// for different addons finish, once they have been folded in the catalog
/// records the entry of every task that succeeded, and records for every
/// other addon what it recorded before the batch.
pub proof fn lemma_every_success_is_recorded(entries: Seq<OwnedEntry>, done: Seq<Task>)
    requires
        distinct_items(done),
    ensures
        forall|k: int|
            0 <= k < done.len() && (#[trigger] done[k]).succeeded ==> lookup(
                reconcile_all(entries, done),
                done[k].item.id,
            ) == Some(entry_of(done[k].item)),
        forall|id: Seq<char>|
            (forall|k: int|
                0 <= k < done.len() && (#[trigger] done[k]).succeeded ==> done[k].item.id != id)
                ==> #[trigger] lookup(reconcile_all(entries, done), id) == lookup(entries, id),
{
    assert forall|k: int| 0 <= k < done.len() && (#[trigger] done[k]).succeeded implies lookup(
        reconcile_all(entries, done),
        done[k].item.id,
    ) == Some(entry_of(done[k].item)) by {
        lemma_last_success_distinct(done, done[k].item.id);
        lemma_lookup_reconcile_all(entries, done, done[k].item.id);
    }
    assert forall|id: Seq<char>|
        (forall|k: int|
            0 <= k < done.len() && (#[trigger] done[k]).succeeded ==> done[k].item.id != id)
        implies #[trigger] lookup(reconcile_all(entries, done), id) == lookup(entries, id) by {
        lemma_last_success_distinct(done, id);
        lemma_lookup_reconcile_all(entries, done, id);
    }
}

} // verus!
