//! A batch of downloads run under a fixed limit on how many are in flight.
//!
//! The batch holds every decision of a run: which task starts next, what a
//! received chunk and a finished transfer do to a task, and how each finished
//! task is folded into the catalog. What it cannot do itself (fetch, write,
//! flush, save) is done by its caller, who reports back through
//! [`DownloadBatch::start_next`], [`DownloadBatch::record_chunk`] and
//! [`DownloadBatch::finish`].

use vstd::prelude::*;
use vstd::string::StringExecFns;

use crate::meta::{entry_of, lookup, unique_ids, Catalog, Config, OwnedEntry};
use crate::reconcile::{
    distinct_items, lemma_every_success_is_recorded, lemma_failures_change_nothing,
    lemma_reconcile_all_keeps_unique, on_task_complete, reconcile, reconcile_all,
};
use crate::listing::{stem_of, vpk_suffix};
use crate::workshop::{items_of, RemoteItem, WorkshopItem};

verus! {

/// How many downloads a batch keeps in flight unless told otherwise.
pub const CONCURRENT_REQUESTS: usize = 4;

/// The name of the file that holds the addon `id`, relative to the catalog's
/// directory.
pub open spec fn file_name(id: Seq<char>) -> Seq<char> {
    id + vpk_suffix()
}

/// Two addons share a file name only if they share their identifier.
pub proof fn lemma_file_name_injective(a: Seq<char>, b: Seq<char>)
    requires
        file_name(a) == file_name(b),
    ensures
        a == b,
{
    assert(file_name(a).len() == a.len() + 4);
    assert(file_name(b).len() == b.len() + 4);
    assert(a =~= file_name(a).subrange(0, a.len() as int));
    assert(b =~= file_name(b).subrange(0, b.len() as int));
}

/// The file of an addon is found again under its identifier: the name that a
/// download writes to is the name of an addon file, and its stem is the
/// identifier.
pub proof fn lemma_stem_of_file_name(id: Seq<char>)
    requires
        id.len() > 0,
    ensures
        stem_of(file_name(id)) == Some(id),
{
    let name = file_name(id);
    assert(name.subrange(name.len() - 4, name.len() as int) =~= vpk_suffix());
    assert(name.subrange(0, name.len() - 4) =~= id);
}

/// The name of the file that holds the addon `id`.
pub fn destination_of(id: &str) -> (name: String)
    ensures
        name@ == file_name(id@),
{
    proof {
        reveal_strlit(".vpk");
    }
    let name = id.to_owned().concat(".vpk");
    assert(".vpk"@ =~= vpk_suffix());
    name
}

/// The mathematical value of a download task.
pub ghost struct Task {
    pub item: RemoteItem,
    pub destination: Seq<char>,
    pub succeeded: bool,
    pub bytes_written: nat,
}

/// The task that a batch creates for `item`: nothing written, not succeeded.
pub open spec fn fresh_task(item: RemoteItem) -> Task {
    Task { item, destination: file_name(item.id), succeeded: false, bytes_written: 0 }
}

/// One unit of work of a batch: the item to fetch, the file it goes to, and
/// how far it got.
pub struct DownloadTask {
    /// The item to fetch.
    pub item: WorkshopItem,
    /// The name of the file that the item is written to, relative to the
    /// catalog's directory.
    pub destination: String,
    /// Whether the whole payload arrived and was flushed.
    pub succeeded: bool,
    /// How many bytes have been written to the file.
    pub bytes_written: u64,
}

impl View for DownloadTask {
    type V = Task;

    open spec fn view(&self) -> Task {
        Task {
            item: self.item@,
            destination: self.destination@,
            succeeded: self.succeeded,
            bytes_written: self.bytes_written as nat,
        }
    }
}

impl DownloadTask {
    /// A task for `item` that has not started.
    pub fn new(item: &WorkshopItem) -> (task: DownloadTask)
        ensures
            task@ == fresh_task(item@),
    {
        DownloadTask {
            item: item.clone(),
            destination: destination_of(item.publishedfileid.as_str()),
            succeeded: false,
            bytes_written: 0,
        }
    }
}

/// Where a task of a batch stands.
#[derive(Clone, Copy, PartialEq, Eq, Debug)]
pub enum Phase {
    /// Waiting for a free slot.
    Queued,
    /// Started and not completed: it holds one of the slots.
    Active,
    /// Completed, with success or without.
    Finished,
}

/// How a transfer ended.
#[derive(Clone, Copy, PartialEq, Eq, Debug)]
pub enum Outcome {
    /// The stream was exhausted and the file was flushed.
    Completed,
    /// The connection failed or the server answered with an error.
    TransportFailed,
    /// A chunk could not be written to the destination file.
    WriteFailed,
}

/// Why a batch refused a report.
#[derive(Clone, Copy, PartialEq, Eq, Debug)]
pub enum BatchError {
    /// The batch has no task with that number.
    UnknownTask,
    /// The task is not in flight: it has not started yet, or has finished.
    NotActive,
    /// The count of received bytes would no longer fit its counter.
    CounterOverflow,
    /// The catalog has to be written, and the batch told how that went,
    /// before the next task is folded in.
    PersistPending,
}

/// What a batch says of a task that has just finished.
pub struct Completion {
    /// The number of the task.
    pub task: usize,
    /// Whether the whole payload arrived and was flushed.
    pub succeeded: bool,
    /// How many bytes had been written when the task ended.
    pub bytes_written: u64,
    /// Whether the catalog changed and has to be written to stable storage now.
    pub persist: bool,
}

/// How many of `phases` are `phase`.
pub open spec fn count_of(phases: Seq<Phase>, phase: Phase) -> nat
    decreases phases.len(),
{
    if phases.len() == 0 {
        0
    } else {
        count_of(phases.drop_last(), phase) + if phases.last() == phase {
            1nat
        } else {
            0nat
        }
    }
}

/// How many of `phases` are in flight: started and not completed.
pub open spec fn in_flight(phases: Seq<Phase>) -> nat {
    count_of(phases, Phase::Active)
}

/// How many of `tasks` have succeeded.
pub open spec fn successes(tasks: Seq<Task>) -> nat
    decreases tasks.len(),
{
    if tasks.len() == 0 {
        0
    } else {
        successes(tasks.drop_last()) + if tasks.last().succeeded {
            1nat
        } else {
            0nat
        }
    }
}

/// How many bytes the tasks of `tasks` have written, all together.
pub open spec fn bytes_written(tasks: Seq<Task>) -> nat
    decreases tasks.len(),
{
    if tasks.len() == 0 {
        0
    } else {
        bytes_written(tasks.drop_last()) + tasks.last().bytes_written
    }
}

/// The mathematical value of a batch.
pub ghost struct Batch {
    /// The tasks, in the order in which they were submitted.
    pub tasks: Seq<Task>,
    /// Where each task stands.
    pub phases: Seq<Phase>,
    /// How many tasks may be in flight at once.
    pub limit: nat,
    /// The numbers of the finished tasks, in the order in which they finished.
    pub completed: Seq<int>,
    /// The entries of the catalog when the batch was made.
    pub initial: Seq<OwnedEntry>,
    /// The catalog as it stands.
    pub catalog: Catalog,
    /// How many of the finished tasks had been folded in when the catalog was
    /// last written to stable storage.
    pub saved: nat,
    /// Whether the batch waits to be told how the write of the catalog went
    /// that the last finished task has asked for.
    pub pending: bool,
}

/// The finished tasks of `batch`, in the order in which they finished.
pub open spec fn finished_tasks(batch: Batch) -> Seq<Task> {
    batch.completed.map_values(|i: int| batch.tasks[i])
}

/// The entries that stable storage holds: the catalog as it was after the
/// finished tasks that the last write has seen.
pub open spec fn stored_entries(batch: Batch) -> Seq<OwnedEntry> {
    reconcile_all(batch.initial, finished_tasks(batch).take(batch.saved as int))
}

/// Whether the catalog has changed since it was last written: a task has
/// succeeded that the last write has not seen.
pub open spec fn write_due(batch: Batch) -> bool {
    exists|k: int|
        batch.saved <= k < batch.completed.len() && (#[trigger] finished_tasks(
            batch,
        )[k]).succeeded
}

/// What holds of a batch in every state that it can reach.
pub open spec fn batch_inv(batch: Batch) -> bool {
    &&& batch.phases.len() == batch.tasks.len()
    // Never more tasks in flight than the limit allows.
    &&& in_flight(batch.phases) <= batch.limit
    // Tasks start in the order in which they were submitted.
    &&& forall|i: int, j: int|
        0 <= i < j < batch.phases.len() && #[trigger] batch.phases[i] is Queued
            ==> #[trigger] batch.phases[j] is Queued
    // A task that has not started has written nothing, and only a finished
    // task can have succeeded.
    &&& forall|i: int|
        0 <= i < batch.tasks.len() && #[trigger] batch.phases[i] is Queued ==> batch.tasks[i]
            == fresh_task(batch.tasks[i].item)
    &&& forall|i: int|
        0 <= i < batch.tasks.len() && (#[trigger] batch.tasks[i]).succeeded
            ==> batch.phases[i] is Finished
    // Each task writes to the file that is named after its item.
    &&& forall|i: int|
        0 <= i < batch.tasks.len() ==> (#[trigger] batch.tasks[i]).destination == file_name(
            batch.tasks[i].item.id,
        )
    // Every finished task was completed exactly once.
    &&& batch.completed.no_duplicates()
    &&& forall|k: int|
        0 <= k < batch.completed.len() ==> 0 <= #[trigger] batch.completed[k]
            < batch.tasks.len() && batch.phases[batch.completed[k]] is Finished
    &&& forall|i: int|
        0 <= i < batch.tasks.len() && #[trigger] batch.phases[i] is Finished
            ==> batch.completed.contains(i)
    &&& batch.completed.len() == count_of(batch.phases, Phase::Finished)
    // The catalog is what folding in the finished tasks, one by one as they
    // finished, made of the catalog that the batch started with.
    &&& batch.catalog.entries == reconcile_all(batch.initial, finished_tasks(batch))
    // Stable storage holds the catalog as it was after some of them, and a
    // write is waited for only where the catalog has changed since.
    &&& batch.saved <= batch.completed.len()
    &&& batch.pending ==> write_due(batch)
}

/// The batch that is made for `items`: every task fresh and queued.
pub open spec fn fresh_batch(catalog: Catalog, items: Seq<RemoteItem>, limit: nat) -> Batch {
    Batch {
        tasks: items.map_values(|item: RemoteItem| fresh_task(item)),
        phases: Seq::new(items.len(), |i: int| Phase::Queued),
        limit,
        completed: Seq::empty(),
        initial: catalog.entries,
        catalog,
        saved: 0,
        pending: false,
    }
}

/// The values of a list of tasks, in order.
pub open spec fn tasks_of(list: Seq<DownloadTask>) -> Seq<Task> {
    list.map_values(|t: DownloadTask| t@)
}

/// Whether a task of `batch` can start now: a slot is free and a task is
/// waiting for one.
pub open spec fn can_start(batch: Batch) -> bool {
    &&& in_flight(batch.phases) < batch.limit
    &&& exists|i: int| 0 <= i < batch.phases.len() && #[trigger] batch.phases[i] is Queued
}

/// Why `batch` refuses a report about the task `task`, if it does: there is
/// no such task, or it is not in flight.
pub open spec fn report_refusal(batch: Batch, task: int) -> Option<BatchError> {
    if !(0 <= task < batch.tasks.len()) {
        Some(BatchError::UnknownTask)
    } else if !(batch.phases[task] is Active) {
        Some(BatchError::NotActive)
    } else {
        None
    }
}

/// Why `batch` refuses the report that the task `task` has ended, if it
/// does: there is no such task, it is not in flight, or the write that the
/// last finished task has asked for is still waited for.
pub open spec fn finish_refusal(batch: Batch, task: int) -> Option<BatchError> {
    if report_refusal(batch, task) is Some {
        report_refusal(batch, task)
    } else if batch.pending {
        Some(BatchError::PersistPending)
    } else {
        None
    }
}

/// Why `batch` refuses the report of `len` more bytes for the task `task`,
/// if it does.
pub open spec fn chunk_refusal(batch: Batch, task: int, len: nat) -> Option<BatchError> {
    if report_refusal(batch, task) is Some {
        report_refusal(batch, task)
    } else if bytes_written(batch.tasks) + len > u64::MAX {
        Some(BatchError::CounterOverflow)
    } else {
        None
    }
}

/// The batch after the task `task` has started.
pub open spec fn after_start(batch: Batch, task: int) -> Batch {
    Batch { phases: batch.phases.update(task, Phase::Active), ..batch }
}

/// The batch after `len` more bytes have been written for the task `task`.
pub open spec fn after_chunk(batch: Batch, task: int, len: nat) -> Batch {
    Batch {
        tasks: batch.tasks.update(
            task,
            Task { bytes_written: batch.tasks[task].bytes_written + len, ..batch.tasks[task] },
        ),
        ..batch
    }
}

/// The task `task` as it is left when its transfer ends with `outcome`.
pub open spec fn ended(task: Task, outcome: Outcome) -> Task {
    Task { succeeded: outcome is Completed, ..task }
}

/// The batch after the transfer of the task `task` has ended with `outcome`
/// and the task has been folded into the catalog.
pub open spec fn after_finish(batch: Batch, task: int, outcome: Outcome) -> Batch {
    Batch {
        tasks: batch.tasks.update(task, ended(batch.tasks[task], outcome)),
        phases: batch.phases.update(task, Phase::Finished),
        completed: batch.completed.push(task),
        catalog: Catalog {
            entries: reconcile(batch.catalog.entries, ended(batch.tasks[task], outcome)),
            ..batch.catalog
        },
        pending: outcome is Completed,
        ..batch
    }
}

/// The batch after it was told how the write of the catalog went: a write
/// that succeeded has seen every finished task.
pub open spec fn after_persist(batch: Batch, written: bool) -> Batch {
    Batch {
        saved: if written {
            batch.completed.len()
        } else {
            batch.saved
        },
        pending: false,
        ..batch
    }
}

/// In every state that a batch of tasks for different addons can reach, the
/// catalog records the entry of every task that has succeeded so far, in
/// whatever order the tasks finished, and records for every other addon what
/// it recorded when the batch was made.
pub proof fn lemma_batch_records_successes(batch: Batch)
    requires
        batch_inv(batch),
        distinct_items(batch.tasks),
    ensures
        forall|i: int|
            0 <= i < batch.tasks.len() && (#[trigger] batch.tasks[i]).succeeded ==> lookup(
                batch.catalog.entries,
                batch.tasks[i].item.id,
            ) == Some(entry_of(batch.tasks[i].item)),
        forall|id: Seq<char>|
            (forall|i: int|
                0 <= i < batch.tasks.len() && (#[trigger] batch.tasks[i]).succeeded
                    ==> batch.tasks[i].item.id != id) ==> #[trigger] lookup(
                batch.catalog.entries,
                id,
            ) == lookup(batch.initial, id),
{
    let done = finished_tasks(batch);
    assert forall|a: int, b: int| 0 <= a < b < done.len() implies (#[trigger] done[a]).item.id
        != (#[trigger] done[b]).item.id by {
        let (i, j) = (batch.completed[a], batch.completed[b]);
        assert(i != j);
        if i < j {
            assert(batch.tasks[i].item.id != batch.tasks[j].item.id);
        } else {
            assert(batch.tasks[j].item.id != batch.tasks[i].item.id);
        }
    }
    lemma_every_success_is_recorded(batch.initial, done);
    assert forall|i: int|
        0 <= i < batch.tasks.len() && (#[trigger] batch.tasks[i]).succeeded implies lookup(
        batch.catalog.entries,
        batch.tasks[i].item.id,
    ) == Some(entry_of(batch.tasks[i].item)) by {
        assert(batch.phases[i] is Finished);
        let k = choose|k: int| 0 <= k < batch.completed.len() && batch.completed[k] == i;
        assert(done[k] == batch.tasks[i]);
    }
    assert forall|id: Seq<char>|
        (forall|i: int|
            0 <= i < batch.tasks.len() && (#[trigger] batch.tasks[i]).succeeded
                ==> batch.tasks[i].item.id != id) implies #[trigger] lookup(
        batch.catalog.entries,
        id,
    ) == lookup(batch.initial, id) by {
        assert forall|k: int|
            0 <= k < done.len() && (#[trigger] done[k]).succeeded implies done[k].item.id
            != id by {
            assert(done[k] == batch.tasks[batch.completed[k]]);
        }
    }
}

/// No two tasks of a batch for different addons write to the same file.
pub proof fn lemma_batch_files_distinct(batch: Batch)
    requires
        batch_inv(batch),
        distinct_items(batch.tasks),
    ensures
        forall|i: int, j: int|
            0 <= i < j < batch.tasks.len() ==> (#[trigger] batch.tasks[i]).destination
                != (#[trigger] batch.tasks[j]).destination,
{
    assert forall|i: int, j: int| 0 <= i < j < batch.tasks.len() implies (#[trigger] batch.tasks[i])
        .destination != (#[trigger] batch.tasks[j]).destination by {
        if batch.tasks[i].destination == batch.tasks[j].destination {
            lemma_file_name_injective(batch.tasks[i].item.id, batch.tasks[j].item.id);
        }
    }
}

/// A batch that starts from a catalog without duplicates keeps it without
/// duplicates in every state that it can reach, in memory and on stable
/// storage.
pub proof fn lemma_batch_keeps_unique(batch: Batch)
    requires
        batch_inv(batch),
        unique_ids(batch.initial),
    ensures
        unique_ids(batch.catalog.entries),
        unique_ids(stored_entries(batch)),
{
    lemma_reconcile_all_keeps_unique(batch.initial, finished_tasks(batch));
    lemma_reconcile_all_keeps_unique(
        batch.initial,
        finished_tasks(batch).take(batch.saved as int),
    );
}

/// A batch of downloads and the catalog that it updates.
///
/// The batch owns the catalog while it runs: nothing else changes it between
/// the first start and the last completion.
pub struct DownloadBatch {
    catalog: Config,
    tasks: Vec<DownloadTask>,
    phases: Vec<Phase>,
    limit: usize,
    started: usize,
    active: usize,
    completed: Vec<usize>,
    succeeded: usize,
    received: u64,
    saved: usize,
    dirty: bool,
    pending: bool,
    initial: Ghost<Seq<OwnedEntry>>,
}

impl View for DownloadBatch {
    type V = Batch;

    closed spec fn view(&self) -> Batch {
        Batch {
            tasks: tasks_of(self.tasks@),
            phases: self.phases@,
            limit: self.limit as nat,
            completed: self.completed@.map_values(|i: usize| i as int),
            initial: self.initial@,
            catalog: self.catalog@,
            saved: self.saved as nat,
            pending: self.pending,
        }
    }
}

impl DownloadBatch {
    /// The batch is in a state that it can reach: `batch_inv` holds of its
    /// value, and its counters agree with it.
    pub closed spec fn wf(&self) -> bool {
        &&& batch_inv(self@)
        &&& self.started <= self.tasks.len()
        &&& forall|i: int|
            0 <= i < self.phases.len() ==> (#[trigger] self.phases[i] is Queued <==> i
                >= self.started)
        &&& self.active == in_flight(self.phases@)
        &&& self.succeeded == successes(self@.tasks)
        &&& self.received == bytes_written(self@.tasks)
        &&& self.dirty == write_due(self@)
    }

    /// What `wf` says of the value of the batch.
    pub proof fn lemma_wf(&self)
        requires
            self.wf(),
        ensures
            batch_inv(self@),
    {
    }

    /// A batch that downloads `items`, at most `limit` at a time, and records
    /// what it obtains in `catalog`. No task has started.
    pub fn new(catalog: Config, items: &[WorkshopItem], limit: usize) -> (batch: DownloadBatch)
        ensures
            batch.wf(),
            batch@ == fresh_batch(catalog@, items_of(items@), limit as nat),
    {
        let ghost initial = catalog@.entries;
        let mut tasks: Vec<DownloadTask> = Vec::new();
        let mut phases: Vec<Phase> = Vec::new();
        let mut i: usize = 0;
        while i < items.len()
            invariant
                i <= items.len(),
                tasks@.len() == i,
                phases@.len() == i,
                forall|k: int| 0 <= k < i ==> (#[trigger] tasks@[k])@ == fresh_task(items@[k]@),
                forall|k: int| 0 <= k < i ==> #[trigger] phases@[k] == Phase::Queued,
            decreases items.len() - i,
        {
            tasks.push(DownloadTask::new(&items[i]));
            phases.push(Phase::Queued);
            i += 1;
        }
        let batch = DownloadBatch {
            catalog,
            tasks,
            phases,
            limit,
            started: 0,
            active: 0,
            completed: Vec::new(),
            succeeded: 0,
            received: 0,
            saved: 0,
            dirty: false,
            pending: false,
            initial: Ghost(initial),
        };
        proof {
            let fresh = fresh_batch(catalog@, items_of(items@), limit as nat);
            assert(batch@.tasks =~= fresh.tasks);
            assert(batch@.phases =~= fresh.phases);
            assert(batch@.completed =~= fresh.completed);
            lemma_count_none(batch@.phases, Phase::Active);
            lemma_count_none(batch@.phases, Phase::Finished);
            lemma_successes_none(batch@.tasks);
            lemma_bytes_written_none(batch@.tasks);
            assert(finished_tasks(batch@) =~= Seq::<Task>::empty());
        }
        batch
    }

    /// Starts the next task if a slot is free: the first task, in the order
    /// of submission, that is still waiting. The caller then opens the
    /// destination file and issues the request for that task.
    pub fn start_next(&mut self) -> (next: Option<usize>)
        requires
            old(self).wf(),
        ensures
            final(self).wf(),
            next is Some <==> can_start(old(self)@),
            next matches Some(i) ==> {
                &&& i < old(self)@.phases.len()
                &&& old(self)@.phases[i as int] is Queued
                &&& forall|j: int| 0 <= j < i ==> !(#[trigger] old(self)@.phases[j] is Queued)
                &&& final(self)@ == after_start(old(self)@, i as int)
            },
            next is None ==> final(self)@ == old(self)@,
    {
        if self.active >= self.limit || self.started >= self.tasks.len() {
            return None;
        }
        let i = self.started;
        assert(self.phases@[i as int] is Queued);
        self.phases[i] = Phase::Active;
        self.started = i + 1;
        self.active = self.active + 1;
        proof {
            let before = old(self)@;
            let after = self@;
            lemma_count_update(before.phases, i as int, Phase::Active, Phase::Active);
            lemma_count_update(before.phases, i as int, Phase::Active, Phase::Finished);
            assert(after.phases =~= before.phases.update(i as int, Phase::Active));
            assert(after.completed =~= before.completed);
            assert(finished_tasks(after) =~= finished_tasks(before));
            assert forall|k: int|
                0 <= k < after.tasks.len() && #[trigger] after.phases[k] is Finished implies
                after.completed.contains(k) by {
                assert(before.phases[k] is Finished);
            }
            assert(after == after_start(before, i as int));
        }
        Some(i)
    }

    /// Records that `len` more bytes were received for the task `task` and
    /// written to its file.
    pub fn record_chunk(&mut self, task: usize, len: usize) -> (res: Result<(), BatchError>)
        requires
            old(self).wf(),
        ensures
            final(self).wf(),
            res == match chunk_refusal(old(self)@, task as int, len as nat) {
                Some(e) => Err::<(), BatchError>(e),
                None => Ok(()),
            },
            res is Err ==> final(self)@ == old(self)@,
            res is Ok ==> final(self)@ == after_chunk(old(self)@, task as int, len as nat),
    {
        if task >= self.tasks.len() {
            return Err(BatchError::UnknownTask);
        }
        match self.phases[task] {
            Phase::Active => {},
            _ => {
                return Err(BatchError::NotActive);
            },
        }
        let more = len as u64;
        if more > u64::MAX - self.received {
            return Err(BatchError::CounterOverflow);
        }
        proof {
            lemma_bytes_written_bound(self@.tasks, task as int);
        }
        let written = self.tasks[task].bytes_written + more;
        self.tasks[task].bytes_written = written;
        self.received = self.received + more;
        proof {
            let before = old(self)@;
            let after = self@;
            let changed = Task {
                bytes_written: before.tasks[task as int].bytes_written + len as nat,
                ..before.tasks[task as int]
            };
            assert(after.tasks =~= before.tasks.update(task as int, changed));
            assert(after.completed =~= before.completed);
            lemma_bytes_written_update(before.tasks, task as int, changed);
            lemma_successes_update(before.tasks, task as int, changed);
            assert(finished_tasks(after) =~= finished_tasks(before));
        }
        Ok(())
    }

    /// Records that the transfer of the task `task` has ended with `outcome`,
    /// and folds the task into the catalog. For `Outcome::Completed` the
    /// caller has flushed the destination file before it reports.
    ///
    /// A task finishes at most once: a second report for it is refused. The
    /// answer says whether the catalog has to be written to stable storage
    /// now. Where it has, the batch folds in no other task before
    /// `record_persist` has told it how the write went: finished tasks are
    /// folded in and written one after the other.
    pub fn finish(&mut self, task: usize, outcome: Outcome) -> (res: Result<
        Completion,
        BatchError,
    >)
        requires
            old(self).wf(),
        ensures
            final(self).wf(),
            res is Ok <==> finish_refusal(old(self)@, task as int) is None,
            res matches Err(e) ==> finish_refusal(old(self)@, task as int) == Some(e)
                && final(self)@ == old(self)@,
            res matches Ok(done) ==> {
                &&& final(self)@ == after_finish(old(self)@, task as int, outcome)
                &&& done.task == task
                &&& done.succeeded == (outcome is Completed)
                &&& done.bytes_written == old(self)@.tasks[task as int].bytes_written
                &&& done.persist == (outcome is Completed)
            },
            !(outcome is Completed) ==> final(self)@.catalog == old(self)@.catalog,
            stored_entries(final(self)@) == stored_entries(old(self)@),
    {
        if task >= self.tasks.len() {
            return Err(BatchError::UnknownTask);
        }
        match self.phases[task] {
            Phase::Active => {},
            _ => {
                return Err(BatchError::NotActive);
            },
        }
        if self.pending {
            return Err(BatchError::PersistPending);
        }
        let succeeded = match outcome {
            Outcome::Completed => true,
            _ => false,
        };
        proof {
            lemma_count_positive(self@.phases, task as int, Phase::Active);
            lemma_successes_bound(self@.tasks);
        }
        self.tasks[task].succeeded = succeeded;
        self.phases[task] = Phase::Finished;
        self.completed.push(task);
        self.active = self.active - 1;
        if succeeded {
            proof {
                lemma_successes_update(
                    old(self)@.tasks,
                    task as int,
                    ended(old(self)@.tasks[task as int], outcome),
                );
                lemma_successes_bound(old(self)@.tasks.update(
                    task as int,
                    ended(old(self)@.tasks[task as int], outcome),
                ));
            }
            self.succeeded = self.succeeded + 1;
            self.dirty = true;
            self.pending = true;
        }
        let persist = on_task_complete(&mut self.catalog, &self.tasks[task]);
        let bytes_written = self.tasks[task].bytes_written;
        proof {
            let before = old(self)@;
            let after = self@;
            let done = ended(before.tasks[task as int], outcome);
            assert(after.tasks =~= before.tasks.update(task as int, done));
            assert(after.phases =~= before.phases.update(task as int, Phase::Finished));
            assert(after.completed =~= before.completed.push(task as int));
            lemma_count_update(before.phases, task as int, Phase::Finished, Phase::Active);
            lemma_count_update(before.phases, task as int, Phase::Finished, Phase::Finished);
            lemma_successes_update(before.tasks, task as int, done);
            lemma_bytes_written_update(before.tasks, task as int, done);
            assert(!before.completed.contains(task as int));
            assert(finished_tasks(after) =~= finished_tasks(before).push(done));
            assert(finished_tasks(after).drop_last() =~= finished_tasks(before));
            assert(finished_tasks(after).take(after.saved as int) =~= finished_tasks(before).take(
                before.saved as int,
            ));
            if write_due(before) {
                let k = choose|k: int|
                    before.saved <= k < before.completed.len() && (#[trigger] finished_tasks(
                        before,
                    )[k]).succeeded;
                assert(finished_tasks(after)[k].succeeded);
            }
            if done.succeeded {
                assert(finished_tasks(after)[before.completed.len() as int].succeeded);
            }
            if write_due(after) {
                let k = choose|k: int|
                    after.saved <= k < after.completed.len() && (#[trigger] finished_tasks(
                        after,
                    )[k]).succeeded;
                if k < before.completed.len() {
                    assert(finished_tasks(before)[k].succeeded);
                }
            }
            assert forall|k: int|
                0 <= k < after.tasks.len() && #[trigger] after.phases[k] is Finished implies
                after.completed.contains(k) by {
                if k == task {
                    assert(after.completed[after.completed.len() - 1] == k);
                } else {
                    assert(before.phases[k] is Finished);
                    let at = choose|at: int|
                        0 <= at < before.completed.len() && before.completed[at] == k;
                    assert(after.completed[at] == k);
                }
            }
            assert(after == after_finish(before, task as int, outcome));
        }
        Ok(Completion { task, succeeded, bytes_written, persist })
    }

    /// Records how the write of the catalog went that the caller has just
    /// attempted. A write that succeeded has put the catalog as it stands on
    /// stable storage; one that failed has changed nothing there, and the
    /// catalog in memory stays ahead until a later write succeeds. Either
    /// way the batch goes on.
    pub fn record_persist(&mut self, written: bool)
        requires
            old(self).wf(),
        ensures
            final(self).wf(),
            final(self)@ == after_persist(old(self)@, written),
            written ==> stored_entries(final(self)@) == final(self)@.catalog.entries,
            !written ==> stored_entries(final(self)@) == stored_entries(old(self)@),
    {
        self.pending = false;
        proof {
            assert(self@.completed =~= old(self)@.completed);
            assert(self@.tasks =~= old(self)@.tasks);
            assert(finished_tasks(self@) =~= finished_tasks(old(self)@));
        }
        if written {
            self.saved = self.completed.len();
            self.dirty = false;
            proof {
                assert(self@.completed =~= old(self)@.completed);
                assert(self@.tasks =~= old(self)@.tasks);
                assert(finished_tasks(self@) =~= finished_tasks(old(self)@));
                assert(finished_tasks(self@).take(self@.saved as int) =~= finished_tasks(self@));
            }
        }
    }

    /// Whether the catalog has changed since it was last written to stable
    /// storage.
    pub fn persist_due(&self) -> (due: bool)
        requires
            self.wf(),
        ensures
            due == write_due(self@),
            !due ==> stored_entries(self@) == self@.catalog.entries,
    {
        proof {
            if !self.dirty {
                lemma_failures_change_nothing(
                    self@.initial,
                    finished_tasks(self@),
                    self@.saved as int,
                );
            }
        }
        self.dirty
    }

    /// How many tasks the batch has.
    pub fn total(&self) -> (n: usize)
        ensures
            n == self@.tasks.len(),
    {
        self.tasks.len()
    }

    /// How many tasks may be in flight at once.
    pub fn limit(&self) -> (n: usize)
        ensures
            n == self@.limit,
    {
        self.limit
    }

    /// How many tasks are in flight: never more than the limit.
    pub fn in_flight(&self) -> (n: usize)
        requires
            self.wf(),
        ensures
            n == in_flight(self@.phases),
            n <= self@.limit,
    {
        self.active
    }

    /// How many tasks have finished, with success or without.
    pub fn finished(&self) -> (n: usize)
        ensures
            n == self@.completed.len(),
    {
        self.completed.len()
    }

    /// How many tasks have succeeded.
    pub fn succeeded(&self) -> (n: usize)
        requires
            self.wf(),
        ensures
            n == successes(self@.tasks),
    {
        self.succeeded
    }

    /// How many bytes have been written, over all tasks.
    pub fn received(&self) -> (n: u64)
        requires
            self.wf(),
        ensures
            n == bytes_written(self@.tasks),
    {
        self.received
    }

    /// Whether every task has finished.
    pub fn is_done(&self) -> (done: bool)
        requires
            self.wf(),
        ensures
            done == (self@.completed.len() == self@.tasks.len()),
            done <==> forall|i: int| 0 <= i < self@.phases.len() ==> self@.phases[i] is Finished,
    {
        proof {
            lemma_count_full(self@.phases, Phase::Finished);
        }
        self.completed.len() == self.tasks.len()
    }

    /// The task with the number `task`, if there is one.
    pub fn task(&self, task: usize) -> (found: Option<&DownloadTask>)
        ensures
            found is Some <==> task < self@.tasks.len(),
            found matches Some(t) ==> t@ == self@.tasks[task as int],
    {
        if task < self.tasks.len() {
            Some(&self.tasks[task])
        } else {
            None
        }
    }

    /// Where the task with the number `task` stands, if there is one.
    pub fn phase(&self, task: usize) -> (found: Option<Phase>)
        ensures
            found is Some <==> task < self@.phases.len(),
            found matches Some(p) ==> p == self@.phases[task as int],
    {
        if task < self.phases.len() {
            Some(self.phases[task])
        } else {
            None
        }
    }

    /// The numbers of the finished tasks, in the order in which they
    /// finished.
    pub fn completion_order(&self) -> (order: &Vec<usize>)
        ensures
            order@.map_values(|i: usize| i as int) == self@.completed,
    {
        &self.completed
    }

    /// The catalog as it stands, for writing it to stable storage.
    pub fn catalog(&self) -> (catalog: &Config)
        ensures
            catalog@ == self@.catalog,
    {
        &self.catalog
    }

    /// Ends the batch and hands the catalog back.
    pub fn into_catalog(self) -> (catalog: Config)
        ensures
            catalog@ == self@.catalog,
    {
        self.catalog
    }
}

/// A phase that does not occur is not counted.
pub proof fn lemma_count_none(phases: Seq<Phase>, phase: Phase)
    requires
        forall|i: int| 0 <= i < phases.len() ==> #[trigger] phases[i] != phase,
    ensures
        count_of(phases, phase) == 0,
    decreases phases.len(),
{
    if phases.len() > 0 {
        lemma_count_none(phases.drop_last(), phase);
    }
}

/// Changing one phase changes each count by that phase alone.
pub proof fn lemma_count_update(phases: Seq<Phase>, i: int, new: Phase, phase: Phase)
    requires
        0 <= i < phases.len(),
    ensures
        count_of(phases.update(i, new), phase) + (if phases[i] == phase {
            1nat
        } else {
            0nat
        }) == count_of(phases, phase) + (if new == phase {
            1nat
        } else {
            0nat
        }),
    decreases phases.len(),
{
    let after = phases.update(i, new);
    if i == phases.len() - 1 {
        assert(after.drop_last() =~= phases.drop_last());
    } else {
        lemma_count_update(phases.drop_last(), i, new, phase);
        assert(after.drop_last() =~= phases.drop_last().update(i, new));
    }
}

/// A phase that occurs is counted.
pub proof fn lemma_count_positive(phases: Seq<Phase>, i: int, phase: Phase)
    requires
        0 <= i < phases.len(),
        phases[i] == phase,
    ensures
        count_of(phases, phase) >= 1,
    decreases phases.len(),
{
    if i < phases.len() - 1 {
        lemma_count_positive(phases.drop_last(), i, phase);
    }
}

/// A phase is counted as often as there are tasks exactly when every task is
/// in it.
pub proof fn lemma_count_full(phases: Seq<Phase>, phase: Phase)
    ensures
        count_of(phases, phase) <= phases.len(),
        count_of(phases, phase) == phases.len() <==> forall|i: int|
            0 <= i < phases.len() ==> phases[i] == phase,
    decreases phases.len(),
{
    if phases.len() > 0 {
        let rest = phases.drop_last();
        lemma_count_full(rest, phase);
        if count_of(phases, phase) == phases.len() {
            assert forall|i: int| 0 <= i < phases.len() implies phases[i] == phase by {
                if i < rest.len() {
                    assert(rest[i] == phase);
                }
            }
        }
        if forall|i: int| 0 <= i < phases.len() ==> phases[i] == phase {
            assert forall|i: int| 0 <= i < rest.len() implies rest[i] == phase by {
                assert(phases[i] == phase);
            }
        }
    }
}

/// Every task is waiting, in flight or finished.
pub proof fn lemma_counts_add_up(phases: Seq<Phase>)
    ensures
        count_of(phases, Phase::Queued) + count_of(phases, Phase::Active) + count_of(
            phases,
            Phase::Finished,
        ) == phases.len(),
    decreases phases.len(),
{
    if phases.len() > 0 {
        lemma_counts_add_up(phases.drop_last());
    }
}

/// Where no task has succeeded, none is counted.
pub proof fn lemma_successes_none(tasks: Seq<Task>)
    requires
        forall|i: int| 0 <= i < tasks.len() ==> !(#[trigger] tasks[i]).succeeded,
    ensures
        successes(tasks) == 0,
    decreases tasks.len(),
{
    if tasks.len() > 0 {
        lemma_successes_none(tasks.drop_last());
    }
}

/// Changing one task changes the count of successes by that task alone.
pub proof fn lemma_successes_update(tasks: Seq<Task>, i: int, task: Task)
    requires
        0 <= i < tasks.len(),
    ensures
        successes(tasks.update(i, task)) + (if tasks[i].succeeded {
            1nat
        } else {
            0nat
        }) == successes(tasks) + (if task.succeeded {
            1nat
        } else {
            0nat
        }),
    decreases tasks.len(),
{
    let after = tasks.update(i, task);
    if i == tasks.len() - 1 {
        assert(after.drop_last() =~= tasks.drop_last());
    } else {
        lemma_successes_update(tasks.drop_last(), i, task);
        assert(after.drop_last() =~= tasks.drop_last().update(i, task));
    }
}

/// Where no task has written anything, nothing is counted.
pub proof fn lemma_bytes_written_none(tasks: Seq<Task>)
    requires
        forall|i: int| 0 <= i < tasks.len() ==> (#[trigger] tasks[i]).bytes_written == 0,
    ensures
        bytes_written(tasks) == 0,
    decreases tasks.len(),
{
    if tasks.len() > 0 {
        lemma_bytes_written_none(tasks.drop_last());
    }
}

/// Changing one task changes the count of bytes by that task alone.
pub proof fn lemma_bytes_written_update(tasks: Seq<Task>, i: int, task: Task)
    requires
        0 <= i < tasks.len(),
    ensures
        bytes_written(tasks.update(i, task)) + tasks[i].bytes_written == bytes_written(tasks)
            + task.bytes_written,
    decreases tasks.len(),
{
    let after = tasks.update(i, task);
    if i == tasks.len() - 1 {
        assert(after.drop_last() =~= tasks.drop_last());
    } else {
        lemma_bytes_written_update(tasks.drop_last(), i, task);
        assert(after.drop_last() =~= tasks.drop_last().update(i, task));
    }
}

proof fn lemma_successes_bound(tasks: Seq<Task>)
    ensures
        successes(tasks) <= tasks.len(),
    decreases tasks.len(),
{
    if tasks.len() > 0 {
        lemma_successes_bound(tasks.drop_last());
    }
}

/// No task has written more than all tasks together.
pub proof fn lemma_bytes_written_bound(tasks: Seq<Task>, i: int)
    requires
        0 <= i < tasks.len(),
    ensures
        tasks[i].bytes_written <= bytes_written(tasks),
    decreases tasks.len(),
{
    if i < tasks.len() - 1 {
        lemma_bytes_written_bound(tasks.drop_last(), i);
    }
}

} // verus!
