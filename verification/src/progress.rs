//! What a batch shows of its progress.
//!
//! A batch tells whoever shows its progress what happens: a task has
//! started, bytes have been written, a task has completed. The sink only
//! watches: it keeps the numbers that a display needs, and nothing that it
//! does goes back into the batch.

use vstd::prelude::*;

use crate::download::{
    after_chunk, after_finish, after_start, batch_inv, bytes_written, chunk_refusal, count_of,
    ended, fresh_batch, lemma_bytes_written_bound, lemma_bytes_written_none,
    lemma_bytes_written_update, lemma_count_none, lemma_count_positive, lemma_count_update,
    lemma_counts_add_up, lemma_successes_none, lemma_successes_update, report_refusal, successes,
    Batch, Outcome, Phase, Task,
};
use crate::meta::Catalog;
use crate::workshop::RemoteItem;

verus! {

/// What a batch tells the sink.
#[derive(Clone, Copy, PartialEq, Eq, Debug)]
pub enum ProgressEvent {
    /// The task has started.
    TaskStarted { task: usize },
    /// So many more bytes of the task have been written.
    BytesAdvanced { task: usize, delta: usize },
    /// The task has completed, with success or without.
    TaskCompleted { task: usize, succeeded: bool },
}

/// The mathematical value of what a sink shows.
pub ghost struct Shown {
    /// How many tasks the batch has.
    pub total: nat,
    /// How many of them have started.
    pub started: nat,
    /// How many have completed.
    pub completed: nat,
    /// How many have completed with success.
    pub succeeded: nat,
    /// How many bytes have been written, for each task.
    pub bytes: Seq<nat>,
    /// How many bytes have been written, over all tasks.
    pub received: nat,
}

/// What a sink shows before anything has happened.
pub open spec fn nothing_shown(total: nat) -> Shown {
    Shown {
        total,
        started: 0,
        completed: 0,
        succeeded: 0,
        bytes: Seq::new(total, |i: int| 0nat),
        received: 0,
    }
}

/// Whether the sink takes the event in. It passes over an event that cannot
/// come from its batch: a start when every task has started, a completion
/// when no task is in flight, bytes for a task that the batch does not have,
/// and bytes beyond what its counters hold.
pub open spec fn takes_in(shown: Shown, event: ProgressEvent) -> bool {
    match event {
        ProgressEvent::TaskStarted { task } => shown.started < shown.total,
        ProgressEvent::BytesAdvanced { task, delta } => {
            &&& task < shown.bytes.len()
            &&& shown.bytes[task as int] + delta <= u64::MAX
            &&& shown.received + delta <= u64::MAX
        },
        ProgressEvent::TaskCompleted { task, succeeded } => shown.completed < shown.started,
    }
}

/// What a sink shows after `event`.
pub open spec fn after_event(shown: Shown, event: ProgressEvent) -> Shown {
    if !takes_in(shown, event) {
        shown
    } else {
        match event {
            ProgressEvent::TaskStarted { task } => Shown { started: shown.started + 1, ..shown },
            ProgressEvent::BytesAdvanced { task, delta } => Shown {
                bytes: shown.bytes.update(task as int, shown.bytes[task as int] + delta as nat),
                received: shown.received + delta as nat,
                ..shown
            },
            ProgressEvent::TaskCompleted { task, succeeded } => Shown {
                completed: shown.completed + 1,
                succeeded: if succeeded {
                    shown.succeeded + 1
                } else {
                    shown.succeeded
                },
                ..shown
            },
        }
    }
}

/// What a sink that has watched `batch` from its start shows of it.
pub open spec fn shown_of(batch: Batch) -> Shown {
    Shown {
        total: batch.tasks.len(),
        started: count_of(batch.phases, Phase::Active) + count_of(batch.phases, Phase::Finished),
        completed: count_of(batch.phases, Phase::Finished),
        succeeded: successes(batch.tasks),
        bytes: batch.tasks.map_values(|t: Task| t.bytes_written),
        received: bytes_written(batch.tasks),
    }
}

/// A sink that has been told nothing shows the batch as it is made.
pub proof fn lemma_nothing_is_shown(catalog: Catalog, items: Seq<RemoteItem>, limit: nat)
    ensures
        nothing_shown(items.len()) == shown_of(fresh_batch(catalog, items, limit)),
{
    let batch = fresh_batch(catalog, items, limit);
    lemma_count_none(batch.phases, Phase::Active);
    lemma_count_none(batch.phases, Phase::Finished);
    lemma_successes_none(batch.tasks);
    lemma_bytes_written_none(batch.tasks);
    assert(shown_of(batch).bytes =~= nothing_shown(items.len()).bytes);
}

/// A sink that is told of a start shows the batch as it is after the start.
pub proof fn lemma_start_is_shown(batch: Batch, task: usize)
    requires
        batch_inv(batch),
        task < batch.phases.len(),
        batch.phases[task as int] is Queued,
    ensures
        after_event(shown_of(batch), ProgressEvent::TaskStarted { task }) == shown_of(
            after_start(batch, task as int),
        ),
{
    lemma_counts_add_up(batch.phases);
    lemma_count_positive(batch.phases, task as int, Phase::Queued);
    lemma_count_update(batch.phases, task as int, Phase::Active, Phase::Active);
    lemma_count_update(batch.phases, task as int, Phase::Active, Phase::Finished);
}

/// A sink that is told of written bytes shows the batch as it is with them.
pub proof fn lemma_chunk_is_shown(batch: Batch, task: usize, len: usize)
    requires
        batch_inv(batch),
        chunk_refusal(batch, task as int, len as nat) is None,
    ensures
        after_event(shown_of(batch), ProgressEvent::BytesAdvanced { task, delta: len })
            == shown_of(after_chunk(batch, task as int, len as nat)),
{
    let changed = Task {
        bytes_written: batch.tasks[task as int].bytes_written + len as nat,
        ..batch.tasks[task as int]
    };
    lemma_bytes_written_bound(batch.tasks, task as int);
    lemma_bytes_written_update(batch.tasks, task as int, changed);
    lemma_successes_update(batch.tasks, task as int, changed);
    assert(shown_of(after_chunk(batch, task as int, len as nat)).bytes =~= shown_of(
        batch,
    ).bytes.update(task as int, changed.bytes_written));
}

/// A sink that is told of a completion shows the batch as it is after it.
pub proof fn lemma_finish_is_shown(batch: Batch, task: usize, outcome: Outcome)
    requires
        batch_inv(batch),
        report_refusal(batch, task as int) is None,
    ensures
        after_event(
            shown_of(batch),
            ProgressEvent::TaskCompleted { task, succeeded: outcome is Completed },
        ) == shown_of(after_finish(batch, task as int, outcome)),
{
    let done = ended(batch.tasks[task as int], outcome);
    lemma_count_positive(batch.phases, task as int, Phase::Active);
    lemma_count_update(batch.phases, task as int, Phase::Finished, Phase::Active);
    lemma_count_update(batch.phases, task as int, Phase::Finished, Phase::Finished);
    lemma_successes_update(batch.tasks, task as int, done);
    lemma_bytes_written_update(batch.tasks, task as int, done);
    assert(shown_of(after_finish(batch, task as int, outcome)).bytes =~= shown_of(batch).bytes);
}

/// The numbers that a display of a batch needs.
pub struct Progress {
    total: usize,
    started: usize,
    completed: usize,
    succeeded: usize,
    bytes: Vec<u64>,
    received: u64,
}

impl View for Progress {
    type V = Shown;

    closed spec fn view(&self) -> Shown {
        Shown {
            total: self.total as nat,
            started: self.started as nat,
            completed: self.completed as nat,
            succeeded: self.succeeded as nat,
            bytes: self.bytes@.map_values(|b: u64| b as nat),
            received: self.received as nat,
        }
    }
}

impl Progress {
    #[verifier::type_invariant]
    spec fn inv(&self) -> bool {
        &&& self.bytes@.len() == self.total
        &&& self.succeeded <= self.completed <= self.started <= self.total
    }

    /// A sink for a batch of `total` tasks, before anything has happened.
    pub fn new(total: usize) -> (progress: Progress)
        ensures
            progress@ == nothing_shown(total as nat),
    {
        let mut bytes: Vec<u64> = Vec::new();
        let mut i: usize = 0;
        while i < total
            invariant
                i <= total,
                bytes@.len() == i,
                forall|k: int| 0 <= k < i ==> bytes@[k] == 0,
            decreases total - i,
        {
            bytes.push(0);
            i += 1;
        }
        let progress =
            Progress { total, started: 0, completed: 0, succeeded: 0, bytes, received: 0 };
        assert(progress@.bytes =~= nothing_shown(total as nat).bytes);
        progress
    }

    /// Takes in what the batch tells.
    pub fn accept(&mut self, event: ProgressEvent)
        ensures
            final(self)@ == after_event(old(self)@, event),
    {
        proof {
            use_type_invariant(&*self);
        }
        match event {
            ProgressEvent::TaskStarted { task } => {
                if self.started < self.total {
                    self.started = self.started + 1;
                }
            },
            ProgressEvent::BytesAdvanced { task, delta } => {
                if task < self.bytes.len() {
                    let more = delta as u64;
                    let written = self.bytes[task];
                    if more <= u64::MAX - written && more <= u64::MAX - self.received {
                        self.bytes[task] = written + more;
                        self.received = self.received + more;
                        assert(self@.bytes =~= old(self)@.bytes.update(
                            task as int,
                            old(self)@.bytes[task as int] + delta as nat,
                        ));
                    }
                }
            },
            ProgressEvent::TaskCompleted { task, succeeded } => {
                if self.completed < self.started {
                    self.completed = self.completed + 1;
                    if succeeded {
                        self.succeeded = self.succeeded + 1;
                    }
                }
            },
        }
    }

    /// How many tasks the batch has.
    pub fn total(&self) -> (n: usize)
        ensures
            n == self@.total,
    {
        self.total
    }

    /// How many tasks have started.
    pub fn started(&self) -> (n: usize)
        ensures
            n == self@.started,
    {
        self.started
    }

    /// How many tasks have completed.
    pub fn completed(&self) -> (n: usize)
        ensures
            n == self@.completed,
    {
        self.completed
    }

    /// How many tasks have completed with success.
    pub fn succeeded(&self) -> (n: usize)
        ensures
            n == self@.succeeded,
    {
        self.succeeded
    }

    /// How many tasks are in flight.
    pub fn in_flight(&self) -> (n: usize)
        ensures
            n == self@.started - self@.completed,
    {
        proof {
            use_type_invariant(self);
        }
        self.started - self.completed
    }

    /// How many bytes have been written, over all tasks.
    pub fn received(&self) -> (n: u64)
        ensures
            n == self@.received,
    {
        self.received
    }

    /// How many bytes of the task `task` have been written, if the batch has
    /// such a task.
    pub fn written(&self, task: usize) -> (n: Option<u64>)
        ensures
            n is Some <==> task < self@.bytes.len(),
            n matches Some(b) ==> b == self@.bytes[task as int],
    {
        if task < self.bytes.len() {
            Some(self.bytes[task])
        } else {
            None
        }
    }
}

} // verus!
