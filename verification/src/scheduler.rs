//! The scheduler's decisions: which nonce sub-range goes to which worker,
//! when a buffer is full, and what a stop request does to it.
//!
//! The scheduler owns no thread and no channel.  Its caller hands it the
//! size of each empty buffer and every worker message, and carries out what
//! it answers.
use crate::hasher::NONCE_SIZE;
use crate::poc_hashing::{
    cache_with,
    capacity,
    lemma_batch_in_parts,
    lemma_cell,
    noncegen_rust,
    scoop_of,
    slot_of,
};
use crate::writer::{written, Writer};
use vstd::prelude::*;

verus! {

/// Nonces in one sub-range for a CPU worker.
pub const CPU_TASK_SIZE: u64 = 64;

/// Identifier of the CPU worker pool; accelerators count from 1.
pub const CPU_WORKER: u8 = 0;

/// Message kind: the worker has written `count` nonces into the buffer.
pub const KIND_COMPLETED: u8 = 0;

/// Message kind: the worker is ready for its next sub-range.
pub const KIND_READY: u8 = 1;

/// One sub-range of a buffer fill, as handed to a worker: where in the buffer
/// the nonces go, and which nonces they are.
#[derive(Clone, Copy, Debug, PartialEq, Eq, Structural)]
pub struct WorkerTask {
    /// The worker the sub-range is for.
    pub worker: u8,
    /// Nonces that the buffer holds.
    pub cache_size: u64,
    /// Slot of the sub-range's first nonce.
    pub chunk_offset: u64,
    /// The account.
    pub numeric_id: u64,
    /// Index of the sub-range's first nonce.
    pub local_startnonce: u64,
    /// Nonces in the sub-range.
    pub local_nonces: u64,
}

/// What a worker tells the scheduler.
#[derive(Clone, Copy, Debug, PartialEq, Eq, Structural)]
pub struct Message {
    pub worker: u8,
    pub kind: u8,
    pub count: u64,
}

/// The scheduler's answer to a message.
#[derive(Clone, Copy, Debug, PartialEq, Eq, Structural)]
pub enum Reaction {
    /// A stop was requested: the fill is given up.
    Stopped,
    /// The sub-range to hand to the worker that asked.
    Dispatch(WorkerTask),
    /// The worker asked for more, and nothing is left to hand out.
    NoWork,
    /// Nonces were completed; `hashed` nonces of the run are done so far.
    Progress { hashed: u64 },
    /// Nonces were completed and the buffer is full.
    Full { hashed: u64 },
    /// The message has an unknown kind or worker, or reports more nonces
    /// than are outstanding; nothing changed.
    Ignored,
}

/// What becomes of the buffer at the end of a fill.
#[derive(Clone, Copy, Debug, PartialEq, Eq, Structural)]
pub enum Handoff {
    /// The buffer goes to the writer, which is to write nothing from it.
    Abandon,
    /// The buffer goes to the writer with `nonces` nonces to write; `last`
    /// says that the run is complete and the workers can be dismissed.
    Forward { nonces: u64, last: bool },
}

/// The scheduler as a mathematical value.
pub struct SchedulerView {
    pub numeric_id: u64,
    pub start_nonce: u64,
    /// Nonces in the run.
    pub nonces: int,
    pub cpu_threads: int,
    /// Worksize of each accelerator; accelerator `i` has identifier `i + 1`.
    pub worksizes: Seq<u64>,
    /// Nonces of the run in buffers that were forwarded.
    pub nonces_hashed: int,
    /// Whether a buffer is being filled.
    pub filling: bool,
    /// Nonces that the buffer being filled holds.
    pub cache_size: int,
    /// Nonces that this fill is to produce.
    pub nonces_to_hash: int,
    /// Nonces handed out in this fill.
    pub requested: int,
    /// Nonces reported complete in this fill.
    pub processed: int,
    /// The sub-ranges handed out in this fill, in order.
    pub issued: Seq<WorkerTask>,
}

pub open spec fn min_int(a: int, b: int) -> int {
    if a <= b {
        a
    } else {
        b
    }
}

impl SchedulerView {
    /// Nonces of this fill not yet handed out.
    pub open spec fn remaining(self) -> int {
        self.nonces_to_hash - self.requested
    }

    /// The sub-range of `size` nonces that would be handed out next.
    pub open spec fn task_for(self, worker: u8, size: int) -> WorkerTask {
        WorkerTask {
            worker,
            cache_size: self.cache_size as u64,
            chunk_offset: self.requested as u64,
            numeric_id: self.numeric_id,
            local_startnonce: (self.start_nonce + self.nonces_hashed + self.requested) as u64,
            local_nonces: size as u64,
        }
    }

    /// `task` is the sub-range that starts at slot `from` of this fill.
    pub open spec fn task_fits(self, task: WorkerTask, from: int) -> bool {
        &&& task.cache_size == self.cache_size
        &&& task.numeric_id == self.numeric_id
        &&& task.chunk_offset == from
        &&& task.local_startnonce == self.start_nonce + self.nonces_hashed + from
        &&& task.local_nonces > 0
        &&& from + task.local_nonces <= self.nonces_to_hash
    }

    /// Slot after the last one of the first `n` sub-ranges handed out.
    pub open spec fn issued_end(self, n: int) -> int {
        if n <= 0 {
            0
        } else {
            self.issued[n - 1].chunk_offset + self.issued[n - 1].local_nonces
        }
    }

    /// Sub-range `i` starts where the one before it ends.
    pub open spec fn tile_at(self, i: int) -> bool {
        self.task_fits(self.issued[i], self.issued_end(i))
    }

    /// The sub-ranges handed out follow one another from slot 0 to slot
    /// `requested`, without gap or overlap.
    pub open spec fn issued_tile(self) -> bool {
        &&& forall|i: int| 0 <= i < self.issued.len() ==> #[trigger] self.tile_at(i)
        &&& self.issued_end(self.issued.len() as int) == self.requested
    }

    /// The invariant of the scheduler.
    pub open spec fn wf(self) -> bool {
        &&& 0 <= self.nonces_hashed <= self.nonces <= u64::MAX
        &&& self.start_nonce + self.nonces <= u64::MAX + 1
        &&& 0 <= self.cpu_threads <= u8::MAX
        &&& self.worksizes.len() < u8::MAX
        &&& self.filling ==> {
            &&& 0 < self.cache_size <= u64::MAX
            &&& self.nonces_hashed < self.nonces
            &&& self.nonces_to_hash == min_int(self.cache_size, self.nonces - self.nonces_hashed)
            &&& 0 <= self.processed <= self.requested <= self.nonces_to_hash
            &&& self.issued_tile()
        }
    }

    /// The scheduler after it has taken a buffer of `cache_size` nonces to
    /// fill and before it has handed out anything.
    pub open spec fn opened(self, cache_size: int) -> SchedulerView {
        SchedulerView {
            filling: true,
            cache_size,
            nonces_to_hash: min_int(cache_size, self.nonces - self.nonces_hashed),
            requested: 0,
            processed: 0,
            issued: Seq::empty(),
            ..self
        }
    }

    /// The scheduler after `size` nonces were handed to `worker`; a
    /// sub-range of no nonces is not handed out.
    pub open spec fn issue(self, worker: u8, size: int) -> SchedulerView {
        if size > 0 {
            SchedulerView {
                requested: self.requested + size,
                issued: self.issued.push(self.task_for(worker, size)),
                ..self
            }
        } else {
            self
        }
    }

    /// Size of the sub-range for a CPU worker: `CPU_TASK_SIZE`, or what is
    /// left.
    pub open spec fn cpu_size(self) -> int {
        min_int(CPU_TASK_SIZE as int, self.remaining())
    }

    /// Size of the first sub-range of a fill for an accelerator: its
    /// worksize, or what is left.
    pub open spec fn first_size(self, worksize: int) -> int {
        min_int(worksize, self.remaining())
    }

    /// Size of a later sub-range for an accelerator: as the first, but
    /// halved where less than a worksize is left, CPU workers are active and
    /// more than a CPU sub-range is left, so that the CPU finishes the fill.
    pub open spec fn next_size(self, worksize: int) -> int {
        let size = self.first_size(worksize);
        if size < worksize && self.cpu_threads > 0 && size > CPU_TASK_SIZE {
            size / 2
        } else {
            size
        }
    }

    /// The worker in place `i` of the starting order: the accelerators in
    /// order, then one place for each CPU thread.
    pub open spec fn starter(self, i: int) -> u8 {
        if i < self.worksizes.len() {
            (i + 1) as u8
        } else {
            CPU_WORKER
        }
    }

    /// Size of the sub-range for place `i` of the starting order.
    pub open spec fn starter_size(self, i: int) -> int {
        if i < self.worksizes.len() {
            self.first_size(self.worksizes[i] as int)
        } else {
            self.cpu_size()
        }
    }

    /// The scheduler after the first `n` places of the starting order were
    /// served.
    pub open spec fn prefilled(self, n: nat) -> SchedulerView
        decreases n,
    {
        if n == 0 {
            self
        } else {
            let before = self.prefilled((n - 1) as nat);
            before.issue(before.starter(n - 1), before.starter_size(n - 1))
        }
    }

    /// Places in the starting order.
    pub open spec fn starters(self) -> nat {
        (self.worksizes.len() + self.cpu_threads) as nat
    }

    /// Whether `worker` names the CPU pool or a configured accelerator.
    pub open spec fn knows(self, worker: u8) -> bool {
        worker as int <= self.worksizes.len()
    }

    /// Size of the sub-range that `worker` gets when it asks for more.
    pub open spec fn ready_size(self, worker: u8) -> int {
        if worker == CPU_WORKER {
            self.cpu_size()
        } else {
            self.next_size(self.worksizes[worker - 1] as int)
        }
    }

    /// The scheduler after `count` more nonces were reported complete.
    pub open spec fn complete(self, count: int) -> SchedulerView {
        SchedulerView { processed: self.processed + count, ..self }
    }

    /// The answer to `msg`, and the scheduler after it.
    pub open spec fn react(self, msg: Message, stop: bool) -> (Reaction, SchedulerView) {
        if stop {
            (Reaction::Stopped, self)
        } else if msg.kind == KIND_READY && self.knows(msg.worker) {
            let size = self.ready_size(msg.worker);
            if size > 0 {
                (
                    Reaction::Dispatch(self.task_for(msg.worker, size)),
                    self.issue(msg.worker, size),
                )
            } else {
                (Reaction::NoWork, self)
            }
        } else if msg.kind == KIND_COMPLETED && msg.count <= self.requested - self.processed {
            let after = self.complete(msg.count as int);
            let hashed = (self.nonces_hashed + after.processed) as u64;
            if after.processed == self.nonces_to_hash {
                (Reaction::Full { hashed }, after)
            } else {
                (Reaction::Progress { hashed }, after)
            }
        } else {
            (Reaction::Ignored, self)
        }
    }

    /// Whether every nonce of this fill was reported complete.
    pub open spec fn full(self) -> bool {
        self.filling && self.processed == self.nonces_to_hash
    }

    /// What becomes of the buffer, and the scheduler after the fill.  Only
    /// a full buffer is forwarded, and none after a stop request.
    pub open spec fn finish(self, stop: bool) -> (Handoff, SchedulerView) {
        if stop || !self.full() {
            (Handoff::Abandon, SchedulerView { filling: false, ..self })
        } else {
            let hashed = self.nonces_hashed + self.nonces_to_hash;
            (
                Handoff::Forward { nonces: self.nonces_to_hash as u64, last: hashed == self.nonces },
                SchedulerView { filling: false, nonces_hashed: hashed, ..self },
            )
        }
    }
}

/// Handing out a sub-range keeps the invariant.
pub proof fn lemma_issue_wf(v: SchedulerView, worker: u8, size: int)
    requires
        v.wf(),
        v.filling,
        0 <= size <= v.remaining(),
    ensures
        v.issue(worker, size).wf(),
        size > 0 ==> v.task_fits(v.task_for(worker, size), v.requested),
{
    if size > 0 {
        let w = v.issue(worker, size);
        let t = v.task_for(worker, size);
        assert(v.task_fits(t, v.requested));
        assert forall|i: int| 0 <= i < w.issued.len() implies #[trigger] w.tile_at(i) by {
            if i < v.issued.len() {
                assert(v.tile_at(i));
                assert(w.issued[i] == v.issued[i]);
                assert(w.issued_end(i) == v.issued_end(i));
            } else {
                assert(w.issued[i] == t);
                assert(w.issued_end(i) == v.issued_end(i));
                assert(w.issued_end(i) == v.requested);
            }
        }
    }
}

/// Counting completed nonces keeps the invariant.
pub proof fn lemma_complete_wf(v: SchedulerView, count: int)
    requires
        v.wf(),
        v.filling,
        0 <= count <= v.requested - v.processed,
    ensures
        v.complete(count).wf(),
{
    let w = v.complete(count);
    assert forall|i: int| 0 <= i < w.issued.len() implies #[trigger] w.tile_at(i) by {
        assert(v.tile_at(i));
    }
}

/// After a stop request the scheduler hands out nothing and forwards no
/// buffer: a message changes nothing, and the fill ends with the buffer
/// abandoned and no nonce counted as hashed.
pub proof fn lemma_stop_is_quiet(v: SchedulerView, msg: Message)
    ensures
        v.react(msg, true) == (Reaction::Stopped, v),
        v.finish(true).0 == Handoff::Abandon,
        v.finish(true).1.nonces_hashed == v.nonces_hashed,
{
}

/// Every slot below `requested` lies in exactly one of the sub-ranges that
/// were handed out: they leave no gap and do not overlap.
pub proof fn lemma_issued_partition(v: SchedulerView, slot: int)
    requires
        v.wf(),
        v.filling,
        0 <= slot < v.requested,
    ensures
        exists|i: int|
            0 <= i < v.issued.len() && (#[trigger] v.issued[i]).chunk_offset <= slot
                < v.issued[i].chunk_offset + v.issued[i].local_nonces,
        forall|i: int, j: int|
            #![trigger v.issued[i], v.issued[j]]
            0 <= i < v.issued.len() && 0 <= j < v.issued.len() && v.issued[i].chunk_offset <= slot
                < v.issued[i].chunk_offset + v.issued[i].local_nonces && v.issued[j].chunk_offset
                <= slot < v.issued[j].chunk_offset + v.issued[j].local_nonces ==> i == j,
{
    lemma_issued_ends(v, v.issued.len() as int);
    let i = lemma_find_issued(v, v.issued.len() as int, slot);
    assert forall|a: int, b: int|
        #![trigger v.issued[a], v.issued[b]]
        0 <= a < v.issued.len() && 0 <= b < v.issued.len() && v.issued[a].chunk_offset <= slot
            < v.issued[a].chunk_offset + v.issued[a].local_nonces && v.issued[b].chunk_offset
            <= slot < v.issued[b].chunk_offset + v.issued[b].local_nonces implies a == b by {
        if a < b {
            lemma_issued_ordered(v, a, b);
        }
        if b < a {
            lemma_issued_ordered(v, b, a);
        }
    }
}

/// The end slots of the sub-ranges never decrease.
proof fn lemma_issued_ends(v: SchedulerView, n: int)
    requires
        v.issued_tile(),
        0 <= n <= v.issued.len(),
    ensures
        0 <= v.issued_end(n),
    decreases n,
{
    if n > 0 {
        lemma_issued_ends(v, n - 1);
        assert(v.tile_at(n - 1));
    }
}

/// The end slots of the sub-ranges grow with their number.
proof fn lemma_issued_end_grows(v: SchedulerView, a: int, b: int)
    requires
        v.issued_tile(),
        0 <= a <= b <= v.issued.len(),
    ensures
        v.issued_end(a) <= v.issued_end(b),
    decreases b - a,
{
    if a < b {
        lemma_issued_end_grows(v, a, b - 1);
        assert(v.tile_at(b - 1));
    }
}

/// A later sub-range starts where an earlier one ends, or after.
proof fn lemma_issued_ordered(v: SchedulerView, a: int, b: int)
    requires
        v.issued_tile(),
        0 <= a < b < v.issued.len(),
    ensures
        v.issued[a].chunk_offset + v.issued[a].local_nonces <= v.issued[b].chunk_offset,
    decreases b - a,
{
    assert(v.tile_at(b));
    if a + 1 < b {
        lemma_issued_ordered(v, a, b - 1);
        assert(v.tile_at(b - 1));
    }
}

/// Finds the sub-range among the first `n` that holds `slot`.
proof fn lemma_find_issued(v: SchedulerView, n: int, slot: int) -> (i: int)
    requires
        v.issued_tile(),
        0 <= n <= v.issued.len(),
        0 <= slot < v.issued_end(n),
    ensures
        0 <= i < n,
        v.issued[i].chunk_offset <= slot < v.issued[i].chunk_offset + v.issued[i].local_nonces,
    decreases n,
{
    assert(v.tile_at(n - 1));
    if v.issued[n - 1].chunk_offset <= slot {
        n - 1
    } else {
        lemma_find_issued(v, n - 1, slot)
    }
}

fn min_u64(a: u64, b: u64) -> (m: u64)
    ensures
        m == min_int(a as int, b as int),
{
    if a <= b {
        a
    } else {
        b
    }
}

/// The scheduler of one run.
pub struct Scheduler {
    numeric_id: u64,
    start_nonce: u64,
    nonces: u64,
    cpu_threads: u8,
    worksizes: Vec<u64>,
    nonces_hashed: u64,
    filling: bool,
    cache_size: u64,
    nonces_to_hash: u64,
    requested: u64,
    processed: u64,
    issued: Ghost<Seq<WorkerTask>>,
}

impl View for Scheduler {
    type V = SchedulerView;

    closed spec fn view(&self) -> SchedulerView {
        SchedulerView {
            numeric_id: self.numeric_id,
            start_nonce: self.start_nonce,
            nonces: self.nonces as int,
            cpu_threads: self.cpu_threads as int,
            worksizes: self.worksizes@,
            nonces_hashed: self.nonces_hashed as int,
            filling: self.filling,
            cache_size: self.cache_size as int,
            nonces_to_hash: self.nonces_to_hash as int,
            requested: self.requested as int,
            processed: self.processed as int,
            issued: self.issued@,
        }
    }
}

impl Scheduler {
    /// A scheduler for the nonces `start_nonce, .., start_nonce + nonces - 1`
    /// of account `numeric_id`, of which the first `nonces_hashed` are done.
    pub fn new(
        numeric_id: u64,
        start_nonce: u64,
        nonces: u64,
        cpu_threads: u8,
        worksizes: Vec<u64>,
        nonces_hashed: u64,
    ) -> (scheduler: Scheduler)
        requires
            nonces_hashed <= nonces,
            start_nonce + nonces <= u64::MAX + 1,
            worksizes@.len() < u8::MAX,
        ensures
            scheduler@.wf(),
            !scheduler@.filling,
            scheduler@.numeric_id == numeric_id,
            scheduler@.start_nonce == start_nonce,
            scheduler@.nonces == nonces,
            scheduler@.cpu_threads == cpu_threads,
            scheduler@.worksizes == worksizes@,
            scheduler@.nonces_hashed == nonces_hashed,
    {
        Scheduler {
            numeric_id,
            start_nonce,
            nonces,
            cpu_threads,
            worksizes,
            nonces_hashed,
            filling: false,
            cache_size: 0,
            nonces_to_hash: 0,
            requested: 0,
            processed: 0,
            issued: Ghost(Seq::empty()),
        }
    }

    /// Nonces of the run in buffers that were forwarded.
    pub fn nonces_hashed(&self) -> (n: u64)
        ensures
            n == self@.nonces_hashed,
    {
        self.nonces_hashed
    }

    /// Whether the scheduler is to take another buffer: nonces are left and
    /// no stop was requested.
    pub fn wants_buffer(&self, stop: bool) -> (yes: bool)
        ensures
            yes == (self@.nonces_hashed < self@.nonces && !stop),
    {
        self.nonces_hashed < self.nonces && !stop
    }

    /// Whether every nonce of the fill was reported complete.
    pub fn is_full(&self) -> (yes: bool)
        ensures
            yes == self@.full(),
    {
        self.filling && self.processed == self.nonces_to_hash
    }

    fn issue(&mut self, worker: u8, size: u64) -> (task: WorkerTask)
        requires
            old(self)@.wf(),
            old(self)@.filling,
            0 < size <= old(self)@.remaining(),
        ensures
            final(self)@ == old(self)@.issue(worker, size as int),
            final(self)@.wf(),
            task == old(self)@.task_for(worker, size as int),
    {
        proof {
            lemma_issue_wf(self@, worker, size as int);
        }
        let task = WorkerTask {
            worker,
            cache_size: self.cache_size,
            chunk_offset: self.requested,
            numeric_id: self.numeric_id,
            local_startnonce: self.start_nonce + self.nonces_hashed + self.requested,
            local_nonces: size,
        };
        self.requested = self.requested + size;
        self.issued = Ghost(self.issued@.push(task));
        task
    }

    /// Takes an empty buffer of `buffer_size` bytes and hands out the first
    /// sub-ranges of its fill: one to each accelerator in order, then one for
    /// each CPU thread, as far as nonces are left.
    pub fn begin_fill(&mut self, buffer_size: u64) -> (tasks: Vec<WorkerTask>)
        requires
            old(self)@.wf(),
            !old(self)@.filling,
            old(self)@.nonces_hashed < old(self)@.nonces,
            buffer_size >= NONCE_SIZE,
        ensures
            final(self)@ == old(self)@.opened(buffer_size as int / NONCE_SIZE as int).prefilled(
                old(self)@.starters(),
            ),
            final(self)@.wf(),
            final(self)@.filling,
            tasks@ == final(self)@.issued,
    {
        self.cache_size = buffer_size / NONCE_SIZE;
        self.nonces_to_hash = min_u64(self.cache_size, self.nonces - self.nonces_hashed);
        self.requested = 0;
        self.processed = 0;
        self.filling = true;
        self.issued = Ghost(Seq::empty());
        let ghost opened = self@;
        assert(opened == old(self)@.opened(buffer_size as int / NONCE_SIZE as int));
        let mut tasks: Vec<WorkerTask> = Vec::new();
        let accelerators: usize = self.worksizes.len();
        let total: usize = accelerators + self.cpu_threads as usize;
        let mut i: usize = 0;
        while i < total
            invariant
                i <= total,
                accelerators == self@.worksizes.len(),
                total == opened.starters(),
                self@ == opened.prefilled(i as nat),
                self@.wf(),
                self@.filling,
                self@.worksizes == opened.worksizes,
                self@.cpu_threads == opened.cpu_threads,
                tasks@ == self@.issued,
            decreases total - i,
        {
            let remaining: u64 = self.nonces_to_hash - self.requested;
            let worker: u8 = if i < accelerators {
                (i + 1) as u8
            } else {
                CPU_WORKER
            };
            let size: u64 = if i < accelerators {
                min_u64(self.worksizes[i], remaining)
            } else {
                min_u64(CPU_TASK_SIZE, remaining)
            };
            assert(worker == self@.starter(i as int));
            assert(size == self@.starter_size(i as int));
            if size > 0 {
                let task = self.issue(worker, size);
                tasks.push(task);
            }
            i += 1;
        }
        tasks
    }

    /// Answers one worker message.  `stop` is the stop signal as read for
    /// this message.
    pub fn react(&mut self, msg: Message, stop: bool) -> (reaction: Reaction)
        requires
            old(self)@.wf(),
            old(self)@.filling,
        ensures
            (reaction, final(self)@) == old(self)@.react(msg, stop),
            final(self)@.wf(),
            final(self)@.filling,
    {
        if stop {
            return Reaction::Stopped;
        }
        if msg.kind == KIND_READY && msg.worker as usize <= self.worksizes.len() {
            let remaining: u64 = self.nonces_to_hash - self.requested;
            let size: u64 = if msg.worker == CPU_WORKER {
                min_u64(CPU_TASK_SIZE, remaining)
            } else {
                let worksize: u64 = self.worksizes[msg.worker as usize - 1];
                let size: u64 = min_u64(worksize, remaining);
                if size < worksize && self.cpu_threads > 0 && size > CPU_TASK_SIZE {
                    size / 2
                } else {
                    size
                }
            };
            assert(size == self@.ready_size(msg.worker));
            if size > 0 {
                Reaction::Dispatch(self.issue(msg.worker, size))
            } else {
                Reaction::NoWork
            }
        } else if msg.kind == KIND_COMPLETED && msg.count <= self.requested - self.processed {
            proof {
                lemma_complete_wf(self@, msg.count as int);
            }
            self.processed = self.processed + msg.count;
            let hashed: u64 = self.nonces_hashed + self.processed;
            if self.processed == self.nonces_to_hash {
                Reaction::Full { hashed }
            } else {
                Reaction::Progress { hashed }
            }
        } else {
            Reaction::Ignored
        }
    }

    /// Ends the fill.  `stop` is the stop signal as read before the buffer
    /// is handed on.
    pub fn finish_fill(&mut self, stop: bool) -> (handoff: Handoff)
        requires
            old(self)@.wf(),
            old(self)@.filling,
        ensures
            (handoff, final(self)@) == old(self)@.finish(stop),
            final(self)@.wf(),
            !final(self)@.filling,
    {
        self.filling = false;
        if stop || self.processed != self.nonces_to_hash {
            Handoff::Abandon
        } else {
            self.nonces_hashed = self.nonces_hashed + self.nonces_to_hash;
            Handoff::Forward { nonces: self.nonces_to_hash, last: self.nonces_hashed == self.nonces }
        }
    }
}

/// Whether `task` can be carried out on a cache of `len` bytes.
pub open spec fn task_runs(task: WorkerTask, len: nat) -> bool {
    &&& task.cache_size == capacity(len)
    &&& task.chunk_offset + task.local_nonces <= task.cache_size
    &&& task.local_nonces > 0 ==> task.local_startnonce + task.local_nonces - 1 <= u64::MAX
}

/// The work of a CPU worker: computes the nonces of `task` and lays them
/// into their slots of `cache`.
pub fn hash_cpu(cache: &mut [u8], task: &WorkerTask)
    requires
        task_runs(*task, old(cache)@.len()),
    ensures
        final(cache)@ == cache_with(
            old(cache)@,
            task.cache_size as int,
            task.chunk_offset as int,
            task.numeric_id,
            task.local_startnonce,
            task.local_nonces as int,
        ),
{
    let len: usize = cache.len();
    assert(capacity(cache@.len()) <= len) by {
        vstd::arithmetic::div_mod::lemma_fundamental_div_mod(len as int, 262144);
    }
    noncegen_rust(
        cache,
        task.chunk_offset as usize,
        task.numeric_id,
        task.local_startnonce,
        task.local_nonces,
    );
}

/// Whether `part` is a region of exactly `count` nonces that holds the nonces
/// `start, .., start + count - 1` of account `id`.
pub open spec fn holds_nonces(part: Seq<u8>, id: u64, start: u64, count: int) -> bool {
    &&& part.len() == count * NONCE_SIZE
    &&& part == cache_with(part, count, 0, id, start, count)
}

/// A region that holds the nonces of a sub-range, copied into the sub-range's
/// slots of a cache, leaves there what computing them in place leaves.
pub proof fn lemma_part_laid(
    before: Seq<u8>,
    cap: int,
    first: int,
    id: u64,
    start: u64,
    count: int,
    part: Seq<u8>,
)
    requires
        0 <= first,
        0 <= count,
        first + count <= cap,
        before.len() >= cap * NONCE_SIZE,
        count > 0 ==> start + count - 1 <= u64::MAX,
        holds_nonces(part, id, start, count),
    ensures
        written(before, cap, first, count, part, count) == cache_with(
            before,
            cap,
            first,
            id,
            start,
            count,
        ),
{
    let left = written(before, cap, first, count, part, count);
    let right = cache_with(before, cap, first, id, start, count);
    assert forall|q: int| 0 <= q < before.len() implies left[q] == right[q] by {
        let s = scoop_of(q, cap);
        let k = slot_of(q, cap);
        if first <= k < first + count && s < 4096 {
            vstd::arithmetic::div_mod::lemma_fundamental_div_mod(q, 64);
            assert(0 <= s) by {
                vstd::arithmetic::div_mod::lemma_div_pos_is_pos(q, 64 * cap);
            }
            let p = s * count * 64 + (k - first) * 64 + q % 64;
            assert(0 <= s * count * 64 && s * count * 64 + count * 64 <= 4096 * count * 64)
                by (nonlinear_arith)
                requires
                    0 <= s < 4096,
                    0 <= count,
            ;
            lemma_cell(count, s, k - first, p);
            assert(part[p] == cache_with(part, count, 0, id, start, count)[p]);
        }
    }
    assert(left =~= right);
}

/// The work of a worker that has no access to the cache: computes the nonces
/// of `task` into a region of their own.
pub fn hash_part(task: &WorkerTask) -> (part: Vec<u8>)
    requires
        task.local_nonces * NONCE_SIZE <= usize::MAX,
        task.local_nonces > 0 ==> task.local_startnonce + task.local_nonces - 1 <= u64::MAX,
    ensures
        holds_nonces(
            part@,
            task.numeric_id,
            task.local_startnonce,
            task.local_nonces as int,
        ),
{
    let len: usize = (task.local_nonces * NONCE_SIZE) as usize;
    let mut part: Vec<u8> = vec![0u8; len];
    let ghost blank = part@;
    assert(capacity(part@.len()) == task.local_nonces) by {
        vstd::arithmetic::div_mod::lemma_div_multiples_vanish(task.local_nonces as int, 262144);
    }
    noncegen_rust(
        part.as_mut_slice(),
        0,
        task.numeric_id,
        task.local_startnonce,
        task.local_nonces,
    );
    assert(part@ =~= cache_with(
        part@,
        task.local_nonces as int,
        0,
        task.numeric_id,
        task.local_startnonce,
        task.local_nonces as int,
    ));
    part
}

/// Copies the nonces that `part` holds into the slots of `task` in `cache`.
/// Where `part` holds the nonces of `task`, the cache is afterwards as if
/// they had been computed in place.
pub fn lay_part(cache: &mut [u8], task: &WorkerTask, part: &[u8])
    requires
        task_runs(*task, old(cache)@.len()),
        part@.len() == task.local_nonces * NONCE_SIZE,
    ensures
        final(cache)@ == written(
            old(cache)@,
            task.cache_size as int,
            task.chunk_offset as int,
            task.local_nonces as int,
            part@,
            task.local_nonces as int,
        ),
        holds_nonces(part@, task.numeric_id, task.local_startnonce, task.local_nonces as int)
            ==> final(cache)@ == cache_with(
            old(cache)@,
            task.cache_size as int,
            task.chunk_offset as int,
            task.numeric_id,
            task.local_startnonce,
            task.local_nonces as int,
        ),
{
    let len: usize = cache.len();
    proof {
        vstd::arithmetic::div_mod::lemma_fundamental_div_mod(len as int, 262144);
        vstd::arithmetic::div_mod::lemma_div_multiples_vanish(task.local_nonces as int, 262144);
        if holds_nonces(part@, task.numeric_id, task.local_startnonce, task.local_nonces as int) {
            lemma_part_laid(
                cache@,
                task.cache_size as int,
                task.chunk_offset as int,
                task.numeric_id,
                task.local_startnonce,
                task.local_nonces as int,
                part@,
            );
        }
    }
    let writer = Writer::new(task.cache_size, task.chunk_offset, false);
    writer.write_buffer(cache, part);
}

impl Scheduler {
    /// Fills `cache` on the calling thread: takes it as the next buffer,
    /// carries out every sub-range in the order in which it is handed out,
    /// and reports each as complete.  Afterwards the fill is full, and the
    /// first slots of the cache hold the next nonces of the run.
    pub fn fill(&mut self, cache: &mut [u8])
        requires
            old(self)@.wf(),
            !old(self)@.filling,
            old(self)@.nonces_hashed < old(self)@.nonces,
            old(cache)@.len() >= NONCE_SIZE,
        ensures
            final(self)@.wf(),
            final(self)@.full(),
            final(self)@.requested == final(self)@.nonces_to_hash,
            final(self)@ == (SchedulerView {
                requested: final(self)@.requested,
                processed: final(self)@.processed,
                issued: final(self)@.issued,
                ..old(self)@.opened(capacity(old(cache)@.len()))
            }),
            final(cache)@ == cache_with(
                old(cache)@,
                capacity(old(cache)@.len()),
                0,
                old(self)@.numeric_id,
                (old(self)@.start_nonce + old(self)@.nonces_hashed) as u64,
                final(self)@.nonces_to_hash,
            ),
    {
        let ghost before = cache@;
        let ghost cap = capacity(before.len());
        let ghost opened = self@.opened(cap);
        let ghost id = self@.numeric_id;
        let ghost base = (self@.start_nonce + self@.nonces_hashed) as u64;
        let len: usize = cache.len();
        let tasks = self.begin_fill(len as u64);
        proof {
            lemma_prefilled_frame(opened, opened.starters());
        }
        assert(cache@ =~= cache_with(before, cap, 0, id, base, 0));
        let mut i: usize = 0;
        while i < tasks.len()
            invariant
                i <= tasks@.len(),
                self@.wf(),
                self@.filling,
                tasks@ == self@.issued,
                self@.processed == self@.issued_end(i as int),
                self@ == (SchedulerView {
                    requested: self@.requested,
                    processed: self@.processed,
                    issued: self@.issued,
                    ..opened
                }),
                opened.cache_size == cap,
                opened.numeric_id == id,
                base == opened.start_nonce + opened.nonces_hashed,
                cap == capacity(before.len()),
                cache@.len() == before.len(),
                cache@ == cache_with(before, cap, 0, id, base, self@.processed),
            decreases tasks@.len() - i,
        {
            let task = tasks[i];
            let ghost done = self@.processed;
            assert(self@.tile_at(i as int));
            proof {
                lemma_issued_end_grows(self@, i + 1, tasks@.len() as int);
                lemma_batch_in_parts(before, cap, 0, id, base, done, task.local_nonces as int);
            }
            hash_cpu(cache, &task);
            let _ = self.react(
                Message { worker: task.worker, kind: KIND_COMPLETED, count: task.local_nonces },
                false,
            );
            i += 1;
        }
        while !self.is_full()
            invariant
                self@.wf(),
                self@.filling,
                self@.processed == self@.requested,
                self@ == (SchedulerView {
                    requested: self@.requested,
                    processed: self@.processed,
                    issued: self@.issued,
                    ..opened
                }),
                opened.cache_size == cap,
                opened.numeric_id == id,
                base == opened.start_nonce + opened.nonces_hashed,
                cap == capacity(before.len()),
                cache@.len() == before.len(),
                cache@ == cache_with(before, cap, 0, id, base, self@.processed),
            decreases self@.nonces_to_hash - self@.processed,
        {
            let ghost done = self@.processed;
            let reaction = self.react(
                Message { worker: CPU_WORKER, kind: KIND_READY, count: 0 },
                false,
            );
            match reaction {
                Reaction::Dispatch(task) => {
                    proof {
                        lemma_batch_in_parts(before, cap, 0, id, base, done, task.local_nonces as int);
                    }
                    hash_cpu(cache, &task);
                    let _ = self.react(
                        Message {
                            worker: CPU_WORKER,
                            kind: KIND_COMPLETED,
                            count: task.local_nonces,
                        },
                        false,
                    );
                },
                _ => {
                    assert(false);
                },
            }
        }
    }
}

/// Serving the starting order changes nothing but what was handed out.
pub proof fn lemma_prefilled_frame(v: SchedulerView, n: nat)
    ensures
        v.prefilled(n) == (SchedulerView {
            requested: v.prefilled(n).requested,
            issued: v.prefilled(n).issued,
            ..v
        }),
    decreases n,
{
    if n > 0 {
        lemma_prefilled_frame(v, (n - 1) as nat);
    }
}

} // verus!
