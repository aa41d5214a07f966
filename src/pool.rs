use crate::channel::{Claim, JobChannel};
use vstd::prelude::*;

verus! {

/// Where a worker stands in its claim / run loop.
#[derive(Clone, Copy, PartialEq, Eq, Structural, Debug)]
pub enum WorkerStatus {
    /// Between jobs: about to claim, or waiting for work.
    Idle,
    /// Running the job it claimed last.
    Running,
    /// Saw the channel closed and drained, and left its loop.
    Exited,
}

/// The pool's life cycle.
#[derive(Clone, Copy, PartialEq, Eq, Structural, Debug)]
pub enum Phase {
    /// Submissions are accepted.
    Active,
    /// Shutdown has begun: no submissions, workers are being joined.
    Draining,
    /// Every worker has been joined.
    Terminated,
}

/// Why a pool could not be built.
#[derive(Clone, Copy, PartialEq, Eq, Structural, Debug)]
pub enum PoolError {
    /// A pool needs at least one worker.
    ZeroSize,
}

/// How many of the workers are running a job.
pub open spec fn running_count(s: Seq<WorkerStatus>) -> nat
    decreases s.len(),
{
    if s.len() == 0 {
        0
    } else {
        running_count(s.drop_last()) + if s.last() is Running { 1nat } else { 0nat }
    }
}

pub open spec fn running_weight(w: WorkerStatus) -> int {
    if w is Running { 1 } else { 0 }
}

/// Changing one worker's status changes the count by that worker alone.
pub proof fn lemma_running_count_update(s: Seq<WorkerStatus>, i: int, w: WorkerStatus)
    requires
        0 <= i < s.len(),
    ensures
        running_count(s.update(i, w)) == running_count(s) - running_weight(s[i]) + running_weight(w),
    decreases s.len(),
{
    let t = s.update(i, w);
    if i == s.len() - 1 {
        assert(t.drop_last() =~= s.drop_last());
    } else {
        assert(t.drop_last() =~= s.drop_last().update(i, w));
        lemma_running_count_update(s.drop_last(), i, w);
    }
}

/// No more workers run than there are workers.
pub proof fn lemma_running_count_bound(s: Seq<WorkerStatus>)
    ensures
        running_count(s) <= s.len(),
    decreases s.len(),
{
    if s.len() > 0 {
        lemma_running_count_bound(s.drop_last());
    }
}

/// A roster where everybody runs counts every worker.
pub proof fn lemma_running_count_all(s: Seq<WorkerStatus>)
    requires
        forall|i: int| 0 <= i < s.len() ==> #[trigger] s[i] == WorkerStatus::Running,
    ensures
        running_count(s) == s.len(),
    decreases s.len(),
{
    if s.len() > 0 {
        lemma_running_count_all(s.drop_last());
    }
}

/// A roster where nobody runs counts zero.
pub proof fn lemma_running_count_none(s: Seq<WorkerStatus>)
    requires
        forall|i: int| 0 <= i < s.len() ==> !(#[trigger] s[i] is Running),
    ensures
        running_count(s) == 0,
    decreases s.len(),
{
    if s.len() > 0 {
        lemma_running_count_none(s.drop_last());
    }
}

/// The shared state of a fixed-size worker pool: the job channel, the status
/// of each worker, and how far teardown has got.
///
/// Workers are numbered `0..size`. Each one claims a job, runs it, reports it
/// finished and claims again, until a claim reports the channel closed.
/// Shutdown closes the channel; the workers are then joined in id order.
pub struct PoolState<J> {
    channel: JobChannel<J>,
    workers: Vec<WorkerStatus>,
    joined: usize,
    finished: Ghost<nat>,
    in_flight: Ghost<Map<nat, nat>>,
}

impl<J> PoolState<J> {
    /// Every job ever accepted, in submission order; a job's identity is
    /// its index here.
    pub closed spec fn history(&self) -> Seq<J> {
        self.channel.history()
    }

    /// How many jobs workers have claimed; claims go in history order.
    pub closed spec fn taken(&self) -> nat {
        self.channel.taken()
    }

    /// How many claimed jobs have been reported finished.
    pub closed spec fn finished(&self) -> nat {
        self.finished@
    }

    /// The jobs waiting to be claimed, oldest first.
    pub open spec fn pending(&self) -> Seq<J> {
        self.history().subrange(self.taken() as int, self.history().len() as int)
    }

    /// Whether submissions are accepted.
    pub closed spec fn accepting(&self) -> bool {
        self.channel.is_open_spec()
    }

    /// The status of each worker, by id.
    pub closed spec fn statuses(&self) -> Seq<WorkerStatus> {
        self.workers@
    }

    /// The number of workers, fixed for the pool's life.
    pub open spec fn size_spec(&self) -> nat {
        self.statuses().len()
    }

    /// How many workers have been joined; they are joined in id order.
    pub closed spec fn joined_spec(&self) -> nat {
        self.joined as nat
    }

    /// For each running worker, the history index of the job it runs.
    pub closed spec fn in_flight(&self) -> Map<nat, nat> {
        self.in_flight@
    }

    pub open spec fn phase_spec(&self) -> Phase {
        if self.accepting() {
            Phase::Active
        } else if self.joined_spec() < self.size_spec() {
            Phase::Draining
        } else {
            Phase::Terminated
        }
    }

    pub closed spec fn wf(&self) -> bool {
        &&& self.channel.wf()
        &&& self.workers@.len() >= 1
        &&& self.joined <= self.workers@.len()
        &&& self.joined > 0 ==> !self.channel.is_open_spec()
        &&& forall|i: nat| #[trigger] self.in_flight@.contains_key(i) ==> i < self.workers@.len()
        &&& forall|i: int| 0 <= i < self.workers@.len() ==>
            ((#[trigger] self.workers@[i] is Running) <==> self.in_flight@.contains_key(i as nat))
        &&& forall|i: nat| #[trigger] self.in_flight@.contains_key(i) ==> self.in_flight@[i] < self.channel.taken()
        &&& forall|i: nat, j: nat|
            #[trigger] self.in_flight@.contains_key(i) && #[trigger] self.in_flight@.contains_key(j) && i != j
                ==> self.in_flight@[i] != self.in_flight@[j]
        &&& self.finished@ + running_count(self.workers@) == self.channel.taken()
        &&& forall|i: int| 0 <= i < self.workers@.len() && (#[trigger] self.workers@[i] is Exited) ==> {
            &&& !self.channel.is_open_spec()
            &&& self.channel.pending_spec().len() == 0
        }
    }

    /// A pool of `size` idle workers around an empty open channel. A size
    /// of zero is refused before anything is built.
    pub fn new(size: usize) -> (r: Result<Self, PoolError>)
        ensures
            size == 0 <==> r is Err,
            r is Err ==> r == Err::<Self, PoolError>(PoolError::ZeroSize),
            r matches Ok(p) ==> {
                &&& p.wf()
                &&& p.size_spec() == size
                &&& forall|i: int| 0 <= i < size ==> #[trigger] p.statuses()[i] == WorkerStatus::Idle
                &&& p.accepting()
                &&& p.history() == Seq::<J>::empty()
                &&& p.taken() == 0
                &&& p.finished() == 0
                &&& p.joined_spec() == 0
                &&& p.in_flight() == Map::<nat, nat>::empty()
            },
    {
        if size == 0 {
            return Err(PoolError::ZeroSize);
        }
        let mut workers: Vec<WorkerStatus> = Vec::with_capacity(size);
        let mut i: usize = 0;
        while i < size
            invariant
                i <= size,
                workers@.len() == i,
                forall|k: int| 0 <= k < i ==> #[trigger] workers@[k] == WorkerStatus::Idle,
            decreases size - i,
        {
            workers.push(WorkerStatus::Idle);
            i = i + 1;
        }
        proof {
            lemma_running_count_none(workers@);
        }
        Ok(PoolState {
            channel: JobChannel::new(),
            workers,
            joined: 0,
            finished: Ghost(0),
            in_flight: Ghost(Map::empty()),
        })
    }

    /// Hands a job to the pool. While the pool accepts work the job joins the
    /// tail of the queue; after shutdown has begun it is refused and handed
    /// back, and the pool is left as it was.
    pub fn submit(&mut self, job: J) -> (r: Result<(), J>)
        requires
            old(self).wf(),
        ensures
            final(self).wf(),
            final(self).accepting() == old(self).accepting(),
            final(self).statuses() == old(self).statuses(),
            final(self).taken() == old(self).taken(),
            final(self).finished() == old(self).finished(),
            final(self).joined_spec() == old(self).joined_spec(),
            final(self).in_flight() == old(self).in_flight(),
            old(self).accepting() ==> r is Ok && final(self).history() == old(self).history().push(job),
            !old(self).accepting() ==> r == Err::<(), J>(job) && final(self).history() == old(self).history(),
    {
        self.channel.enqueue(job)
    }

    /// Worker `id`, idle, claims work. It gets the oldest pending job and is
    /// then running it; or, with nothing pending, it stays idle to wait while
    /// the pool accepts work, and exits once shutdown has begun.
    pub fn claim(&mut self, id: usize) -> (r: Claim<J>)
        requires
            old(self).wf(),
            id < old(self).size_spec(),
            old(self).statuses()[id as int] == WorkerStatus::Idle,
        ensures
            final(self).wf(),
            final(self).history() == old(self).history(),
            final(self).accepting() == old(self).accepting(),
            final(self).finished() == old(self).finished(),
            final(self).joined_spec() == old(self).joined_spec(),
            old(self).pending().len() > 0 ==> {
                &&& r == Claim::Job(old(self).history()[old(self).taken() as int])
                &&& final(self).taken() == old(self).taken() + 1
                &&& final(self).statuses() == old(self).statuses().update(id as int, WorkerStatus::Running)
                &&& final(self).in_flight() == old(self).in_flight().insert(id as nat, old(self).taken())
            },
            old(self).pending().len() == 0 ==> {
                &&& final(self).taken() == old(self).taken()
                &&& final(self).in_flight() == old(self).in_flight()
            },
            old(self).pending().len() == 0 && old(self).accepting() ==> {
                &&& r is Wait
                &&& final(self).statuses() == old(self).statuses()
            },
            old(self).pending().len() == 0 && !old(self).accepting() ==> {
                &&& r is Closed
                &&& final(self).statuses() == old(self).statuses().update(id as int, WorkerStatus::Exited)
            },
    {
        let ghost pre = *self;
        let c = self.channel.claim();
        match c {
            Claim::Job(job) => {
                self.workers.set(id, WorkerStatus::Running);
                proof {
                    lemma_running_count_update(pre.workers@, id as int, WorkerStatus::Running);
                    let m = self.in_flight@;
                    self.in_flight@ = m.insert(id as nat, pre.channel.taken());
                    assert forall|i: int| 0 <= i < self.workers@.len() && (#[trigger] self.workers@[i] is Exited) implies {
                        &&& !self.channel.is_open_spec()
                        &&& self.channel.pending_spec().len() == 0
                    } by {
                        assert(pre.workers@[i] is Exited);
                    }
                }
                Claim::Job(job)
            },
            Claim::Wait => Claim::Wait,
            Claim::Closed => {
                self.workers.set(id, WorkerStatus::Exited);
                proof {
                    lemma_running_count_update(pre.workers@, id as int, WorkerStatus::Exited);
                }
                Claim::Closed
            },
        }
    }

    /// Worker `id` reports that the job it was running has returned; it is
    /// idle again and the job counts as finished.
    pub fn finish(&mut self, id: usize)
        requires
            old(self).wf(),
            id < old(self).size_spec(),
            old(self).statuses()[id as int] == WorkerStatus::Running,
        ensures
            final(self).wf(),
            final(self).history() == old(self).history(),
            final(self).taken() == old(self).taken(),
            final(self).accepting() == old(self).accepting(),
            final(self).joined_spec() == old(self).joined_spec(),
            final(self).finished() == old(self).finished() + 1,
            final(self).statuses() == old(self).statuses().update(id as int, WorkerStatus::Idle),
            final(self).in_flight() == old(self).in_flight().remove(id as nat),
    {
        let ghost pre = *self;
        self.workers.set(id, WorkerStatus::Idle);
        proof {
            lemma_running_count_update(pre.workers@, id as int, WorkerStatus::Idle);
            let f = self.finished@;
            self.finished@ = f + 1;
            let m = self.in_flight@;
            self.in_flight@ = m.remove(id as nat);
            assert forall|i: int| 0 <= i < self.workers@.len() && (#[trigger] self.workers@[i] is Exited) implies {
                &&& !self.channel.is_open_spec()
                &&& self.channel.pending_spec().len() == 0
            } by {
                assert(pre.workers@[i] is Exited);
            }
        }
    }

    /// Begins teardown: from now on every submission is refused, while jobs
    /// already queued are still handed out. Beginning it again changes
    /// nothing.
    pub fn shutdown(&mut self)
        requires
            old(self).wf(),
        ensures
            final(self).wf(),
            !final(self).accepting(),
            final(self).history() == old(self).history(),
            final(self).taken() == old(self).taken(),
            final(self).finished() == old(self).finished(),
            final(self).statuses() == old(self).statuses(),
            final(self).joined_spec() == old(self).joined_spec(),
            final(self).in_flight() == old(self).in_flight(),
    {
        self.channel.close();
    }

    /// The next worker to join once shutdown has begun: ids come out in
    /// order, each once, and `None` once all are joined or while the pool
    /// still accepts work.
    pub fn next_join(&mut self) -> (r: Option<usize>)
        requires
            old(self).wf(),
        ensures
            final(self).wf(),
            final(self).history() == old(self).history(),
            final(self).taken() == old(self).taken(),
            final(self).finished() == old(self).finished(),
            final(self).statuses() == old(self).statuses(),
            final(self).accepting() == old(self).accepting(),
            final(self).in_flight() == old(self).in_flight(),
            !old(self).accepting() && old(self).joined_spec() < old(self).size_spec() ==> {
                &&& r == Some(old(self).joined_spec() as usize)
                &&& final(self).joined_spec() == old(self).joined_spec() + 1
            },
            old(self).accepting() || old(self).joined_spec() == old(self).size_spec() ==> {
                &&& r is None
                &&& final(self).joined_spec() == old(self).joined_spec()
            },
    {
        if !self.channel.is_open() && self.joined < self.workers.len() {
            let id = self.joined;
            self.joined = self.joined + 1;
            Some(id)
        } else {
            None
        }
    }

    /// Where the pool is in its life cycle.
    pub fn phase(&self) -> (r: Phase)
        requires
            self.wf(),
        ensures
            r == self.phase_spec(),
    {
        if self.channel.is_open() {
            Phase::Active
        } else if self.joined < self.workers.len() {
            Phase::Draining
        } else {
            Phase::Terminated
        }
    }

    /// Whether submissions are accepted.
    pub fn is_accepting(&self) -> (r: bool)
        requires
            self.wf(),
        ensures
            r == self.accepting(),
    {
        self.channel.is_open()
    }

    /// The number of workers.
    pub fn size(&self) -> (r: usize)
        requires
            self.wf(),
        ensures
            r == self.size_spec(),
    {
        self.workers.len()
    }

    /// The status of worker `id`.
    pub fn status(&self, id: usize) -> (r: WorkerStatus)
        requires
            self.wf(),
            id < self.size_spec(),
        ensures
            r == self.statuses()[id as int],
    {
        self.workers[id]
    }

    /// How many jobs wait to be claimed.
    pub fn pending_len(&self) -> (r: usize)
        requires
            self.wf(),
        ensures
            r == self.pending().len(),
    {
        self.channel.pending_len()
    }

    /// How many workers have been joined.
    pub fn joined(&self) -> (r: usize)
        requires
            self.wf(),
        ensures
            r == self.joined_spec(),
    {
        self.joined
    }
}

/// Every accepted job is pending, running on exactly one worker, or
/// finished, and no more jobs run at once than there are workers.
pub proof fn lemma_jobs_accounted<J>(p: PoolState<J>)
    requires
        p.wf(),
    ensures
        p.pending().len() + running_count(p.statuses()) + p.finished() == p.history().len(),
        running_count(p.statuses()) <= p.size_spec(),
{
    p.channel.lemma_taken_bound();
    lemma_running_count_bound(p.statuses());
}

/// With `size` workers and `size + 1` accepted jobs of which none has
/// finished, at least one job is not started; and while every worker runs a
/// job, exactly one is.
pub proof fn lemma_one_job_waits<J>(p: PoolState<J>)
    requires
        p.wf(),
        p.history().len() == p.size_spec() + 1,
        p.finished() == 0,
    ensures
        p.pending().len() >= 1,
        (forall|i: int| 0 <= i < p.size_spec() ==> #[trigger] p.statuses()[i] == WorkerStatus::Running)
            ==> p.pending().len() == 1,
{
    lemma_jobs_accounted(p);
    if forall|i: int| 0 <= i < p.size_spec() ==> #[trigger] p.statuses()[i] == WorkerStatus::Running {
        lemma_running_count_all(p.statuses());
    }
}

/// Two different workers never hold the same job at the same time.
pub proof fn lemma_claims_exclusive<J>(p: PoolState<J>, i: usize, j: usize)
    requires
        p.wf(),
        i < p.size_spec(),
        j < p.size_spec(),
        i != j,
        p.statuses()[i as int] == WorkerStatus::Running,
        p.statuses()[j as int] == WorkerStatus::Running,
    ensures
        p.in_flight().contains_key(i as nat),
        p.in_flight().contains_key(j as nat),
        p.in_flight()[i as nat] != p.in_flight()[j as nat],
        p.in_flight()[i as nat] < p.taken(),
        p.in_flight()[j as nat] < p.taken(),
{
    assert(p.statuses()[i as int] is Running);
    assert(p.statuses()[j as int] is Running);
}

/// Once every worker has left its loop, every accepted job has been claimed
/// and has finished: nothing was lost and, claims going in history order one
/// at a time, nothing ran twice.
pub proof fn lemma_all_exited_all_run<J>(p: PoolState<J>)
    requires
        p.wf(),
        forall|i: int| 0 <= i < p.size_spec() ==> #[trigger] p.statuses()[i] == WorkerStatus::Exited,
    ensures
        !p.accepting(),
        p.taken() == p.history().len(),
        p.finished() == p.history().len(),
        p.in_flight().dom() == Set::<nat>::empty(),
{
    p.channel.lemma_taken_bound();
    assert(p.statuses()[0] is Exited);
    assert forall|i: int| 0 <= i < p.statuses().len() implies !(#[trigger] p.statuses()[i] is Running) by {
        assert(p.statuses()[i] == WorkerStatus::Exited);
    }
    lemma_running_count_none(p.statuses());
    assert forall|k: nat| !p.in_flight().dom().contains(k) by {
        if p.in_flight().contains_key(k) {
            assert(p.statuses()[k as int] is Running);
        }
    }
    assert(p.in_flight().dom() =~= Set::<nat>::empty());
}

/// A pool shut down before any job was accepted has nothing queued and no
/// worker busy: every worker still in its loop is idle, and its next claim
/// reports the channel closed.
pub proof fn lemma_empty_teardown<J>(p: PoolState<J>)
    requires
        p.wf(),
        !p.accepting(),
        p.history().len() == 0,
    ensures
        p.pending().len() == 0,
        forall|i: int| 0 <= i < p.size_spec() ==> #[trigger] p.statuses()[i] != WorkerStatus::Running,
{
    lemma_jobs_accounted(p);
    assert forall|i: int| 0 <= i < p.size_spec() implies #[trigger] p.statuses()[i] != WorkerStatus::Running by {
        if p.statuses()[i] == WorkerStatus::Running {
            assert(p.in_flight().contains_key(i as nat));
        }
    }
}

} // verus!
