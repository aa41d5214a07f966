use std::collections::VecDeque;
use vstd::prelude::*;

verus! {

/// What a claim on the channel hands back.
pub enum Claim<J> {
    /// The job at the head of the queue, now removed from it.
    Job(J),
    /// Nothing is pending, but the channel is still open: wait for more.
    Wait,
    /// The channel is closed and drained: no job will ever come.
    Closed,
}

/// An unbounded first-in first-out queue of jobs with a close switch.
///
/// Its model is the whole history of accepted jobs, in order, together with
/// how many of them have been claimed; the pending jobs are the unclaimed
/// tail of that history.
pub struct JobChannel<J> {
    pending: VecDeque<J>,
    open: bool,
    history: Ghost<Seq<J>>,
    taken: Ghost<nat>,
}

impl<J> JobChannel<J> {
    /// Every job ever accepted, in acceptance order.
    pub closed spec fn history(&self) -> Seq<J> {
        self.history@
    }

    /// How many jobs have been claimed so far.
    pub closed spec fn taken(&self) -> nat {
        self.taken@
    }

    /// Whether the channel still accepts jobs.
    pub closed spec fn is_open_spec(&self) -> bool {
        self.open
    }

    /// The jobs waiting to be claimed, oldest first.
    pub open spec fn pending_spec(&self) -> Seq<J> {
        self.history().subrange(self.taken() as int, self.history().len() as int)
    }

    pub closed spec fn wf(&self) -> bool {
        &&& self.taken@ <= self.history@.len()
        &&& self.pending@ == self.history@.subrange(self.taken@ as int, self.history@.len() as int)
    }

    /// A well-formed channel never counts more claims than accepted jobs.
    pub proof fn lemma_taken_bound(&self)
        requires
            self.wf(),
        ensures
            self.taken() <= self.history().len(),
    {
    }

    /// An open channel with nothing in it.
    pub fn new() -> (r: Self)
        ensures
            r.wf(),
            r.is_open_spec(),
            r.history() == Seq::<J>::empty(),
            r.taken() == 0,
    {
        let r = JobChannel {
            pending: VecDeque::new(),
            open: true,
            history: Ghost(Seq::empty()),
            taken: Ghost(0),
        };
        assert(r.pending@ =~= r.history@.subrange(0, 0));
        r
    }

    /// Appends `job` at the tail while the channel is open; once it is
    /// closed the job is refused and handed back, and nothing changes.
    pub fn enqueue(&mut self, job: J) -> (r: Result<(), J>)
        requires
            old(self).wf(),
        ensures
            final(self).wf(),
            final(self).is_open_spec() == old(self).is_open_spec(),
            final(self).taken() == old(self).taken(),
            old(self).is_open_spec() ==> r is Ok && final(self).history() == old(self).history().push(job),
            !old(self).is_open_spec() ==> r == Err::<(), J>(job) && final(self).history() == old(self).history(),
    {
        if self.open {
            self.pending.push_back(job);
            proof {
                let old_hist = self.history@;
                self.history@ = old_hist.push(job);
                assert(self.pending@ =~= self.history@.subrange(self.taken@ as int, self.history@.len() as int));
            }
            Ok(())
        } else {
            Err(job)
        }
    }

    /// Takes the oldest pending job. With nothing pending it says `Wait` while
    /// the channel is open and `Closed` once it is closed; those two leave the
    /// channel as it was.
    pub fn claim(&mut self) -> (r: Claim<J>)
        requires
            old(self).wf(),
        ensures
            final(self).wf(),
            final(self).history() == old(self).history(),
            final(self).is_open_spec() == old(self).is_open_spec(),
            old(self).pending_spec().len() > 0 ==> r == Claim::Job(old(self).history()[old(self).taken() as int])
                && final(self).taken() == old(self).taken() + 1,
            old(self).pending_spec().len() == 0 ==> final(self).taken() == old(self).taken(),
            old(self).pending_spec().len() == 0 && old(self).is_open_spec() ==> r is Wait,
            old(self).pending_spec().len() == 0 && !old(self).is_open_spec() ==> r is Closed,
    {
        match self.pending.pop_front() {
            Some(job) => {
                proof {
                    let t = self.taken@;
                    self.taken@ = t + 1;
                    assert(self.pending@ =~= self.history@.subrange(self.taken@ as int, self.history@.len() as int));
                }
                Claim::Job(job)
            },
            None => {
                if self.open {
                    Claim::Wait
                } else {
                    Claim::Closed
                }
            },
        }
    }

    /// Closes the channel for good: later jobs are refused, pending ones
    /// stay claimable. Closing twice is the same as closing once.
    pub fn close(&mut self)
        requires
            old(self).wf(),
        ensures
            final(self).wf(),
            !final(self).is_open_spec(),
            final(self).history() == old(self).history(),
            final(self).taken() == old(self).taken(),
    {
        self.open = false;
    }

    /// Whether the channel still accepts jobs.
    pub fn is_open(&self) -> (r: bool)
        ensures
            r == self.is_open_spec(),
    {
        self.open
    }

    /// How many jobs are waiting to be claimed.
    pub fn pending_len(&self) -> (r: usize)
        requires
            self.wf(),
        ensures
            r == self.pending_spec().len(),
    {
        self.pending.len()
    }
}

} // verus!
