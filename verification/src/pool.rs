//! The worker pool's bookkeeping: a fixed number of workers and one queue
//! of submitted jobs.
//!
//! A job is known here by a number; the work itself stays with the caller.
//! Each worker asks [`WorkerPool::claim`] what to do, runs the job it is
//! given, and reports back with [`WorkerPool::complete`], whether the job
//! returned or faulted. The number of workers is a deliberate limit: with
//! every worker busy, further jobs wait in the queue and do not start until
//! a worker is free again.

use vstd::prelude::*;
use std::collections::VecDeque;

verus! {

/// Why the pool refused.
#[derive(Clone, Copy, Debug, PartialEq, Eq, Structural)]
pub enum PoolError {
    /// A pool needs at least one worker.
    InvalidPoolSize,
    /// The pool was closed: it takes no further job.
    PoolClosed,
}

/// What a free worker does next.
#[derive(Clone, Copy, Debug, PartialEq, Eq, Structural)]
pub enum WorkerStep {
    /// Run this job, then report its completion.
    Run(u64),
    /// Nothing to run now: wait for a submission or for the pool to close.
    Wait,
    /// The pool is closed and the queue is empty: the worker ends.
    Terminate,
}

/// How a job ended.
#[derive(Clone, Copy, Debug, PartialEq, Eq, Structural)]
pub enum JobOutcome {
    /// The job ran to its end.
    Returned,
    /// The job faulted; the fault was caught at the worker.
    Faulted,
}

/// The pool as a mathematical value.
pub struct PoolModel {
    /// The number of workers.
    pub size: nat,
    /// The number of workers that run a job.
    pub busy: nat,
    /// The jobs submitted and not yet started, oldest first.
    pub queue: Seq<u64>,
    /// The pool takes no further job.
    pub closed: bool,
}

impl PoolModel {
    /// A pool of `size` idle workers.
    pub open spec fn fresh(size: nat) -> PoolModel {
        PoolModel { size, busy: 0, queue: Seq::empty(), closed: false }
    }

    /// At least one worker, and no more busy workers than workers.
    pub open spec fn valid(self) -> bool {
        1 <= self.size && self.busy <= self.size
    }

    /// The pool after `job` was submitted.
    pub open spec fn execute(self, job: u64) -> PoolModel {
        if self.closed {
            self
        } else {
            PoolModel { queue: self.queue.push(job), ..self }
        }
    }

    /// Whether a free worker can start the oldest queued job.
    pub open spec fn can_start(self) -> bool {
        self.queue.len() > 0 && self.busy < self.size
    }

    /// What a free worker is told.
    pub open spec fn claimed(self) -> WorkerStep {
        if self.can_start() {
            WorkerStep::Run(self.queue[0])
        } else if self.closed && self.queue.len() == 0 {
            WorkerStep::Terminate
        } else {
            WorkerStep::Wait
        }
    }

    /// The pool after a free worker asked for work.
    pub open spec fn claim(self) -> PoolModel {
        if self.can_start() {
            PoolModel { busy: self.busy + 1, queue: self.queue.skip(1), ..self }
        } else {
            self
        }
    }

    /// The pool after a running job ended, in whatever way.
    pub open spec fn complete(self) -> PoolModel {
        if self.busy > 0 {
            PoolModel { busy: (self.busy - 1) as nat, ..self }
        } else {
            self
        }
    }

    /// The pool after it was closed.
    pub open spec fn close(self) -> PoolModel {
        PoolModel { closed: true, ..self }
    }

    /// Whether teardown can finish: closed, nothing queued, nothing running.
    pub open spec fn drained(self) -> bool {
        self.closed && self.queue.len() == 0 && self.busy == 0
    }
}

/// The workers of a pool: how many there are, and how many run a job.
struct Crew {
    size: usize,
    busy: usize,
}

impl Crew {
    #[verifier::type_invariant]
    spec fn well_formed(&self) -> bool {
        1 <= self.size && self.busy <= self.size
    }
}

/// A fixed set of workers and the queue they draw from.
pub struct WorkerPool {
    crew: Crew,
    queue: VecDeque<u64>,
    closed: bool,
}

impl View for WorkerPool {
    type V = PoolModel;

    closed spec fn view(&self) -> PoolModel {
        PoolModel {
            size: self.crew.size as nat,
            busy: self.crew.busy as nat,
            queue: self.queue@,
            closed: self.closed,
        }
    }
}

impl WorkerPool {
    /// A pool of `size` idle workers; a pool without workers is refused.
    pub fn new(size: usize) -> (made: Result<WorkerPool, PoolError>)
        ensures
            size == 0 <==> made == Err::<WorkerPool, PoolError>(PoolError::InvalidPoolSize),
            size >= 1 ==> made is Ok && made->Ok_0@ == PoolModel::fresh(size as nat),
    {
        if size == 0 {
            Err(PoolError::InvalidPoolSize)
        } else {
            Ok(WorkerPool { crew: Crew { size, busy: 0 }, queue: VecDeque::new(), closed: false })
        }
    }

    /// Submits a job. It joins the end of the queue and starts when a worker
    /// claims it. A closed pool refuses the job and stays as it is.
    pub fn execute(&mut self, job: u64) -> (taken: Result<(), PoolError>)
        ensures
            old(self)@.closed <==> taken == Err::<(), PoolError>(PoolError::PoolClosed),
            !old(self)@.closed <==> taken is Ok,
            final(self)@ == old(self)@.execute(job),
    {
        if self.closed {
            Err(PoolError::PoolClosed)
        } else {
            self.queue.push_back(job);
            Ok(())
        }
    }

    /// A free worker asks what to do. If a job waits and a worker is free,
    /// the oldest job starts.
    pub fn claim(&mut self) -> (step: WorkerStep)
        ensures
            step == old(self)@.claimed(),
            final(self)@ == old(self)@.claim(),
    {
        proof {
            use_type_invariant(&self.crew);
        }
        if self.crew.busy < self.crew.size {
            match self.queue.pop_front() {
                Some(job) => {
                    self.crew.busy = self.crew.busy + 1;
                    assert(self.queue@ =~= old(self).queue@.skip(1));
                    return WorkerStep::Run(job);
                },
                None => {},
            }
        }
        if self.closed && self.queue.len() == 0 {
            WorkerStep::Terminate
        } else {
            WorkerStep::Wait
        }
    }

    /// A worker reports that its job ended. A fault frees the worker just as
    /// a return does: the pool keeps all its workers. Returns whether a
    /// worker was busy at all.
    pub fn complete(&mut self, outcome: JobOutcome) -> (freed: bool)
        ensures
            freed == (old(self)@.busy > 0),
            final(self)@ == old(self)@.complete(),
    {
        proof {
            use_type_invariant(&self.crew);
        }
        if self.crew.busy > 0 {
            self.crew.busy = self.crew.busy - 1;
            true
        } else {
            false
        }
    }

    /// Closes the pool to further jobs. Queued jobs still run.
    pub fn close(&mut self)
        ensures
            final(self)@ == old(self)@.close(),
    {
        self.closed = true;
    }

    /// The number of workers.
    pub fn size(&self) -> (n: usize)
        ensures
            n == self@.size,
    {
        self.crew.size
    }

    /// The number of workers that run a job: never more than there are
    /// workers.
    pub fn busy(&self) -> (n: usize)
        ensures
            n == self@.busy,
            self@.valid(),
    {
        proof {
            use_type_invariant(&self.crew);
        }
        self.crew.busy
    }

    /// The number of jobs that wait.
    pub fn queued(&self) -> (n: usize)
        ensures
            n == self@.queue.len(),
    {
        self.queue.len()
    }

    /// Whether the pool was closed.
    pub fn is_closed(&self) -> (closed: bool)
        ensures
            closed == self@.closed,
    {
        self.closed
    }

    /// Whether teardown can finish: every worker has ended or will end at
    /// its next claim.
    pub fn is_drained(&self) -> (drained: bool)
        ensures
            drained == self@.drained(),
    {
        self.closed && self.queue.len() == 0 && self.crew.busy == 0
    }
}

/// One use of the pool.
pub enum PoolOp {
    Execute(u64),
    Claim,
    Complete,
    Close,
}

/// The pool after one use.
pub open spec fn pool_after(pool: PoolModel, op: PoolOp) -> PoolModel {
    match op {
        PoolOp::Execute(job) => pool.execute(job),
        PoolOp::Claim => pool.claim(),
        PoolOp::Complete => pool.complete(),
        PoolOp::Close => pool.close(),
    }
}

/// The number of workers never changes, and never more jobs run than there
/// are workers.
pub proof fn law_size_is_fixed(pool: PoolModel, op: PoolOp)
    requires
        pool.valid(),
    ensures
        pool_after(pool, op).size == pool.size,
        pool_after(pool, op).valid(),
{
}

/// A fresh pool of `size` workers after `jobs` were submitted in order,
/// each followed by a free worker's claim, and none has ended yet.
pub open spec fn after_submissions(size: nat, jobs: Seq<u64>) -> PoolModel
    decreases jobs.len(),
{
    if jobs.len() == 0 {
        PoolModel::fresh(size)
    } else {
        after_submissions(size, jobs.drop_last()).execute(jobs.last()).claim()
    }
}

/// The smaller of two numbers.
pub open spec fn smaller(a: nat, b: nat) -> nat {
    if a <= b {
        a
    } else {
        b
    }
}

/// A pool of N workers starts the first N jobs submitted and no more: every
/// later job waits in the queue, in order, and a further claim is told to
/// wait.
pub proof fn law_capacity(size: nat, jobs: Seq<u64>)
    requires
        size >= 1,
    ensures
        after_submissions(size, jobs).size == size,
        !after_submissions(size, jobs).closed,
        after_submissions(size, jobs).busy == smaller(jobs.len(), size),
        after_submissions(size, jobs).queue == jobs.skip(smaller(jobs.len(), size) as int),
        jobs.len() >= size ==> after_submissions(size, jobs).claimed() == WorkerStep::Wait,
        jobs.len() >= size ==> after_submissions(size, jobs).claim() == after_submissions(
            size,
            jobs,
        ),
    decreases jobs.len(),
{
    if jobs.len() == 0 {
        assert(after_submissions(size, jobs).queue =~= jobs.skip(0));
    } else {
        let prev = jobs.drop_last();
        law_capacity(size, prev);
        let before = after_submissions(size, prev);
        let now = after_submissions(size, jobs);
        if prev.len() < size {
            assert(before.queue =~= Seq::<u64>::empty());
            assert(before.execute(jobs.last()).queue =~= seq![jobs.last()]);
            assert(now.queue =~= jobs.skip(jobs.len() as int));
        } else {
            assert(before.execute(jobs.last()).queue =~= jobs.skip(size as int));
        }
    }
}

/// With one job more than workers submitted, every worker is busy and
/// exactly the last job waits.
pub proof fn law_one_over_capacity(size: nat, jobs: Seq<u64>)
    requires
        size >= 1,
        jobs.len() == size + 1,
    ensures
        after_submissions(size, jobs).busy == size,
        after_submissions(size, jobs).queue == seq![jobs[size as int]],
        after_submissions(size, jobs).claimed() == WorkerStep::Wait,
        after_submissions(size, jobs).complete().claimed() == WorkerStep::Run(jobs[size as int]),
{
    law_capacity(size, jobs);
    assert(jobs.skip(size as int) =~= seq![jobs[size as int]]);
}

/// A job that ends, by return or by fault, gives its worker back: one
/// worker fewer is busy, the queue is untouched, and the oldest waiting job,
/// if there is one, can start at the next claim.
pub proof fn law_completion_frees_a_worker(pool: PoolModel)
    requires
        pool.valid(),
        pool.busy > 0,
    ensures
        pool.complete().busy == pool.busy - 1,
        pool.complete().size == pool.size,
        pool.complete().queue == pool.queue,
        pool.queue.len() > 0 ==> pool.complete().claimed() == WorkerStep::Run(pool.queue[0]),
{
}

} // verus!
