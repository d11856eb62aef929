//! The bookkeeping of bounded parallel work: its settings, and results kept in input order
//! whatever order tasks finish in.
use vstd::prelude::*;
use vstd::string::*;
use crate::client::{client_error_message, ClientError};

verus! {

/// How many tasks may run at once, and how long to wait between starting two of them.
#[derive(Debug, Clone, Copy, PartialEq, Eq)]
pub struct ParallelConfig {
    pub max_parallel: usize,
    /// Milliseconds between task starts.
    pub start_delay_ms: u64,
}

impl Default for ParallelConfig {
    /// Eight at a time, 50 ms apart.
    fn default() -> (r: Self)
        ensures
            r.max_parallel == 8,
            r.start_delay_ms == 50,
    {
        ParallelConfig { max_parallel: 8, start_delay_ms: 50 }
    }
}

impl ParallelConfig {

    /// Whether the settings allow any task to run.
    pub fn is_valid(&self) -> (r: bool)
        ensures
            r == (self.max_parallel > 0),
    {
        self.max_parallel > 0
    }

    /// Whether to wait before starting the task at `index`: not before the first, and not
    /// without a delay.
    pub fn waits_before(&self, index: usize) -> (r: bool)
        ensures
            r == (index > 0 && self.start_delay_ms != 0),
    {
        index > 0 && self.start_delay_ms != 0
    }

    /// Whether a finished task must be collected before another starts.
    pub fn must_collect(&self, running: usize) -> (r: bool)
        ensures
            r == (running >= self.max_parallel),
    {
        running >= self.max_parallel
    }
}

/// How far a run has got.
#[derive(Debug, Clone, Copy, PartialEq, Eq)]
pub struct ParallelProgress {
    pub completed: usize,
    pub total: usize,
}

/// Why a parallel run failed.
#[derive(Debug, Clone)]
pub enum ParallelTaskError<E> {
    InvalidMaxParallel,
    Join(String),
    Task(E),
}

/// The message of a failed parallel run of client calls.
pub open spec fn parallel_client_error_message(e: ParallelTaskError<ClientError>) -> Seq<char> {
    match e {
        ParallelTaskError::InvalidMaxParallel => "max_parallel must be greater than zero"@,
        ParallelTaskError::Join(m) => "parallel task failed to join: "@ + m@,
        ParallelTaskError::Task(c) => "parallel task failed: "@ + client_error_message(c),
    }
}

impl ParallelTaskError<ClientError> {
    /// The error's message, as the command line shows it.
    pub fn message(&self) -> (r: String)
        ensures
            r@ == parallel_client_error_message(*self),
    {
        match self {
            ParallelTaskError::InvalidMaxParallel => String::from_str("max_parallel must be greater than zero"),
            ParallelTaskError::Join(m) => {
                let mut r = String::from_str("parallel task failed to join: ");
                r.append(m.as_str());
                r
            },
            ParallelTaskError::Task(c) => {
                let mut r = String::from_str("parallel task failed: ");
                r.append(c.message().as_str());
                r
            },
        }
    }
}

/// Results of tasks kept at the positions of their inputs.
#[derive(Debug)]
pub struct ParallelResults<O> {
    slots: Vec<Option<O>>,
}

impl<O> ParallelResults<O> {
    /// The result recorded for each position so far.
    pub closed spec fn slots(&self) -> Seq<Option<O>> {
        self.slots@
    }

    /// Room for `len` results, none recorded.
    pub fn new(len: usize) -> (r: Self)
        ensures
            r.slots().len() == len,
            forall|i: int| 0 <= i < len ==> r.slots()[i] is None,
    {
        let mut slots: Vec<Option<O>> = Vec::new();
        let mut i: usize = 0;
        while i < len
            invariant
                0 <= i <= len,
                slots@.len() == i,
                forall|j: int| 0 <= j < i ==> slots@[j] is None,
            decreases len - i,
        {
            slots.push(None);
            i = i + 1;
        }
        ParallelResults { slots }
    }

    /// How many results there is room for.
    pub fn len(&self) -> (r: usize)
        ensures
            r == self.slots().len(),
    {
        self.slots.len()
    }

    /// Records the result of the task at `index`.
    pub fn record(&mut self, index: usize, value: O)
        requires
            index < old(self).slots().len(),
        ensures
            final(self).slots() == old(self).slots().update(index as int, Some(value)),
    {
        self.slots.set(index, Some(value));
    }

    /// How many results are recorded.
    pub fn completed(&self) -> (r: usize)
        ensures
            r == self.slots().filter(|o: Option<O>| o is Some).len(),
    {
        let ghost full = |o: Option<O>| o is Some;
        let mut n: usize = 0;
        let mut i: usize = 0;
        while i < self.slots.len()
            invariant
                0 <= i <= self.slots@.len(),
                full == (|o: Option<O>| o is Some),
                n == self.slots@.take(i as int).filter(full).len(),
                n <= i,
            decreases self.slots@.len() - i,
        {
            proof {
                reveal(Seq::filter);
                assert(self.slots@.take(i + 1).drop_last() =~= self.slots@.take(i as int));
            }
            if self.slots[i].is_some() {
                n = n + 1;
            }
            i = i + 1;
        }
        assert(self.slots@.take(self.slots@.len() as int) =~= self.slots@);
        n
    }

    /// The results in input order, once every position has one; `None` while one is missing.
    pub fn into_results(self) -> (r: Option<Vec<O>>)
        ensures
            (forall|i: int| 0 <= i < self.slots().len() ==> self.slots()[i] is Some) <==> r is Some,
            r matches Some(v) ==> v@.len() == self.slots().len() && forall|i: int|
                0 <= i < v@.len() ==> self.slots()[i] == Some(#[trigger] v@[i]),
    {
        let ghost all = self.slots@;
        let mut out: Vec<O> = Vec::new();
        for slot in it: self.slots
            invariant
                it.seq() == all,
                out@.len() == it.index(),
                forall|i: int| 0 <= i < out@.len() ==> all[i] == Some(#[trigger] out@[i]),
        {
            let ghost i = it.index() as int;
            assert(all[i] == slot);
            match slot {
                Some(v) => out.push(v),
                None => {
                    assert(!(self.slots()[i] is Some));
                    return None;
                },
            }
        }
        assert(out@.len() == all.len());
        assert forall|i: int| 0 <= i < all.len() implies all[i] is Some by {
            assert(all[i] == Some(out@[i]));
        }
        Some(out)
    }
}

/// Results keep their input order whatever order the tasks finish in: recording the results of
/// two different positions leaves the same slots in either order.
pub proof fn lemma_record_order_irrelevant<O>(slots: Seq<Option<O>>, i: int, a: O, j: int, b: O)
    requires
        0 <= i < slots.len(),
        0 <= j < slots.len(),
        i != j,
    ensures
        slots.update(i, Some(a)).update(j, Some(b)) == slots.update(j, Some(b)).update(i, Some(a)),
{
    assert(slots.update(i, Some(a)).update(j, Some(b)) =~= slots.update(j, Some(b)).update(i, Some(a)));
}

} // verus!
