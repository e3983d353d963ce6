//! Decisions of the worker's event loop: which ready sessions run in this
//! iteration, how long to poll, and when a soft stop is over.
use vstd::prelude::*;

verus! {

/// Sessions with pending readiness, in the order they became ready; each
/// token is queued at most once.
pub struct ReadyQueue {
    pub tokens: Vec<usize>,
}

pub open spec fn no_duplicates(s: Seq<usize>) -> bool {
    forall|i: int, j: int| 0 <= i < j < s.len() ==> s[i] != s[j]
}

impl ReadyQueue {
    pub open spec fn wf(self) -> bool {
        no_duplicates(self.tokens@)
    }

    pub fn new() -> (r: ReadyQueue)
        ensures
            r.wf(),
            r.tokens@.len() == 0,
    {
        ReadyQueue { tokens: Vec::new() }
    }

    /// Queues `token` at the back unless it is queued already.
    pub fn push(&mut self, token: usize)
        requires
            old(self).wf(),
        ensures
            final(self).wf(),
            old(self).tokens@.contains(token) ==> final(self).tokens@ == old(self).tokens@,
            !old(self).tokens@.contains(token) ==> final(self).tokens@ == old(self).tokens@.push(token),
    {
        let mut i: usize = 0;
        while i < self.tokens.len()
            invariant
                *self == *old(self),
                self.wf(),
                i <= self.tokens@.len(),
                forall|j: int| 0 <= j < i ==> self.tokens@[j] != token,
            decreases self.tokens.len() - i,
        {
            if self.tokens[i] == token {
                return;
            }
            i = i + 1;
        }
        self.tokens.push(token);
    }

    /// Takes at most `max` tokens from the front, in order; the others wait
    /// for the next iteration, so no session starves the rest.
    pub fn take_batch(&mut self, max: usize) -> (r: Vec<usize>)
        requires
            old(self).wf(),
        ensures
            final(self).wf(),
            r@.len() == if old(self).tokens@.len() < max {
                old(self).tokens@.len() as int
            } else {
                max as int
            },
            r@ == old(self).tokens@.subrange(0, r@.len() as int),
            final(self).tokens@ == old(self).tokens@.subrange(r@.len() as int, old(self).tokens@.len() as int),
    {
        let n = if self.tokens.len() < max {
            self.tokens.len()
        } else {
            max
        };
        let mut batch: Vec<usize> = Vec::new();
        let mut rest: Vec<usize> = Vec::new();
        let mut i: usize = 0;
        while i < self.tokens.len()
            invariant
                *self == *old(self),
                n <= self.tokens@.len(),
                i <= self.tokens@.len(),
                batch@ == self.tokens@.subrange(0, if i < n { i as int } else { n as int }),
                rest@ == self.tokens@.subrange(n as int, if i < n { n as int } else { i as int }),
            decreases self.tokens.len() - i,
        {
            if i < n {
                batch.push(self.tokens[i]);
                assert(batch@ =~= self.tokens@.subrange(0, i + 1));
            } else {
                rest.push(self.tokens[i]);
                assert(rest@ =~= self.tokens@.subrange(n as int, i + 1));
            }
            i = i + 1;
        }
        proof {
            let s = old(self).tokens@;
            assert(rest@ == s.subrange(n as int, s.len() as int));
            assert forall|a: int, b: int| 0 <= a < b < rest@.len() implies rest@[a] != rest@[b] by {
                assert(rest@[a] == s[n + a]);
                assert(rest@[b] == s[n + b]);
            }
        }
        self.tokens = rest;
        batch
    }
}

/// How long to poll: until the nearest deadline, and no longer than `max`.
pub open spec fn timeout_until(deadlines: Seq<u64>, now: u64, max: u64, k: int) -> u64
    decreases k,
{
    if k <= 0 {
        max
    } else {
        let rest = timeout_until(deadlines, now, max, k - 1);
        let d = if deadlines[k - 1] > now {
            (deadlines[k - 1] - now) as u64
        } else {
            0
        };
        if d < rest {
            d
        } else {
            rest
        }
    }
}

/// The poll timeout at `now`: the time to the nearest of `deadlines`, zero
/// for one already due, `max` when none comes sooner.
pub fn poll_timeout(deadlines: &Vec<u64>, now: u64, max: u64) -> (r: u64)
    ensures
        r == timeout_until(deadlines@, now, max, deadlines@.len() as int),
        r <= max,
        forall|i: int| 0 <= i < deadlines@.len() ==> r <= (if deadlines@[i] > now { deadlines@[i] - now } else { 0 }),
{
    let mut best = max;
    let mut i: usize = 0;
    while i < deadlines.len()
        invariant
            i <= deadlines@.len(),
            best == timeout_until(deadlines@, now, max, i as int),
            best <= max,
            forall|j: int| 0 <= j < i ==> best <= (if deadlines@[j] > now { deadlines@[j] - now } else { 0 }),
        decreases deadlines.len() - i,
    {
        let d = if deadlines[i] > now {
            deadlines[i] - now
        } else {
            0
        };
        if d < best {
            best = d;
        }
        i = i + 1;
    }
    best
}

/// A soft stop is over, and the worker may exit, once no session remains.
pub fn soft_stop_complete(soft_stop_pending: bool, sessions: usize) -> (r: bool)
    ensures
        r == (soft_stop_pending && sessions == 0),
{
    soft_stop_pending && sessions == 0
}

} // verus!
