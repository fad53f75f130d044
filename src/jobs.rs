//! The job registry.
//!
//! The registry is generic over `H`, whatever stands for one running job
//! (the receiving end of its result and the handle of its thread, say). It
//! keeps the bookkeeping: identifiers, which jobs are live, and what a poll
//! of a job means for the caller. Running the job and polling it is the
//! caller's part; the registry is told what the poll saw.
use std::collections::HashMap;
use vstd::prelude::*;
use vstd::std_specs::hash::group_hash_axioms;
use crate::ids::{decimal, id_number, lemma_decimal_injective, lemma_id_number_decimal, parse_id, render_id};

verus! {

broadcast use group_hash_axioms;

/// Answer to a poll of a job that has not finished.
pub const NO_RESULTS_YET: &'static str = "NO_RESULTS_YET";

/// Answer to a check of an identifier that names no live job.
pub const NO_SUCH_JOB: &'static str = "NO_SUCH_JOB";

/// Answer to a check of a job that ended without a result.
pub const JOB_PANICKED: &'static str = "JOB_PANICKED";

/// What a non-blocking poll of a job's result channel saw.
pub enum Poll {
    /// The job's result.
    Ready(String),
    /// Nothing yet; the job may still send.
    Empty,
    /// Nothing, and nothing will come: the job ended without sending.
    Disconnected,
}

/// The registry as a mathematical value.
pub struct JobsView<H> {
    /// The live jobs, by number; a job's identifier is `decimal(number)`.
    pub live: Map<nat, H>,
    /// The number the next job gets.
    pub next: nat,
}

/// What a check of `id` with the poll `poll` gives: the registry after it,
/// the answer, and the job taken out of the registry, if any.
pub open spec fn check_outcome<H>(m: JobsView<H>, id: Seq<char>, poll: Poll) -> (
    JobsView<H>,
    Seq<char>,
    Option<H>,
) {
    match id_number(id) {
        Some(k) if m.live.contains_key(k) => match poll {
            Poll::Ready(v) => (JobsView { live: m.live.remove(k), next: m.next }, v@, Some(m.live[k])),
            Poll::Empty => (m, NO_RESULTS_YET@, None),
            Poll::Disconnected => (
                JobsView { live: m.live.remove(k), next: m.next },
                JOB_PANICKED@,
                Some(m.live[k]),
            ),
        },
        _ => (m, NO_SUCH_JOB@, None),
    }
}

/// Live jobs, by number, and the number of the next job.
pub struct Jobs<H> {
    map: HashMap<u64, H>,
    next_job: u64,
}

impl<H> View for Jobs<H> {
    type V = JobsView<H>;

    closed spec fn view(&self) -> JobsView<H> {
        JobsView {
            live: Map::new(
                |k: nat| k <= u64::MAX && self.map@.contains_key(k as u64),
                |k: nat| self.map@[k as u64],
            ),
            next: self.next_job as nat,
        }
    }
}

impl<H> Jobs<H> {
    /// Every live job has a number below the counter.
    pub closed spec fn wf(&self) -> bool {
        forall|k: u64| #[trigger] self.map@.contains_key(k) ==> k < self.next_job
    }

    /// An empty registry whose first job gets the number zero.
    pub fn new() -> (r: Self)
        ensures
            r.wf(),
            r@.live == Map::<nat, H>::empty(),
            r@.next == 0,
    {
        let r = Jobs { map: HashMap::new(), next_job: 0 };
        assert(r@.live =~= Map::<nat, H>::empty());
        r
    }

    /// The number the next job gets.
    pub fn next_number(&self) -> (r: u64)
        ensures
            r as nat == self@.next,
    {
        self.next_job
    }

    /// Registers `job` under a fresh identifier, the decimal form of the
    /// counter, and advances the counter.
    pub fn start(&mut self, job: H) -> (id: String)
        requires
            old(self).wf(),
            old(self)@.next < u64::MAX,
        ensures
            final(self).wf(),
            id@ == decimal(old(self)@.next),
            id_number(id@) == Some(old(self)@.next),
            final(self)@.live == old(self)@.live.insert(old(self)@.next, job),
            final(self)@.next == old(self)@.next + 1,
            forall|k: nat| k < old(self)@.next ==> decimal(k) != id@,
            !old(self)@.live.contains_key(old(self)@.next),
    {
        let n = self.next_job;
        let id = render_id(n);
        self.next_job = n + 1;
        self.map.insert(n, job);
        proof {
            assert forall|k: nat| k < n implies decimal(k) != id@ by {
                lemma_decimal_injective(k, n as nat);
            }
            lemma_decimal_injective(n as nat, n as nat);
            assert(self@.live =~= old(self)@.live.insert(n as nat, job));
        }
        id
    }

    /// The live job that `id` names, if any.
    pub fn job(&self, id: &str) -> (r: Option<&H>)
        ensures
            match id_number(id@) {
                Some(k) if self@.live.contains_key(k) => r == Some(&self@.live[k]),
                _ => r is None,
            },
    {
        match parse_id(id) {
            Some(k) => self.map.get(&k),
            None => None,
        }
    }

    /// Settles a check of `id`, given what a poll of its job saw.
    ///
    /// An identifier that names no live job gets `NO_SUCH_JOB`, whatever
    /// the poll. A live job whose poll found nothing yet stays, and gets
    /// `NO_RESULTS_YET`. A live job that has sent its result, or has ended
    /// without one, is taken out and handed back with the result or with
    /// `JOB_PANICKED`.
    pub fn check(&mut self, id: &str, poll: Poll) -> (r: (String, Option<H>))
        requires
            old(self).wf(),
        ensures
            final(self).wf(),
            (final(self)@, r.0@, r.1) == check_outcome(old(self)@, id@, poll),
            (id_number(id@) is None || id_number(id@).unwrap() >= old(self)@.next) ==> r.0@
                == NO_SUCH_JOB@,
    {
        let k = match parse_id(id) {
            Some(k) => k,
            None => return (String::from_str(NO_SUCH_JOB), None),
        };
        if !self.map.contains_key(&k) {
            return (String::from_str(NO_SUCH_JOB), None);
        }
        match poll {
            Poll::Empty => (String::from_str(NO_RESULTS_YET), None),
            Poll::Ready(v) => {
                let job = self.map.remove(&k);
                proof {
                    assert(self@.live =~= old(self)@.live.remove(k as nat));
                }
                (v, job)
            },
            Poll::Disconnected => {
                let job = self.map.remove(&k);
                proof {
                    assert(self@.live =~= old(self)@.live.remove(k as nat));
                }
                (String::from_str(JOB_PANICKED), job)
            },
        }
    }
}

/// Registers `job` in `jobs`; see `Jobs::start`.
pub fn start<H>(jobs: &mut Jobs<H>, job: H) -> (id: String)
    requires
        old(jobs).wf(),
        old(jobs)@.next < u64::MAX,
    ensures
        final(jobs).wf(),
        id@ == decimal(old(jobs)@.next),
        id_number(id@) == Some(old(jobs)@.next),
        final(jobs)@.live == old(jobs)@.live.insert(old(jobs)@.next, job),
        final(jobs)@.next == old(jobs)@.next + 1,
{
    jobs.start(job)
}

/// Checks `id` in `jobs`, given what a poll of its job saw; see
/// `Jobs::check`.
pub fn check<H>(jobs: &mut Jobs<H>, id: &str, poll: Poll) -> (r: (String, Option<H>))
    requires
        old(jobs).wf(),
    ensures
        final(jobs).wf(),
        (final(jobs)@, r.0@, r.1) == check_outcome(old(jobs)@, id@, poll),
        (id_number(id@) is None || id_number(id@).unwrap() >= old(jobs)@.next) ==> r.0@
            == NO_SUCH_JOB@,
{
    jobs.check(id, poll)
}

/// The identifiers that `count` successive calls of `start` return on a
/// registry whose counter stands at `first`.
pub open spec fn issued_ids(first: nat, count: nat) -> Seq<Seq<char>> {
    Seq::new(count, |i: int| decimal(first + i as nat))
}

/// The `id` names a live job of `m`.
pub open spec fn is_live<H>(m: JobsView<H>, id: Seq<char>) -> bool {
    id_number(id) is Some && m.live.contains_key(id_number(id).unwrap())
}

/// Identifiers returned by successive submissions are pairwise distinct.
pub proof fn lemma_issued_ids_distinct(first: nat, count: nat)
    ensures
        forall|i: int, j: int|
            0 <= i < count && 0 <= j < count && i != j ==> #[trigger] issued_ids(first, count)[i]
                != #[trigger] issued_ids(first, count)[j],
{
    assert forall|i: int, j: int|
        0 <= i < count && 0 <= j < count && i != j implies #[trigger] issued_ids(first, count)[i]
            != #[trigger] issued_ids(first, count)[j] by {
        lemma_decimal_injective(first + i as nat, first + j as nat);
    }
}

/// Checking a pending job answers `NO_RESULTS_YET` and leaves the registry
/// exactly as it was, so every further check of it while it is pending
/// answers the same, and no other job is touched.
pub proof fn lemma_pending_check_changes_nothing<H>(m: JobsView<H>, id: Seq<char>)
    requires
        is_live(m, id),
    ensures
        check_outcome(m, id, Poll::Empty) == (m, NO_RESULTS_YET@, Option::<H>::None),
{
}

/// A job's result is delivered by the first check that sees it, together
/// with the job itself; any later check of the same identifier answers
/// `NO_SUCH_JOB`, whatever its poll sees.
pub proof fn lemma_result_delivered_once<H>(m: JobsView<H>, id: Seq<char>, v: String, later: Poll)
    requires
        is_live(m, id),
    ensures
        ({
            let (m1, answer, job) = check_outcome(m, id, Poll::Ready(v));
            &&& answer == v@
            &&& job == Some(m.live[id_number(id).unwrap()])
            &&& !is_live(m1, id)
            &&& check_outcome(m1, id, later) == (m1, NO_SUCH_JOB@, Option::<H>::None)
        }),
{
}

/// A job that ended without a result is reported once as `JOB_PANICKED`;
/// any later check of the same identifier answers `NO_SUCH_JOB`.
pub proof fn lemma_failure_reported_once<H>(m: JobsView<H>, id: Seq<char>, later: Poll)
    requires
        is_live(m, id),
    ensures
        ({
            let (m1, answer, job) = check_outcome(m, id, Poll::Disconnected);
            &&& answer == JOB_PANICKED@
            &&& job == Some(m.live[id_number(id).unwrap()])
            &&& !is_live(m1, id)
            &&& check_outcome(m1, id, later) == (m1, NO_SUCH_JOB@, Option::<H>::None)
        }),
{
}

/// Checking one job never hands out another: the job taken out is the one
/// that `id` names, and every other live job stays, unchanged.
pub proof fn lemma_no_cross_delivery<H>(m: JobsView<H>, id: Seq<char>, other: Seq<char>, poll: Poll)
    requires
        is_live(m, id),
        is_live(m, other),
        id != other,
    ensures
        ({
            let (m1, answer, job) = check_outcome(m, id, poll);
            let k = id_number(other).unwrap();
            &&& job is Some ==> job == Some(m.live[id_number(id).unwrap()])
            &&& is_live(m1, other)
            &&& m1.live[k] == m.live[k]
        }),
{
    let a = id_number(id).unwrap();
    let b = id_number(other).unwrap();
    lemma_id_number_decimal(id, a);
    lemma_id_number_decimal(other, b);
}

} // verus!
